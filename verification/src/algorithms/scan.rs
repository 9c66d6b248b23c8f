//! What an expectimax node holds while it looks at its candidates one by
//! one, and why it ends up with the result of the search.

use crate::algorithms::candidates::legal_count;
use crate::algorithms::choice::{as_outcome, as_reply, first_best};
use crate::algorithms::expectimax::{
    expectimax_outcome, expectimax_replies, is_expectimax, lemma_one_reply_for_each_legal,
    utilities_of, ExpectimaxAgentType,
};
use crate::callbacks::computes;
use crate::order::prefers;
use crate::traits::GameState;
use crate::utility::{weighted_total, ChanceUtility};
use vstd::prelude::*;

verus! {

/// The deciding agent has looked at the first `scanned` candidates and holds
/// `best`: what it would choose among the replies to them, whatever functions
/// the two callbacks compute.
pub open spec fn is_best_so_far<S, U, E, K>(
    best: Option<(usize, U)>,
    maximizing: bool,
    state: S,
    depth: nat,
    eval_fn: E,
    agent_type_fn: K,
    universe: Seq<S::Action>,
    scanned: nat,
) -> bool where
    S: GameState,
    U: Ord + ChanceUtility,
    E: Fn(&S) -> U,
    K: Fn(&S::Agent) -> ExpectimaxAgentType,
 {
    forall|eval: spec_fn(S) -> U, kind: spec_fn(S::Agent) -> ExpectimaxAgentType|
        #![trigger computes(eval_fn, eval), computes(agent_type_fn, kind)]
        computes(eval_fn, eval) && computes(agent_type_fn, kind) ==> as_reply(best) == first_best(
            maximizing,
            expectimax_replies(state, depth, eval, kind, universe, scanned),
        )
}

/// The chance node has looked at the first `scanned` candidates and holds
/// `utility`: the sum of the shares of the replies to them, whatever
/// functions the two callbacks compute.
pub open spec fn is_total_so_far<S, U, E, K>(
    utility: U,
    parts: nat,
    state: S,
    depth: nat,
    eval_fn: E,
    agent_type_fn: K,
    universe: Seq<S::Action>,
    scanned: nat,
) -> bool where
    S: GameState,
    U: Ord + ChanceUtility,
    E: Fn(&S) -> U,
    K: Fn(&S::Agent) -> ExpectimaxAgentType,
 {
    forall|eval: spec_fn(S) -> U, kind: spec_fn(S::Agent) -> ExpectimaxAgentType|
        #![trigger computes(eval_fn, eval), computes(agent_type_fn, kind)]
        computes(eval_fn, eval) && computes(agent_type_fn, kind) ==> utility == weighted_total(
            utilities_of(expectimax_replies(state, depth, eval, kind, universe, scanned)),
            parts,
        )
}

/// Looking at an illegal candidate leaves the deciding agent's best as it is.
pub proof fn lemma_best_skips_illegal<S, U, E, K>(
    best: Option<(usize, U)>,
    maximizing: bool,
    state: S,
    depth: nat,
    eval_fn: E,
    agent_type_fn: K,
    universe: Seq<S::Action>,
    index: usize,
) where
    S: GameState,
    U: Ord + ChanceUtility,
    E: Fn(&S) -> U,
    K: Fn(&S::Agent) -> ExpectimaxAgentType,

    requires
        depth > 0,
        index < universe.len(),
        state.spec_successor(&universe[index as int]) is None,
        is_best_so_far(
            best,
            maximizing,
            state,
            depth,
            eval_fn,
            agent_type_fn,
            universe,
            index as nat,
        ),
    ensures
        is_best_so_far(
            best,
            maximizing,
            state,
            depth,
            eval_fn,
            agent_type_fn,
            universe,
            (index + 1) as nat,
        ),
{
    assert forall|eval: spec_fn(S) -> U, kind: spec_fn(S::Agent) -> ExpectimaxAgentType|
        #![trigger computes(eval_fn, eval), computes(agent_type_fn, kind)]
        computes(eval_fn, eval) && computes(agent_type_fn, kind) implies as_reply(best) == first_best(
        maximizing,
        expectimax_replies(state, depth, eval, kind, universe, (index + 1) as nat),
    ) by {
        assert(expectimax_replies(state, depth, eval, kind, universe, (index + 1) as nat)
            == expectimax_replies(state, depth, eval, kind, universe, index as nat));
    }
}

/// Looking at a legal candidate, whose successor the search valued at
/// `reply`, the deciding agent keeps its best unless the reply is strictly
/// better.
pub proof fn lemma_best_takes_legal<S, U, E, K>(
    best: Option<(usize, U)>,
    maximizing: bool,
    state: S,
    depth: nat,
    eval_fn: E,
    agent_type_fn: K,
    universe: Seq<S::Action>,
    index: usize,
    reply: (Option<usize>, U),
) where
    S: GameState,
    U: Ord + ChanceUtility,
    E: Fn(&S) -> U,
    K: Fn(&S::Agent) -> ExpectimaxAgentType,

    requires
        depth > 0,
        index < universe.len(),
        state.spec_successor(&universe[index as int]) is Some,
        is_best_so_far(
            best,
            maximizing,
            state,
            depth,
            eval_fn,
            agent_type_fn,
            universe,
            index as nat,
        ),
        is_expectimax(
            reply,
            state.spec_successor(&universe[index as int]).unwrap(),
            (depth - 1) as nat,
            eval_fn,
            agent_type_fn,
            universe,
        ),
    ensures
        is_best_so_far(
            if best is None || prefers(maximizing, reply.1, best.unwrap().1) {
                Some((index, reply.1))
            } else {
                best
            },
            maximizing,
            state,
            depth,
            eval_fn,
            agent_type_fn,
            universe,
            (index + 1) as nat,
        ),
{
    let next = state.spec_successor(&universe[index as int]).unwrap();
    let kept = if best is None || prefers(maximizing, reply.1, best.unwrap().1) {
        Some((index, reply.1))
    } else {
        best
    };
    assert forall|eval: spec_fn(S) -> U, kind: spec_fn(S::Agent) -> ExpectimaxAgentType|
        #![trigger computes(eval_fn, eval), computes(agent_type_fn, kind)]
        computes(eval_fn, eval) && computes(agent_type_fn, kind) implies as_reply(kept) == first_best(
        maximizing,
        expectimax_replies(state, depth, eval, kind, universe, (index + 1) as nat),
    ) by {
        let replies = expectimax_replies(state, depth, eval, kind, universe, index as nat);
        let utility = expectimax_outcome(next, (depth - 1) as nat, eval, kind, universe).1;
        let grown = replies.push((index as int, utility));
        assert(expectimax_replies(state, depth, eval, kind, universe, (index + 1) as nat)
            == grown);
        assert(grown.drop_last() == replies);
        assert(as_outcome(reply).1 == utility);
    }
}

/// A deciding agent that has looked at every candidate returns the result of
/// the search.
pub proof fn lemma_decided<S, U, E, K>(
    best: Option<(usize, U)>,
    role: ExpectimaxAgentType,
    state: S,
    depth: nat,
    eval_fn: E,
    agent_type_fn: K,
    universe: Seq<S::Action>,
    agent: S::Agent,
    found: (Option<usize>, U),
) where
    S: GameState,
    U: Ord + ChanceUtility,
    E: Fn(&S) -> U,
    K: Fn(&S::Agent) -> ExpectimaxAgentType,

    requires
        depth > 0,
        state.spec_next_agent() == Some(agent),
        agent_type_fn.ensures((&agent,), role),
        role !is Random,
        is_best_so_far(
            best,
            role is Maximizer,
            state,
            depth,
            eval_fn,
            agent_type_fn,
            universe,
            universe.len(),
        ),
        match best {
            Some((index, utility)) => found == (Some(index), utility),
            None => found.0 is None && eval_fn.ensures((&state,), found.1),
        },
    ensures
        is_expectimax(found, state, depth, eval_fn, agent_type_fn, universe),
{
    assert forall|eval: spec_fn(S) -> U, kind: spec_fn(S::Agent) -> ExpectimaxAgentType|
        #![trigger computes(eval_fn, eval), computes(agent_type_fn, kind)]
        computes(eval_fn, eval) && computes(agent_type_fn, kind) implies as_outcome(found) == expectimax_outcome(
        state,
        depth,
        eval,
        kind,
        universe,
    ) by {
        assert(kind(agent) == role);
    }
}

/// Looking at an illegal candidate leaves the chance node's sum as it is.
pub proof fn lemma_total_skips_illegal<S, U, E, K>(
    utility: U,
    parts: nat,
    state: S,
    depth: nat,
    eval_fn: E,
    agent_type_fn: K,
    universe: Seq<S::Action>,
    index: usize,
) where
    S: GameState,
    U: Ord + ChanceUtility,
    E: Fn(&S) -> U,
    K: Fn(&S::Agent) -> ExpectimaxAgentType,

    requires
        depth > 0,
        index < universe.len(),
        state.spec_successor(&universe[index as int]) is None,
        is_total_so_far(
            utility,
            parts,
            state,
            depth,
            eval_fn,
            agent_type_fn,
            universe,
            index as nat,
        ),
    ensures
        is_total_so_far(
            utility,
            parts,
            state,
            depth,
            eval_fn,
            agent_type_fn,
            universe,
            (index + 1) as nat,
        ),
{
    assert forall|eval: spec_fn(S) -> U, kind: spec_fn(S::Agent) -> ExpectimaxAgentType|
        #![trigger computes(eval_fn, eval), computes(agent_type_fn, kind)]
        computes(eval_fn, eval) && computes(agent_type_fn, kind) implies utility == weighted_total(
        utilities_of(expectimax_replies(state, depth, eval, kind, universe, (index + 1) as nat)),
        parts,
    ) by {
        assert(expectimax_replies(state, depth, eval, kind, universe, (index + 1) as nat)
            == expectimax_replies(state, depth, eval, kind, universe, index as nat));
    }
}

/// Looking at a legal candidate, whose successor the search valued at
/// `reply`, the chance node adds the share of that utility to its sum.
pub proof fn lemma_total_takes_legal<S, U, E, K>(
    utility: U,
    parts: nat,
    state: S,
    depth: nat,
    eval_fn: E,
    agent_type_fn: K,
    universe: Seq<S::Action>,
    index: usize,
    reply: (Option<usize>, U),
) where
    S: GameState,
    U: Ord + ChanceUtility,
    E: Fn(&S) -> U,
    K: Fn(&S::Agent) -> ExpectimaxAgentType,

    requires
        depth > 0,
        index < universe.len(),
        state.spec_successor(&universe[index as int]) is Some,
        is_total_so_far(
            utility,
            parts,
            state,
            depth,
            eval_fn,
            agent_type_fn,
            universe,
            index as nat,
        ),
        is_expectimax(
            reply,
            state.spec_successor(&universe[index as int]).unwrap(),
            (depth - 1) as nat,
            eval_fn,
            agent_type_fn,
            universe,
        ),
    ensures
        is_total_so_far(
            utility.spec_plus(reply.1.spec_share(parts)),
            parts,
            state,
            depth,
            eval_fn,
            agent_type_fn,
            universe,
            (index + 1) as nat,
        ),
{
    let next = state.spec_successor(&universe[index as int]).unwrap();
    assert forall|eval: spec_fn(S) -> U, kind: spec_fn(S::Agent) -> ExpectimaxAgentType|
        #![trigger computes(eval_fn, eval), computes(agent_type_fn, kind)]
        computes(eval_fn, eval) && computes(agent_type_fn, kind) implies utility.spec_plus(reply.1.spec_share(parts)) == weighted_total(
        utilities_of(expectimax_replies(state, depth, eval, kind, universe, (index + 1) as nat)),
        parts,
    ) by {
        let replies = expectimax_replies(state, depth, eval, kind, universe, index as nat);
        let truth = expectimax_outcome(next, (depth - 1) as nat, eval, kind, universe).1;
        let grown = replies.push((index as int, truth));
        assert(expectimax_replies(state, depth, eval, kind, universe, (index + 1) as nat)
            == grown);
        assert(utilities_of(grown).drop_last() == utilities_of(replies));
        assert(utilities_of(grown).last() == truth);
        assert(as_outcome(reply).1 == truth);
    }
}

/// A chance node that has looked at every candidate returns the result of the
/// search.
pub proof fn lemma_averaged<S, U, E, K>(
    utility: U,
    parts: nat,
    role: ExpectimaxAgentType,
    state: S,
    depth: nat,
    eval_fn: E,
    agent_type_fn: K,
    universe: Seq<S::Action>,
    agent: S::Agent,
) where
    S: GameState,
    U: Ord + ChanceUtility,
    E: Fn(&S) -> U,
    K: Fn(&S::Agent) -> ExpectimaxAgentType,

    requires
        depth > 0,
        state.spec_next_agent() == Some(agent),
        agent_type_fn.ensures((&agent,), role),
        role is Random,
        parts == legal_count(state, universe, universe.len()),
        is_total_so_far(
            utility,
            parts,
            state,
            depth,
            eval_fn,
            agent_type_fn,
            universe,
            universe.len(),
        ),
    ensures
        is_expectimax((None, utility), state, depth, eval_fn, agent_type_fn, universe),
{
    assert forall|eval: spec_fn(S) -> U, kind: spec_fn(S::Agent) -> ExpectimaxAgentType|
        #![trigger computes(eval_fn, eval), computes(agent_type_fn, kind)]
        computes(eval_fn, eval) && computes(agent_type_fn, kind) implies as_outcome((None::<usize>, utility)) == expectimax_outcome(
        state,
        depth,
        eval,
        kind,
        universe,
    ) by {
        assert(kind(agent) == role);
        lemma_one_reply_for_each_legal(state, depth, eval, kind, universe, universe.len());
    }
}

} // verus!
