//! Depth-bounded expectimax: minimax with chance nodes.

use crate::algorithms::candidates::{
    ends_within, has_no_legal_action, is_leaf, legal_count, lemma_legal_count_grows,
    lemma_no_legal_count, none_legal, recommends_legal,
};
use crate::algorithms::choice::{as_outcome, decision};
use crate::algorithms::minimax::{minimax_outcome, minimax_replies};
use crate::algorithms::scan::{
    is_best_so_far, is_total_so_far, lemma_averaged, lemma_best_skips_illegal,
    lemma_best_takes_legal, lemma_decided, lemma_total_skips_illegal, lemma_total_takes_legal,
};
use crate::callbacks::{always_callable, computes};
use crate::enumeration::all_actions;
use crate::order::{is_total_order, lemma_operators_compute_below};
use crate::traits::GameState;
use crate::utility::{
    lemma_mean_is_arithmetic_mean, lemma_mean_of_one, mean, obeys_share_laws, obeys_unit_laws,
    total, ChanceUtility,
};
use vstd::prelude::*;

verus! {

/// The role of an agent in an expectimax search.
pub enum ExpectimaxAgentType {
    /// The agent picks the action with the highest utility.
    Maximizer,
    /// The agent picks the action with the lowest utility.
    Minimizer,
    /// The agent picks among its legal actions at random, each with the same
    /// probability.
    Random,
}

/// The utilities of `replies`, in their order.
pub open spec fn utilities_of<U>(replies: Seq<(int, U)>) -> Seq<U> {
    replies.map_values(|reply: (int, U)| reply.1)
}

/// What an expectimax search of `state` to `depth` plies returns: the index,
/// among the candidate actions `universe`, of the action to take, and the
/// utility to expect.
///
/// A position that is finished, or that is reached with no plies left, is
/// worth what `eval` says and recommends nothing. Otherwise `kind` gives the
/// role of the agent to move. A maximizer or a minimizer chooses among the
/// legal candidates the first whose successor's utility no other beats; if
/// none is legal, the position is worth what `eval` says. A random agent
/// chooses nothing: its position is worth the average of the utilities that
/// its legal candidates lead to, which is zero if there are none.
pub open spec fn expectimax_outcome<S: GameState, U: Ord + ChanceUtility>(
    state: S,
    depth: nat,
    eval: spec_fn(S) -> U,
    kind: spec_fn(S::Agent) -> ExpectimaxAgentType,
    universe: Seq<S::Action>,
) -> (Option<int>, U)
    decreases depth, universe.len() + 1,
{
    if depth == 0 || state.spec_next_agent() is None {
        (None, eval(state))
    } else {
        let replies = expectimax_replies(state, depth, eval, kind, universe, universe.len());
        match kind(state.spec_next_agent().unwrap()) {
            ExpectimaxAgentType::Maximizer => decision(true, replies, eval(state)),
            ExpectimaxAgentType::Minimizer => decision(false, replies, eval(state)),
            ExpectimaxAgentType::Random => (None, mean(utilities_of(replies))),
        }
    }
}

/// The legal ones among the first `count` candidates, in their order: each
/// with its index and with the utility that a search, one ply shorter, finds
/// for the position it leads to.
pub open spec fn expectimax_replies<S: GameState, U: Ord + ChanceUtility>(
    state: S,
    depth: nat,
    eval: spec_fn(S) -> U,
    kind: spec_fn(S::Agent) -> ExpectimaxAgentType,
    universe: Seq<S::Action>,
    count: nat,
) -> Seq<(int, U)>
    decreases depth, count,
{
    if depth == 0 || count == 0 {
        Seq::empty()
    } else {
        let earlier = expectimax_replies(state, depth, eval, kind, universe, (count - 1) as nat);
        match state.spec_successor(&universe[count - 1]) {
            Some(next) => earlier.push(
                (count - 1, expectimax_outcome(next, (depth - 1) as nat, eval, kind, universe).1),
            ),
            None => earlier,
        }
    }
}

/// There are as many replies as legal candidates.
pub proof fn lemma_one_reply_for_each_legal<S: GameState, U: Ord + ChanceUtility>(
    state: S,
    depth: nat,
    eval: spec_fn(S) -> U,
    kind: spec_fn(S::Agent) -> ExpectimaxAgentType,
    universe: Seq<S::Action>,
    count: nat,
)
    requires
        depth > 0,
    ensures
        expectimax_replies(state, depth, eval, kind, universe, count).len() == legal_count(
            state,
            universe,
            count,
        ),
    decreases count,
{
    if count > 0 {
        lemma_one_reply_for_each_legal(state, depth, eval, kind, universe, (count - 1) as nat);
    }
}

/// A finished position, and one reached with no plies left, is worth what
/// `eval` says, whatever the roles of the agents. So is a position in which
/// no candidate is legal, unless its agent is random: then it is worth zero.
/// Nothing is recommended in any of them.
pub proof fn lemma_expectimax_of_leaf<S: GameState, U: Ord + ChanceUtility>(
    state: S,
    depth: nat,
    eval: spec_fn(S) -> U,
    kind: spec_fn(S::Agent) -> ExpectimaxAgentType,
    universe: Seq<S::Action>,
)
    requires
        is_leaf(state, depth, universe),
    ensures
        expectimax_outcome(state, depth, eval, kind, universe) == if depth > 0
            && state.spec_next_agent() is Some && kind(state.spec_next_agent().unwrap())
            is Random {
            (None::<int>, U::spec_zero())
        } else {
            (None::<int>, eval(state))
        },
{
    if depth > 0 && state.spec_next_agent() is Some {
        let replies = expectimax_replies(state, depth, eval, kind, universe, universe.len());
        lemma_one_reply_for_each_legal(state, depth, eval, kind, universe, universe.len());
        lemma_no_legal_count(state, universe, universe.len());
        assert(replies.len() == 0);
        assert(utilities_of(replies).len() == 0);
    }
}

/// The role of a chance node: the position is not finished, plies are left,
/// and its agent is random.
pub open spec fn is_chance_node<S: GameState>(
    state: S,
    depth: nat,
    kind: spec_fn(S::Agent) -> ExpectimaxAgentType,
) -> bool {
    depth > 0 && state.spec_next_agent() is Some && kind(state.spec_next_agent().unwrap())
        is Random
}

/// A chance node is worth the average of the utilities that its legal
/// candidates lead to, and nothing is recommended in it. Where the shares of
/// the utility type are exact and a candidate is legal, that average is the
/// arithmetic mean: the sum of those utilities, weighted by one over their
/// number.
pub proof fn lemma_chance_node_averages<S: GameState, U: Ord + ChanceUtility>(
    state: S,
    depth: nat,
    eval: spec_fn(S) -> U,
    kind: spec_fn(S::Agent) -> ExpectimaxAgentType,
    universe: Seq<S::Action>,
)
    requires
        is_chance_node(state, depth, kind),
    ensures
        ({
            let utilities = utilities_of(
                expectimax_replies(state, depth, eval, kind, universe, universe.len()),
            );
            &&& expectimax_outcome(state, depth, eval, kind, universe) == (
                None::<int>,
                mean(utilities),
            )
            &&& utilities.len() == legal_count(state, universe, universe.len())
            &&& obeys_share_laws::<U>() && utilities.len() > 0 ==> mean(utilities) == total(
                utilities,
            ).spec_share(utilities.len())
        }),
{
    let utilities = utilities_of(
        expectimax_replies(state, depth, eval, kind, universe, universe.len()),
    );
    lemma_one_reply_for_each_legal(state, depth, eval, kind, universe, universe.len());
    if obeys_share_laws::<U>() && utilities.len() > 0 {
        lemma_mean_is_arithmetic_mean(utilities);
    }
}

/// A chance node with exactly one legal candidate is worth exactly what that
/// candidate leads to, provided that adding to zero and taking the share of a
/// single part change nothing.
pub proof fn lemma_chance_node_with_one_reply<S: GameState, U: Ord + ChanceUtility>(
    state: S,
    depth: nat,
    eval: spec_fn(S) -> U,
    kind: spec_fn(S::Agent) -> ExpectimaxAgentType,
    universe: Seq<S::Action>,
    index: int,
)
    requires
        obeys_unit_laws::<U>(),
        is_chance_node(state, depth, kind),
        0 <= index < universe.len(),
        state.spec_successor(&universe[index]) is Some,
        forall|other: int|
            0 <= other < universe.len() && other != index ==> (#[trigger] state.spec_successor(
                &universe[other],
            )) is None,
    ensures
        expectimax_outcome(state, depth, eval, kind, universe) == (
            None::<int>,
            expectimax_outcome(
                state.spec_successor(&universe[index]).unwrap(),
                (depth - 1) as nat,
                eval,
                kind,
                universe,
            ).1,
        ),
{
    let next = state.spec_successor(&universe[index]).unwrap();
    let utility = expectimax_outcome(next, (depth - 1) as nat, eval, kind, universe).1;
    lemma_only_reply(state, depth, eval, kind, universe, index, universe.len());
    let replies = expectimax_replies(state, depth, eval, kind, universe, universe.len());
    assert(utilities_of(replies) == seq![utility]);
    lemma_mean_of_one(utility);
}

/// Where at most the candidate at `index` is legal, the replies are that one
/// reply, once it has been looked at, and none before.
proof fn lemma_only_reply<S: GameState, U: Ord + ChanceUtility>(
    state: S,
    depth: nat,
    eval: spec_fn(S) -> U,
    kind: spec_fn(S::Agent) -> ExpectimaxAgentType,
    universe: Seq<S::Action>,
    index: int,
    count: nat,
)
    requires
        depth > 0,
        0 <= index < universe.len(),
        count <= universe.len(),
        state.spec_successor(&universe[index]) is Some,
        forall|other: int|
            0 <= other < universe.len() && other != index ==> (#[trigger] state.spec_successor(
                &universe[other],
            )) is None,
    ensures
        expectimax_replies(state, depth, eval, kind, universe, count) == if index < count {
            seq![
                (
                    index,
                    expectimax_outcome(
                        state.spec_successor(&universe[index]).unwrap(),
                        (depth - 1) as nat,
                        eval,
                        kind,
                        universe,
                    ).1,
                ),
            ]
        } else {
            Seq::<(int, U)>::empty()
        },
    decreases count,
{
    if count > 0 {
        lemma_only_reply(state, depth, eval, kind, universe, index, (count - 1) as nat);
        if count - 1 != index {
            assert(state.spec_successor(&universe[count - 1]) is None);
        }
    }
}

/// The classifier of a minimax search that agrees with `kind`: an agent
/// maximizes exactly if `kind` makes it a maximizer.
pub open spec fn maximizers_of<Agent>(kind: spec_fn(Agent) -> ExpectimaxAgentType) -> spec_fn(
    Agent,
) -> bool {
    |agent: Agent| kind(agent) is Maximizer
}

/// Without chance, expectimax is minimax: if `kind` makes no agent random,
/// the expectimax search returns what the exhaustive minimax search returns
/// in which the maximizers of `kind` maximize and all others minimize.
pub proof fn lemma_expectimax_without_chance_is_minimax<S: GameState, U: Ord + ChanceUtility>(
    state: S,
    depth: nat,
    eval: spec_fn(S) -> U,
    kind: spec_fn(S::Agent) -> ExpectimaxAgentType,
    universe: Seq<S::Action>,
)
    requires
        forall|agent: S::Agent| !(#[trigger] kind(agent) is Random),
    ensures
        expectimax_outcome(state, depth, eval, kind, universe) == minimax_outcome(
            state,
            depth,
            eval,
            maximizers_of(kind),
            universe,
        ),
    decreases depth, universe.len() + 1,
{
    if depth > 0 && state.spec_next_agent() is Some {
        lemma_replies_without_chance_are_minimax(
            state,
            depth,
            eval,
            kind,
            universe,
            universe.len(),
        );
        let agent = state.spec_next_agent().unwrap();
        assert(!(kind(agent) is Random));
    }
}

/// Without chance, the replies of expectimax are those of minimax.
proof fn lemma_replies_without_chance_are_minimax<S: GameState, U: Ord + ChanceUtility>(
    state: S,
    depth: nat,
    eval: spec_fn(S) -> U,
    kind: spec_fn(S::Agent) -> ExpectimaxAgentType,
    universe: Seq<S::Action>,
    count: nat,
)
    requires
        forall|agent: S::Agent| !(#[trigger] kind(agent) is Random),
        count <= universe.len(),
    ensures
        expectimax_replies(state, depth, eval, kind, universe, count) == minimax_replies(
            state,
            depth,
            eval,
            maximizers_of(kind),
            universe,
            count,
        ),
    decreases depth, count,
{
    if depth > 0 && count > 0 {
        lemma_replies_without_chance_are_minimax(
            state,
            depth,
            eval,
            kind,
            universe,
            (count - 1) as nat,
        );
        match state.spec_successor(&universe[count - 1]) {
            Some(next) => {
                lemma_expectimax_without_chance_is_minimax(
                    next,
                    (depth - 1) as nat,
                    eval,
                    kind,
                    universe,
                );
            },
            None => {},
        }
    }
}

/// Once every path from `state` ends within `depth` plies, searching deeper
/// changes nothing: the game is searched to its end.
pub proof fn lemma_expectimax_to_the_end<S: GameState, U: Ord + ChanceUtility>(
    state: S,
    depth: nat,
    deeper: nat,
    eval: spec_fn(S) -> U,
    kind: spec_fn(S::Agent) -> ExpectimaxAgentType,
    universe: Seq<S::Action>,
)
    requires
        ends_within(state, depth, universe),
        depth <= deeper,
    ensures
        expectimax_outcome(state, deeper, eval, kind, universe) == expectimax_outcome(
            state,
            depth,
            eval,
            kind,
            universe,
        ),
    decreases depth,
{
    if state.spec_next_agent() is Some {
        lemma_expectimax_replies_to_the_end(
            state,
            depth,
            deeper,
            eval,
            kind,
            universe,
            universe.len(),
        );
    }
}

/// The replies of a search to the end of the game are those of any deeper
/// search.
proof fn lemma_expectimax_replies_to_the_end<S: GameState, U: Ord + ChanceUtility>(
    state: S,
    depth: nat,
    deeper: nat,
    eval: spec_fn(S) -> U,
    kind: spec_fn(S::Agent) -> ExpectimaxAgentType,
    universe: Seq<S::Action>,
    count: nat,
)
    requires
        state.spec_next_agent() is Some,
        ends_within(state, depth, universe),
        depth <= deeper,
        count <= universe.len(),
    ensures
        expectimax_replies(state, deeper, eval, kind, universe, count) == expectimax_replies(
            state,
            depth,
            eval,
            kind,
            universe,
            count,
        ),
    decreases depth, count,
{
    if count > 0 {
        lemma_expectimax_replies_to_the_end(
            state,
            depth,
            deeper,
            eval,
            kind,
            universe,
            (count - 1) as nat,
        );
        match state.spec_successor(&universe[count - 1]) {
            Some(next) => {
                lemma_expectimax_to_the_end(
                    next,
                    (depth - 1) as nat,
                    (deeper - 1) as nat,
                    eval,
                    kind,
                    universe,
                );
            },
            None => {},
        }
    }
}

/// `found` is the result of the expectimax search of `state`, whatever
/// functions the two callbacks compute.
pub open spec fn is_expectimax<S, U, E, K>(
    found: (Option<usize>, U),
    state: S,
    depth: nat,
    eval_fn: E,
    agent_type_fn: K,
    universe: Seq<S::Action>,
) -> bool where
    S: GameState,
    U: Ord + ChanceUtility,
    E: Fn(&S) -> U,
    K: Fn(&S::Agent) -> ExpectimaxAgentType,
 {
    forall|eval: spec_fn(S) -> U, kind: spec_fn(S::Agent) -> ExpectimaxAgentType|
        #![trigger computes(eval_fn, eval), computes(agent_type_fn, kind)]
        computes(eval_fn, eval) && computes(agent_type_fn, kind) ==> as_outcome(found)
            == expectimax_outcome(state, depth, eval, kind, universe)
}

/// Plies are left, `state` is not finished, and the classifier may call its
/// agent random.
pub open spec fn is_random_turn<S, K>(state: S, depth: nat, agent_type_fn: K) -> bool where
    S: GameState,
    K: Fn(&S::Agent) -> ExpectimaxAgentType,
 {
    &&& depth > 0
    &&& state.spec_next_agent() matches Some(agent)
    &&& agent_type_fn.ensures((&agent,), ExpectimaxAgentType::Random)
}

/// Performs an expectimax search of `state`, `depth` plies deep, in which
/// the agents choose among the candidate actions `actions`, tried in their
/// order. Returns the index in `actions` of the action that the agent to move
/// should take, and the utility to expect.
///
/// The result is that of `expectimax_outcome`. A position with no plies left
/// is scored by `eval_fn` as it stands, as a finished one is. A random agent
/// gets no recommendation.
pub fn expectimax_over<State, Action, Agent, Utility, EvaluationFunction, AgentKindFunction>(
    state: &State,
    depth: usize,
    eval_fn: EvaluationFunction,
    agent_type_fn: AgentKindFunction,
    actions: &Vec<Action>,
) -> (found: (Option<usize>, Utility)) where
    State: GameState<Action = Action, Agent = Agent>,
    EvaluationFunction: Fn(&State) -> Utility + Copy,
    AgentKindFunction: Fn(&Agent) -> ExpectimaxAgentType + Copy,
    Utility: Ord + Copy + ChanceUtility,

    requires
        is_total_order::<Utility>(),
        always_callable(eval_fn),
        depth > 0 && state.spec_next_agent() is Some ==> always_callable(agent_type_fn),
    ensures
        is_expectimax(found, *state, depth as nat, eval_fn, agent_type_fn, actions@),
        recommends_legal(found.0, *state, actions@),
        found.0 is None ==> is_leaf(*state, depth as nat, actions@) || is_random_turn(
            *state,
            depth as nat,
            agent_type_fn,
        ),
        is_leaf(*state, depth as nat, actions@) ==> found.0 is None && (eval_fn.ensures(
            (state,),
            found.1,
        ) || (is_random_turn(*state, depth as nat, agent_type_fn) && found.1
            == Utility::spec_zero())),
    decreases depth,
{
    if depth == 0 || state.is_finished() {
        return (None, eval_fn(state));
    }
    let agent = state.next_agent().unwrap();
    let role = agent_type_fn(&agent);
    match role {
        ExpectimaxAgentType::Maximizer => {
            let mut best: Option<(usize, Utility)> = None;
            let mut i: usize = 0;
            while i < actions.len()
                invariant
                    i <= actions.len(),
                    depth > 0,
                    is_total_order::<Utility>(),
                    always_callable(eval_fn),
                    always_callable(agent_type_fn),
                    best is None <==> none_legal(*state, actions@, i as nat),
                    recommends_legal(
                        match best {
                            Some((index, _)) => Some(index),
                            None => None,
                        },
                        *state,
                        actions@,
                    ),
                    is_best_so_far(
                        best,
                        true,
                        *state,
                        depth as nat,
                        eval_fn,
                        agent_type_fn,
                        actions@,
                        i as nat,
                    ),
                decreases actions.len() - i,
            {
                match state.successor(&actions[i]) {
                    Some(successor_state) => {
                        let reply = expectimax_over(
                            &successor_state,
                            depth - 1,
                            eval_fn,
                            agent_type_fn,
                            actions,
                        );
                        let utility = reply.1;
                        proof {
                            lemma_operators_compute_below::<Utility>();
                            lemma_best_takes_legal(
                                best,
                                true,
                                *state,
                                depth as nat,
                                eval_fn,
                                agent_type_fn,
                                actions@,
                                i,
                                reply,
                            );
                        }
                        if match best {
                            Some((_, best_utility)) => utility > best_utility,
                            None => true,
                        } {
                            best = Some((i, utility));
                        }
                    },
                    None => {
                        proof {
                            lemma_best_skips_illegal(
                                best,
                                true,
                                *state,
                                depth as nat,
                                eval_fn,
                                agent_type_fn,
                                actions@,
                                i,
                            );
                        }
                    },
                }
                i += 1;
            }
            let found = match best {
                Some((index, utility)) => (Some(index), utility),
                None => (None, eval_fn(state)),
            };
            proof {
                lemma_decided(
                    best,
                    role,
                    *state,
                    depth as nat,
                    eval_fn,
                    agent_type_fn,
                    actions@,
                    agent,
                    found,
                );
            }
            found
        },
        ExpectimaxAgentType::Minimizer => {
            let mut best: Option<(usize, Utility)> = None;
            let mut i: usize = 0;
            while i < actions.len()
                invariant
                    i <= actions.len(),
                    depth > 0,
                    is_total_order::<Utility>(),
                    always_callable(eval_fn),
                    always_callable(agent_type_fn),
                    best is None <==> none_legal(*state, actions@, i as nat),
                    recommends_legal(
                        match best {
                            Some((index, _)) => Some(index),
                            None => None,
                        },
                        *state,
                        actions@,
                    ),
                    is_best_so_far(
                        best,
                        false,
                        *state,
                        depth as nat,
                        eval_fn,
                        agent_type_fn,
                        actions@,
                        i as nat,
                    ),
                decreases actions.len() - i,
            {
                match state.successor(&actions[i]) {
                    Some(successor_state) => {
                        let reply = expectimax_over(
                            &successor_state,
                            depth - 1,
                            eval_fn,
                            agent_type_fn,
                            actions,
                        );
                        let utility = reply.1;
                        proof {
                            lemma_operators_compute_below::<Utility>();
                            lemma_best_takes_legal(
                                best,
                                false,
                                *state,
                                depth as nat,
                                eval_fn,
                                agent_type_fn,
                                actions@,
                                i,
                                reply,
                            );
                        }
                        if match best {
                            Some((_, best_utility)) => utility < best_utility,
                            None => true,
                        } {
                            best = Some((i, utility));
                        }
                    },
                    None => {
                        proof {
                            lemma_best_skips_illegal(
                                best,
                                false,
                                *state,
                                depth as nat,
                                eval_fn,
                                agent_type_fn,
                                actions@,
                                i,
                            );
                        }
                    },
                }
                i += 1;
            }
            let found = match best {
                Some((index, utility)) => (Some(index), utility),
                None => (None, eval_fn(state)),
            };
            proof {
                lemma_decided(
                    best,
                    role,
                    *state,
                    depth as nat,
                    eval_fn,
                    agent_type_fn,
                    actions@,
                    agent,
                    found,
                );
            }
            found
        },
        ExpectimaxAgentType::Random => {
            let mut legal: usize = 0;
            let mut i: usize = 0;
            while i < actions.len()
                invariant
                    i <= actions.len(),
                    legal <= i,
                    legal == legal_count(*state, actions@, i as nat),
                decreases actions.len() - i,
            {
                if state.is_legal(&actions[i]) {
                    legal += 1;
                }
                i += 1;
            }
            let mut utility = Utility::zero();
            let mut i: usize = 0;
            while i < actions.len()
                invariant
                    i <= actions.len(),
                    depth > 0,
                    is_total_order::<Utility>(),
                    always_callable(eval_fn),
                    always_callable(agent_type_fn),
                    legal == legal_count(*state, actions@, actions@.len()),
                    none_legal(*state, actions@, i as nat) ==> utility == Utility::spec_zero(),
                    is_total_so_far(
                        utility,
                        legal as nat,
                        *state,
                        depth as nat,
                        eval_fn,
                        agent_type_fn,
                        actions@,
                        i as nat,
                    ),
                decreases actions.len() - i,
            {
                match state.successor(&actions[i]) {
                    Some(successor_state) => {
                        let reply = expectimax_over(
                            &successor_state,
                            depth - 1,
                            eval_fn,
                            agent_type_fn,
                            actions,
                        );
                        let action_utility = reply.1;
                        proof {
                            lemma_legal_count_grows(*state, actions@, 0, (i + 1) as nat);
                            lemma_legal_count_grows(
                                *state,
                                actions@,
                                (i + 1) as nat,
                                actions@.len(),
                            );
                            lemma_total_takes_legal(
                                utility,
                                legal as nat,
                                *state,
                                depth as nat,
                                eval_fn,
                                agent_type_fn,
                                actions@,
                                i,
                                reply,
                            );
                        }
                        utility = utility.plus(action_utility.share(legal));
                    },
                    None => {
                        proof {
                            lemma_total_skips_illegal(
                                utility,
                                legal as nat,
                                *state,
                                depth as nat,
                                eval_fn,
                                agent_type_fn,
                                actions@,
                                i,
                            );
                        }
                    },
                }
                i += 1;
            }
            proof {
                lemma_averaged(
                    utility,
                    legal as nat,
                    role,
                    *state,
                    depth as nat,
                    eval_fn,
                    agent_type_fn,
                    actions@,
                    agent,
                );
            }
            (None, utility)
        },
    }
}

/// `result` is the result of the expectimax search of `state` among the
/// candidates `universe`, with the action itself in place of its index:
/// nothing is recommended if the search does not look beyond `state`, and
/// else only if the agent to move is random; and whatever functions the two
/// callbacks compute, `result` is what `expectimax_outcome` says.
pub open spec fn is_expectimax_choice<S, U, E, K>(
    result: (Option<S::Action>, U),
    state: S,
    depth: nat,
    eval_fn: E,
    agent_type_fn: K,
    universe: Seq<S::Action>,
) -> bool where
    S: GameState,
    U: Ord + ChanceUtility,
    E: Fn(&S) -> U,
    K: Fn(&S::Agent) -> ExpectimaxAgentType,
 {
    &&& is_leaf(state, depth, universe) ==> result.0 is None
    &&& result.0 is None ==> is_leaf(state, depth, universe) || is_random_turn(
        state,
        depth,
        agent_type_fn,
    )
    &&& forall|eval: spec_fn(S) -> U, kind: spec_fn(S::Agent) -> ExpectimaxAgentType|
        #![trigger computes(eval_fn, eval), computes(agent_type_fn, kind)]
        computes(eval_fn, eval) && computes(agent_type_fn, kind) ==> {
            let full = expectimax_outcome(state, depth, eval, kind, universe);
            &&& result.1 == full.1
            &&& result.0 == match full.0 {
                Some(index) => Some(universe[index]),
                None => None,
            }
        }
}

/// A function which performs expectimax for the given game state, to the given depth, and returns
/// the action which the current agent should take.
///
/// `eval_fn` is the evaluation function used to evaluate different states. It should return a type
/// which has a total ordering, so that maximizing agents can pick the best and minimizing agents
/// can pick the worst.
///
/// `agent_type_fn` should take an agent and return whether it is a Maximizer, Minimizer, or
/// Randomizer.
///
/// The candidate actions are the values of `Action`, in the order in which
/// `enum_iterator` lists them; the result is that of `expectimax_over` on
/// them. `depth` bounds the search: a position that is reached with no plies
/// left is scored by `eval_fn` as it stands.
pub fn expectimax<State, Action, Agent, Utility, EvaluationFunction, AgentKindFunction>(
    state: &State,
    depth: usize,
    eval_fn: EvaluationFunction,
    agent_type_fn: AgentKindFunction,
) -> (result: (Option<Action>, Utility)) where
    State: GameState<Action = Action, Agent = Agent>,
    Action: enum_iterator::IntoEnumIterator,
    EvaluationFunction: Fn(&State) -> Utility + Copy,
    AgentKindFunction: Fn(&Agent) -> ExpectimaxAgentType + Copy,
    Utility: Ord + Copy + ChanceUtility,

    requires
        is_total_order::<Utility>(),
        always_callable(eval_fn),
        depth > 0 && state.spec_next_agent() is Some ==> always_callable(agent_type_fn),
    ensures
        exists|universe: Seq<Action>| #[trigger]
            is_expectimax_choice(result, *state, depth as nat, eval_fn, agent_type_fn, universe),
        result.0 matches Some(action) ==> depth > 0 && state.spec_successor(&action) is Some,
        depth == 0 || state.spec_next_agent() is None || has_no_legal_action(*state)
            ==> result.0 is None && (eval_fn.ensures((state,), result.1) || (is_random_turn(
            *state,
            depth as nat,
            agent_type_fn,
        ) && result.1 == Utility::spec_zero())),
{
    let mut actions = all_actions::<Action>();
    let ghost universe = actions@;
    let (index, utility) = expectimax_over(state, depth, eval_fn, agent_type_fn, &actions);
    let action = match index {
        Some(index) => Some(actions.remove(index)),
        None => None,
    };
    assert(is_expectimax_choice(
        (action, utility),
        *state,
        depth as nat,
        eval_fn,
        agent_type_fn,
        universe,
    ));
    (action, utility)
}

/// Searching twice gives the same result twice: if the two callbacks are
/// pure, so that each computes a function, then any two results that
/// `expectimax_over` may return on the same arguments are the same.
pub proof fn lemma_expectimax_is_repeatable<S, U, E, K>(
    state: S,
    depth: nat,
    eval_fn: E,
    agent_type_fn: K,
    universe: Seq<S::Action>,
    first: (Option<usize>, U),
    second: (Option<usize>, U),
) where
    S: GameState,
    U: Ord + ChanceUtility,
    E: Fn(&S) -> U,
    K: Fn(&S::Agent) -> ExpectimaxAgentType,

    requires
        exists|eval: spec_fn(S) -> U, kind: spec_fn(S::Agent) -> ExpectimaxAgentType|
            #![trigger computes(eval_fn, eval), computes(agent_type_fn, kind)]
            computes(eval_fn, eval) && computes(agent_type_fn, kind),
        is_expectimax(first, state, depth, eval_fn, agent_type_fn, universe),
        is_expectimax(second, state, depth, eval_fn, agent_type_fn, universe),
    ensures
        first == second,
{
    assert(as_outcome(first) == as_outcome(second));
}

} // verus!
