//! Depth-bounded minimax with alpha-beta pruning.

use crate::algorithms::candidates::{
    ends_within, has_no_legal_action, is_leaf, legal_count, lemma_no_legal_count, none_legal,
    recommends_legal,
};
use crate::algorithms::choice::{
    as_outcome, decision, first_best, lemma_first_best_is_first_optimum,
};
use crate::algorithms::pruning::{
    is_scanned, is_windowed_search, lemma_cutoff, lemma_scan_complete, lemma_scanned_illegal,
    lemma_scanned_legal, window_ok,
};
use crate::callbacks::{always_callable, computes};
use crate::enumeration::all_actions;
use crate::order::{
    is_total_order, lemma_below_irreflexive, lemma_operators_compute_below, prefers,
};
use crate::traits::GameState;
use vstd::prelude::*;

verus! {

/// What an exhaustive minimax search of `state` to `depth` plies returns: the
/// index, among the candidate actions `universe`, of the action to take, and
/// the utility that it secures.
///
/// A position that is finished, or that is reached with no plies left, is
/// worth what `eval` says and recommends nothing. Otherwise the agent to
/// move, a maximizer if `is_max` says so and a minimizer if not, chooses
/// among the legal candidates: the first whose successor's utility no other
/// beats. A position without a legal candidate is worth what `eval` says.
pub open spec fn minimax_outcome<S: GameState, U: Ord>(
    state: S,
    depth: nat,
    eval: spec_fn(S) -> U,
    is_max: spec_fn(S::Agent) -> bool,
    universe: Seq<S::Action>,
) -> (Option<int>, U)
    decreases depth, universe.len() + 1,
{
    if depth == 0 || state.spec_next_agent() is None {
        (None, eval(state))
    } else {
        decision(
            is_max(state.spec_next_agent().unwrap()),
            minimax_replies(state, depth, eval, is_max, universe, universe.len()),
            eval(state),
        )
    }
}

/// The legal ones among the first `count` candidates, in their order: each
/// with its index and with the utility that an exhaustive search, one ply
/// shorter, finds for the position it leads to.
pub open spec fn minimax_replies<S: GameState, U: Ord>(
    state: S,
    depth: nat,
    eval: spec_fn(S) -> U,
    is_max: spec_fn(S::Agent) -> bool,
    universe: Seq<S::Action>,
    count: nat,
) -> Seq<(int, U)>
    decreases depth, count,
{
    if depth == 0 || count == 0 {
        Seq::empty()
    } else {
        let earlier = minimax_replies(state, depth, eval, is_max, universe, (count - 1) as nat);
        match state.spec_successor(&universe[count - 1]) {
            Some(next) => earlier.push(
                (count - 1, minimax_outcome(next, (depth - 1) as nat, eval, is_max, universe).1),
            ),
            None => earlier,
        }
    }
}

/// There are as many replies as legal candidates.
pub proof fn lemma_one_minimax_reply_for_each_legal<S: GameState, U: Ord>(
    state: S,
    depth: nat,
    eval: spec_fn(S) -> U,
    is_max: spec_fn(S::Agent) -> bool,
    universe: Seq<S::Action>,
    count: nat,
)
    requires
        depth > 0,
    ensures
        minimax_replies(state, depth, eval, is_max, universe, count).len() == legal_count(
            state,
            universe,
            count,
        ),
    decreases count,
{
    if count > 0 {
        lemma_one_minimax_reply_for_each_legal(
            state,
            depth,
            eval,
            is_max,
            universe,
            (count - 1) as nat,
        );
    }
}

/// A position that the search does not look beyond is worth what `eval`
/// says, and nothing is recommended in it: so it is for a finished position,
/// for one reached with no plies left, and for one in which no candidate is
/// legal. In every other position an action is recommended.
pub proof fn lemma_minimax_of_leaf<S: GameState, U: Ord>(
    state: S,
    depth: nat,
    eval: spec_fn(S) -> U,
    is_max: spec_fn(S::Agent) -> bool,
    universe: Seq<S::Action>,
)
    ensures
        is_leaf(state, depth, universe) ==> minimax_outcome(state, depth, eval, is_max, universe)
            == (None::<int>, eval(state)),
        !is_leaf(state, depth, universe) ==> minimax_outcome(
            state,
            depth,
            eval,
            is_max,
            universe,
        ).0 is Some,
{
    if depth > 0 {
        lemma_one_minimax_reply_for_each_legal(state, depth, eval, is_max, universe, universe.len());
        lemma_no_legal_count(state, universe, universe.len());
    }
}

/// The utility that the search finds for the position that the candidate at
/// `index` leads to, with one ply less to go.
pub open spec fn reply_utility<S: GameState, U: Ord>(
    state: S,
    depth: nat,
    eval: spec_fn(S) -> U,
    is_max: spec_fn(S::Agent) -> bool,
    universe: Seq<S::Action>,
    index: int,
) -> U
    recommends
        depth > 0,
        0 <= index < universe.len(),
        state.spec_successor(&universe[index]) is Some,
{
    minimax_outcome(
        state.spec_successor(&universe[index]).unwrap(),
        (depth - 1) as nat,
        eval,
        is_max,
        universe,
    ).1
}

/// The replies are the legal candidates in their order: every reply carries
/// the index of a legal candidate and the utility it leads to, and the
/// indices grow along the replies.
proof fn lemma_replies_in_order<S: GameState, U: Ord>(
    state: S,
    depth: nat,
    eval: spec_fn(S) -> U,
    is_max: spec_fn(S::Agent) -> bool,
    universe: Seq<S::Action>,
    count: nat,
)
    requires
        depth > 0,
    ensures
        forall|at: int|
            #![trigger minimax_replies(state, depth, eval, is_max, universe, count)[at]]
            0 <= at < minimax_replies(state, depth, eval, is_max, universe, count).len() ==> {
                let reply = minimax_replies(state, depth, eval, is_max, universe, count)[at];
                &&& 0 <= reply.0 < count
                &&& state.spec_successor(&universe[reply.0]) is Some
                &&& reply.1 == reply_utility(state, depth, eval, is_max, universe, reply.0)
            },
        forall|at: int, later: int|
            #![trigger minimax_replies(state, depth, eval, is_max, universe, count)[at],
                minimax_replies(state, depth, eval, is_max, universe, count)[later]]
            0 <= at < later < minimax_replies(state, depth, eval, is_max, universe, count).len()
                ==> minimax_replies(state, depth, eval, is_max, universe, count)[at].0
                < minimax_replies(state, depth, eval, is_max, universe, count)[later].0,
    decreases count,
{
    if count > 0 {
        lemma_replies_in_order(state, depth, eval, is_max, universe, (count - 1) as nat);
        let earlier = minimax_replies(state, depth, eval, is_max, universe, (count - 1) as nat);
        let replies = minimax_replies(state, depth, eval, is_max, universe, count);
        assert forall|at: int| 0 <= at < replies.len() implies {
            let reply = #[trigger] replies[at];
            &&& 0 <= reply.0 < count
            &&& state.spec_successor(&universe[reply.0]) is Some
            &&& reply.1 == reply_utility(state, depth, eval, is_max, universe, reply.0)
        } by {
            if at < earlier.len() {
                assert(replies[at] == earlier[at]);
            }
        }
        assert forall|at: int, later: int| 0 <= at < later < replies.len() implies (
        #[trigger] replies[at]).0 < (#[trigger] replies[later]).0 by {
            assert(replies[at] == earlier[at]);
            if later < earlier.len() {
                assert(replies[later] == earlier[later]);
            }
        }
    }
}

/// Every legal candidate has its reply.
proof fn lemma_reply_is_recorded<S: GameState, U: Ord>(
    state: S,
    depth: nat,
    eval: spec_fn(S) -> U,
    is_max: spec_fn(S::Agent) -> bool,
    universe: Seq<S::Action>,
    count: nat,
    index: int,
)
    requires
        depth > 0,
        0 <= index < count,
        state.spec_successor(&universe[index]) is Some,
    ensures
        exists|at: int|
            #![trigger minimax_replies(state, depth, eval, is_max, universe, count)[at]]
            0 <= at < minimax_replies(state, depth, eval, is_max, universe, count).len()
                && minimax_replies(state, depth, eval, is_max, universe, count)[at] == (
                index,
                reply_utility(state, depth, eval, is_max, universe, index),
            ),
    decreases count,
{
    let replies = minimax_replies(state, depth, eval, is_max, universe, count);
    let earlier = minimax_replies(state, depth, eval, is_max, universe, (count - 1) as nat);
    let reply = (index, reply_utility(state, depth, eval, is_max, universe, index));
    if index == count - 1 {
        assert(replies[replies.len() - 1] == reply);
    } else {
        lemma_reply_is_recorded(state, depth, eval, is_max, universe, (count - 1) as nat, index);
        let at = choose|at: int| 0 <= at < earlier.len() && #[trigger] earlier[at] == reply;
        assert(replies[at] == reply);
    }
}

/// Where the search looks beyond `state`, it recommends the first optimum:
/// a legal candidate, whose utility is the utility of `state`; no legal
/// candidate is strictly better for the agent to move, and every legal
/// candidate before the recommended one is strictly worse.
pub proof fn lemma_minimax_takes_first_optimum<S: GameState, U: Ord>(
    state: S,
    depth: nat,
    eval: spec_fn(S) -> U,
    is_max: spec_fn(S::Agent) -> bool,
    universe: Seq<S::Action>,
)
    requires
        is_total_order::<U>(),
        !is_leaf(state, depth, universe),
    ensures
        ({
            let maximizing = is_max(state.spec_next_agent().unwrap());
            let outcome = minimax_outcome(state, depth, eval, is_max, universe);
            &&& outcome.0 is Some
            &&& 0 <= outcome.0.unwrap() < universe.len()
            &&& state.spec_successor(&universe[outcome.0.unwrap()]) is Some
            &&& outcome.1 == reply_utility(
                state,
                depth,
                eval,
                is_max,
                universe,
                outcome.0.unwrap(),
            )
            &&& forall|k: int|
                0 <= k < universe.len() && (#[trigger] state.spec_successor(&universe[k]))
                    is Some ==> !prefers(
                    maximizing,
                    reply_utility(state, depth, eval, is_max, universe, k),
                    outcome.1,
                )
            &&& forall|k: int|
                0 <= k < outcome.0.unwrap() && (#[trigger] state.spec_successor(&universe[k]))
                    is Some ==> prefers(
                    maximizing,
                    outcome.1,
                    reply_utility(state, depth, eval, is_max, universe, k),
                )
        }),
{
    let maximizing = is_max(state.spec_next_agent().unwrap());
    let outcome = minimax_outcome(state, depth, eval, is_max, universe);
    let replies = minimax_replies(state, depth, eval, is_max, universe, universe.len());
    lemma_minimax_of_leaf(state, depth, eval, is_max, universe);
    lemma_one_minimax_reply_for_each_legal(state, depth, eval, is_max, universe, universe.len());
    lemma_no_legal_count(state, universe, universe.len());
    lemma_first_best_is_first_optimum(maximizing, replies);
    lemma_replies_in_order(state, depth, eval, is_max, universe, universe.len());
    let at = choose|at: int|
        {
            &&& 0 <= at < replies.len()
            &&& #[trigger] replies[at] == first_best(maximizing, replies).unwrap()
            &&& forall|k: int|
                0 <= k < replies.len() ==> !prefers(
                    maximizing,
                    (#[trigger] replies[k]).1,
                    replies[at].1,
                )
            &&& forall|k: int|
                0 <= k < at ==> prefers(maximizing, replies[at].1, (#[trigger] replies[k]).1)
        };
    assert(replies[at] == (outcome.0.unwrap(), outcome.1));
    assert forall|k: int|
        0 <= k < universe.len() && (#[trigger] state.spec_successor(&universe[k])) is Some implies {
        let utility = reply_utility(state, depth, eval, is_max, universe, k);
        &&& !prefers(maximizing, utility, outcome.1)
        &&& k < outcome.0.unwrap() ==> prefers(maximizing, outcome.1, utility)
    } by {
        lemma_reply_is_recorded(state, depth, eval, is_max, universe, universe.len(), k);
        let utility = reply_utility(state, depth, eval, is_max, universe, k);
        let seat = choose|seat: int|
            0 <= seat < replies.len() && #[trigger] replies[seat] == (k, utility);
        assert(!prefers(maximizing, replies[seat].1, replies[at].1));
        if k < outcome.0.unwrap() {
            // The replies are in the order of their indices.
            assert(seat < at) by {
                if seat > at {
                    assert(replies[at].0 < replies[seat].0);
                }
            }
            assert(prefers(maximizing, replies[at].1, replies[seat].1));
        }
    }
}

/// Once every path from `state` ends within `depth` plies, searching deeper
/// changes nothing: the game is searched to its end, and the search returns
/// what a search without a bound on its depth would.
pub proof fn lemma_minimax_to_the_end<S: GameState, U: Ord>(
    state: S,
    depth: nat,
    deeper: nat,
    eval: spec_fn(S) -> U,
    is_max: spec_fn(S::Agent) -> bool,
    universe: Seq<S::Action>,
)
    requires
        ends_within(state, depth, universe),
        depth <= deeper,
    ensures
        minimax_outcome(state, deeper, eval, is_max, universe) == minimax_outcome(
            state,
            depth,
            eval,
            is_max,
            universe,
        ),
    decreases depth,
{
    if state.spec_next_agent() is Some {
        lemma_minimax_replies_to_the_end(
            state,
            depth,
            deeper,
            eval,
            is_max,
            universe,
            universe.len(),
        );
    }
}

/// The replies of a search to the end of the game are those of any deeper
/// search.
proof fn lemma_minimax_replies_to_the_end<S: GameState, U: Ord>(
    state: S,
    depth: nat,
    deeper: nat,
    eval: spec_fn(S) -> U,
    is_max: spec_fn(S::Agent) -> bool,
    universe: Seq<S::Action>,
    count: nat,
)
    requires
        state.spec_next_agent() is Some,
        ends_within(state, depth, universe),
        depth <= deeper,
        count <= universe.len(),
    ensures
        minimax_replies(state, deeper, eval, is_max, universe, count) == minimax_replies(
            state,
            depth,
            eval,
            is_max,
            universe,
            count,
        ),
    decreases depth, count,
{
    if count > 0 {
        lemma_minimax_replies_to_the_end(
            state,
            depth,
            deeper,
            eval,
            is_max,
            universe,
            (count - 1) as nat,
        );
        match state.spec_successor(&universe[count - 1]) {
            Some(next) => {
                lemma_minimax_to_the_end(
                    next,
                    (depth - 1) as nat,
                    (deeper - 1) as nat,
                    eval,
                    is_max,
                    universe,
                );
            },
            None => {},
        }
    }
}

/// Does minimax with alpha-beta pruning among the candidate actions
/// `actions`, within the window from `alpha` to `beta`; an absent bound is no
/// bound.
///
/// A maximizer that finds a new best above `beta`, or a minimizer that finds
/// one below `alpha`, returns it at once: the agent that moved before will
/// not let the game come here. Otherwise a new best beyond the mover's own
/// bound becomes that bound for the candidates still to come. The result is
/// that of the exhaustive search wherever it lies within the window, and a
/// bound on it elsewhere.
fn minimax_helper<State, Action, Agent, Utility, EvaluationFunction, IsMaximizer>(
    state: &State,
    depth: usize,
    eval_fn: EvaluationFunction,
    is_maximizer: IsMaximizer,
    actions: &Vec<Action>,
    alpha: Option<Utility>,
    beta: Option<Utility>,
) -> (found: (Option<usize>, Utility)) where
    State: GameState<Action = Action, Agent = Agent>,
    EvaluationFunction: Fn(&State) -> Utility + Copy,
    IsMaximizer: Fn(&Agent) -> bool + Copy,
    Utility: Ord + Copy,

    requires
        is_total_order::<Utility>(),
        always_callable(eval_fn),
        depth > 0 && state.spec_next_agent() is Some ==> always_callable(is_maximizer),
        window_ok(alpha, beta),
    ensures
        is_windowed_search(found, *state, depth as nat, eval_fn, is_maximizer, actions@, alpha, beta),
        recommends_legal(found.0, *state, actions@),
        found.0 is None <==> is_leaf(*state, depth as nat, actions@),
        found.0 is None ==> eval_fn.ensures((state,), found.1),
    decreases depth,
{
    if depth == 0 || state.is_finished() {
        let utility = eval_fn(state);
        proof {
            lemma_below_irreflexive(utility);
        }
        return (None, utility);
    }
    let agent = state.next_agent().unwrap();
    let maximizing = is_maximizer(&agent);
    let mut lower = alpha;
    let mut upper = beta;
    let mut best: Option<(usize, Utility)> = None;
    let mut i: usize = 0;
    while i < actions.len()
        invariant
            i <= actions.len(),
            depth > 0,
            is_total_order::<Utility>(),
            always_callable(eval_fn),
            always_callable(is_maximizer),
            window_ok(alpha, beta),
            window_ok(lower, upper),
            state.spec_next_agent() == Some(agent),
            is_maximizer.ensures((&agent,), maximizing),
            best is None <==> none_legal(*state, actions@, i as nat),
            best matches Some((index, _)) ==> index < i && state.spec_successor(
                &actions@[index as int],
            ) is Some,
            is_scanned(
                *state,
                depth as nat,
                eval_fn,
                is_maximizer,
                actions@,
                maximizing,
                alpha,
                beta,
                lower,
                upper,
                best,
                i as nat,
            ),
        decreases actions.len() - i,
    {
        let ghost lower1 = lower;
        let ghost upper1 = upper;
        let ghost best1 = best;
        match state.successor(&actions[i]) {
            Some(successor_state) => {
                let reply = minimax_helper(
                    &successor_state,
                    depth - 1,
                    eval_fn,
                    is_maximizer,
                    actions,
                    lower,
                    upper,
                );
                let utility = reply.1;
                proof {
                    lemma_operators_compute_below::<Utility>();
                }
                if maximizing {
                    if match best {
                        Some((_, best_utility)) => utility > best_utility,
                        None => true,
                    } {
                        best = Some((i, utility));
                        if match upper {
                            Some(bound) => utility > bound,
                            None => false,
                        } {
                            proof {
                                lemma_cutoff(
                                    *state,
                                    depth as nat,
                                    eval_fn,
                                    is_maximizer,
                                    actions@,
                                    agent,
                                    maximizing,
                                    alpha,
                                    beta,
                                    lower1,
                                    upper1,
                                    best1,
                                    i,
                                    reply,
                                );
                            }
                            return (Some(i), utility);
                        }
                        if match lower {
                            Some(bound) => bound < utility,
                            None => true,
                        } {
                            lower = Some(utility);
                        }
                    }
                } else {
                    if match best {
                        Some((_, best_utility)) => utility < best_utility,
                        None => true,
                    } {
                        best = Some((i, utility));
                        if match lower {
                            Some(bound) => utility < bound,
                            None => false,
                        } {
                            proof {
                                lemma_cutoff(
                                    *state,
                                    depth as nat,
                                    eval_fn,
                                    is_maximizer,
                                    actions@,
                                    agent,
                                    maximizing,
                                    alpha,
                                    beta,
                                    lower1,
                                    upper1,
                                    best1,
                                    i,
                                    reply,
                                );
                            }
                            return (Some(i), utility);
                        }
                        if match upper {
                            Some(bound) => bound > utility,
                            None => true,
                        } {
                            upper = Some(utility);
                        }
                    }
                }
                proof {
                    lemma_scanned_legal(
                        *state,
                        depth as nat,
                        eval_fn,
                        is_maximizer,
                        actions@,
                        maximizing,
                        alpha,
                        beta,
                        lower1,
                        upper1,
                        best1,
                        i,
                        reply,
                    );
                }
            },
            None => {
                proof {
                    lemma_scanned_illegal(
                        *state,
                        depth as nat,
                        eval_fn,
                        is_maximizer,
                        actions@,
                        maximizing,
                        alpha,
                        beta,
                        lower,
                        upper,
                        best,
                        i,
                    );
                }
            },
        }
        i += 1;
    }
    let found = match best {
        Some((index, utility)) => (Some(index), utility),
        None => (None, eval_fn(state)),
    };
    proof {
        lemma_scan_complete(
            *state,
            depth as nat,
            eval_fn,
            is_maximizer,
            actions@,
            agent,
            maximizing,
            alpha,
            beta,
            lower,
            upper,
            best,
            found,
        );
    }
    found
}

/// `found` is the result of the exhaustive minimax search of `state`,
/// whatever functions the two callbacks compute.
pub open spec fn is_minimax<S, U, E, R>(
    found: (Option<usize>, U),
    state: S,
    depth: nat,
    eval_fn: E,
    is_maximizer: R,
    universe: Seq<S::Action>,
) -> bool where
    S: GameState,
    U: Ord,
    E: Fn(&S) -> U,
    R: Fn(&S::Agent) -> bool,
 {
    forall|eval: spec_fn(S) -> U, is_max: spec_fn(S::Agent) -> bool|
        #![trigger computes(eval_fn, eval), computes(is_maximizer, is_max)]
        computes(eval_fn, eval) && computes(is_maximizer, is_max) ==> as_outcome(found)
            == minimax_outcome(state, depth, eval, is_max, universe)
}

/// Performs a minimax search of `state`, `depth` plies deep, in which the
/// agents choose among the candidate actions `actions`, tried in their order.
/// Returns the index in `actions` of the action that the agent to move should
/// take, and the utility that it secures.
///
/// The search prunes with alpha and beta bounds, and returns what the
/// exhaustive search `minimax_outcome` returns: the same utility and the same
/// action. A position with no plies left is scored by `eval_fn` as it stands,
/// as a finished one is.
pub fn minimax_over<State, Action, Agent, Utility, EvaluationFunction, IsMaximizer>(
    state: &State,
    depth: usize,
    eval_fn: EvaluationFunction,
    is_maximizer: IsMaximizer,
    actions: &Vec<Action>,
) -> (found: (Option<usize>, Utility)) where
    State: GameState<Action = Action, Agent = Agent>,
    EvaluationFunction: Fn(&State) -> Utility + Copy,
    IsMaximizer: Fn(&Agent) -> bool + Copy,
    Utility: Ord + Copy,

    requires
        is_total_order::<Utility>(),
        always_callable(eval_fn),
        depth > 0 && state.spec_next_agent() is Some ==> always_callable(is_maximizer),
    ensures
        is_minimax(found, *state, depth as nat, eval_fn, is_maximizer, actions@),
        recommends_legal(found.0, *state, actions@),
        found.0 is None <==> is_leaf(*state, depth as nat, actions@),
        found.0 is None ==> eval_fn.ensures((state,), found.1),
{
    minimax_helper(state, depth, eval_fn, is_maximizer, actions, None, None)
}

/// `result` is the result of the minimax search of `state` among the
/// candidates `universe`, with the action itself in place of its index:
/// nothing is recommended exactly if the search does not look beyond `state`,
/// and whatever functions the two callbacks compute, `result` is what
/// `minimax_outcome` says.
pub open spec fn is_minimax_choice<S, U, E, R>(
    result: (Option<S::Action>, U),
    state: S,
    depth: nat,
    eval_fn: E,
    is_maximizer: R,
    universe: Seq<S::Action>,
) -> bool where
    S: GameState,
    U: Ord,
    E: Fn(&S) -> U,
    R: Fn(&S::Agent) -> bool,
 {
    &&& result.0 is None <==> is_leaf(state, depth, universe)
    &&& forall|eval: spec_fn(S) -> U, is_max: spec_fn(S::Agent) -> bool|
        #![trigger computes(eval_fn, eval), computes(is_maximizer, is_max)]
        computes(eval_fn, eval) && computes(is_maximizer, is_max) ==> {
            let full = minimax_outcome(state, depth, eval, is_max, universe);
            &&& result.1 == full.1
            &&& result.0 == match full.0 {
                Some(index) => Some(universe[index]),
                None => None,
            }
        }
}

/// A function which performs a minimax for the given game state, to the given depth, and returns
/// the action which the current agent should take. This function uses alpha-beta pruning.
///
/// `eval_fn` is the evaluation function used to evaluate different states. It should return a type
/// which has a total ordering, so that maximizing agents can pick the best and minimizing agents
/// can pick the worst.
///
/// `is_maximizer` should be a function which returns true if the given agent maximizes, and false if
/// it minimizes.
///
/// The candidate actions are the values of `Action`, in the order in which
/// `enum_iterator` lists them; the result is that of `minimax_over` on them.
/// `depth` bounds the search: a position that is reached with no plies left
/// is scored by `eval_fn` as it stands.
pub fn minimax<State, Action, Agent, Utility, EvaluationFunction, IsMaximizer>(
    state: &State,
    depth: usize,
    eval_fn: EvaluationFunction,
    is_maximizer: IsMaximizer,
) -> (result: (Option<Action>, Utility)) where
    State: GameState<Action = Action, Agent = Agent>,
    Action: enum_iterator::IntoEnumIterator,
    EvaluationFunction: Fn(&State) -> Utility + Copy,
    IsMaximizer: Fn(&Agent) -> bool + Copy,
    Utility: Ord + Copy,

    requires
        is_total_order::<Utility>(),
        always_callable(eval_fn),
        depth > 0 && state.spec_next_agent() is Some ==> always_callable(is_maximizer),
    ensures
        exists|universe: Seq<Action>| #[trigger]
            is_minimax_choice(result, *state, depth as nat, eval_fn, is_maximizer, universe),
        result.0 matches Some(action) ==> depth > 0 && state.spec_successor(&action) is Some,
        depth == 0 || state.spec_next_agent() is None || has_no_legal_action(*state)
            ==> result.0 is None,
        result.0 is None ==> eval_fn.ensures((state,), result.1),
{
    let mut actions = all_actions::<Action>();
    let ghost universe = actions@;
    let (index, utility) = minimax_over(state, depth, eval_fn, is_maximizer, &actions);
    let action = match index {
        Some(index) => Some(actions.remove(index)),
        None => None,
    };
    assert(is_minimax_choice(
        (action, utility),
        *state,
        depth as nat,
        eval_fn,
        is_maximizer,
        universe,
    ));
    (action, utility)
}

/// Searching twice gives the same result twice: if the two callbacks are
/// pure, so that each computes a function, then any two results that
/// `minimax_over` may return on the same arguments are the same.
pub proof fn lemma_minimax_is_repeatable<S, U, E, R>(
    state: S,
    depth: nat,
    eval_fn: E,
    is_maximizer: R,
    universe: Seq<S::Action>,
    first: (Option<usize>, U),
    second: (Option<usize>, U),
) where
    S: GameState,
    U: Ord,
    E: Fn(&S) -> U,
    R: Fn(&S::Agent) -> bool,

    requires
        exists|eval: spec_fn(S) -> U, is_max: spec_fn(S::Agent) -> bool|
            #![trigger computes(eval_fn, eval), computes(is_maximizer, is_max)]
            computes(eval_fn, eval) && computes(is_maximizer, is_max),
        is_minimax(first, state, depth, eval_fn, is_maximizer, universe),
        is_minimax(second, state, depth, eval_fn, is_maximizer, universe),
    ensures
        first == second,
{
    assert(as_outcome(first) == as_outcome(second));
}

} // verus!
