//! Alpha-beta pruning: why a search that gives up on replies that cannot
//! matter returns what the exhaustive search returns.
//!
//! A search within a window from alpha to beta need not find the utility of a
//! position if that utility lies outside the window: it may stop with a bound
//! on it. `within_window` says what such a search returns, and the lemmas
//! here carry that statement through the scan of a position's candidates.

use crate::algorithms::candidates::is_leaf;
use crate::algorithms::choice::{as_outcome, as_reply, first_best, keep_better};
use crate::algorithms::minimax::{
    lemma_minimax_takes_first_optimum, minimax_outcome, minimax_replies,
};
use crate::callbacks::computes;
use crate::order::{below, is_total_order, lemma_strict_weak_order, prefers};
use crate::traits::GameState;
use vstd::prelude::*;

verus! {

/// `utility` lies strictly beyond `bound`, on the side that the mover
/// prefers. Nothing lies beyond an absent bound.
pub open spec fn past<U: Ord>(maximizing: bool, utility: U, bound: Option<U>) -> bool {
    match bound {
        Some(limit) => prefers(maximizing, utility, limit),
        None => false,
    }
}

/// The window from `alpha` to `beta` is not empty: `beta` is not below `alpha`.
pub open spec fn window_ok<U: Ord>(alpha: Option<U>, beta: Option<U>) -> bool {
    match (alpha, beta) {
        (Some(low), Some(high)) => !below(high, low),
        _ => true,
    }
}

/// How the utility `found` by a search within the window from `alpha` to
/// `beta` relates to the utility `truth` of the exhaustive search: inside the
/// window they are the same; a result above `beta` says that the truth is no
/// lower, a result below `alpha` that the truth is no higher.
pub open spec fn value_within_window<U: Ord>(
    found: U,
    truth: U,
    alpha: Option<U>,
    beta: Option<U>,
) -> bool {
    &&& past(true, found, beta) ==> !below(truth, found)
    &&& past(false, found, alpha) ==> !below(found, truth)
    &&& !past(true, found, beta) && !past(false, found, alpha) ==> found == truth
}

/// How the result `found` of a search within the window from `alpha` to
/// `beta` relates to the result `full` of the exhaustive search: the
/// utilities as `value_within_window` says, and inside the window the
/// recommended actions are the same too.
pub open spec fn within_window<U: Ord>(
    found: (Option<usize>, U),
    full: (Option<int>, U),
    alpha: Option<U>,
    beta: Option<U>,
) -> bool {
    &&& value_within_window(found.1, full.1, alpha, beta)
    &&& !past(true, found.1, beta) && !past(false, found.1, alpha) ==> as_outcome(found) == full
}

/// The mover's own bound after it has found a reply of utility `found`: the
/// better of the two. The maximizer's own bound is alpha, the minimizer's is
/// beta.
pub open spec fn near_after<U: Ord>(maximizing: bool, near: Option<U>, found: U) -> Option<U> {
    if near is None || prefers(maximizing, found, near.unwrap()) {
        Some(found)
    } else {
        near
    }
}

/// The mover's own bound once it holds `best`, having started from `near`.
pub open spec fn tightened<U: Ord>(
    maximizing: bool,
    near: Option<U>,
    best: Option<(usize, U)>,
) -> Option<U> {
    match best {
        Some((_, utility)) => near_after(maximizing, near, utility),
        None => near,
    }
}

/// What holds between the replies scanned so far with pruning and the same
/// replies searched exhaustively. The scan started with the window from
/// `alpha0` to `beta0`, has narrowed it to `alpha` and `beta`, and holds
/// `best`; `full` is what the mover chooses among the exhaustive replies.
///
/// Only the mover's own bound has moved, to the best it holds. That best does
/// not lie beyond the other bound, or the scan would have been cut off. The
/// exhaustive choice is no better than it; and unless it lies on the wrong
/// side of the bound that the mover started from, it is the exhaustive choice.
pub open spec fn scan_state<U: Ord>(
    maximizing: bool,
    alpha0: Option<U>,
    beta0: Option<U>,
    alpha: Option<U>,
    beta: Option<U>,
    best: Option<(usize, U)>,
    full: Option<(int, U)>,
) -> bool {
    let near0 = if maximizing { alpha0 } else { beta0 };
    let far0 = if maximizing { beta0 } else { alpha0 };
    let near = if maximizing { alpha } else { beta };
    let far = if maximizing { beta } else { alpha };
    &&& far == far0
    &&& near == tightened(maximizing, near0, best)
    &&& best is None <==> full is None
    &&& best is Some && full is Some ==> {
        let found = best.unwrap().1;
        let truth = full.unwrap().1;
        &&& !past(maximizing, found, far0)
        &&& !prefers(maximizing, truth, found)
        &&& !past(!maximizing, found, near0) ==> as_reply(best) == full
    }
}

/// One step of the scan: the candidate at `index` is legal, searching its
/// successor within the current window gave `found`, and searching it
/// exhaustively gives `truth`.
pub proof fn lemma_scan_step<U: Ord>(
    maximizing: bool,
    alpha0: Option<U>,
    beta0: Option<U>,
    alpha: Option<U>,
    beta: Option<U>,
    best: Option<(usize, U)>,
    full: Option<(int, U)>,
    index: usize,
    found: U,
    truth: U,
)
    requires
        is_total_order::<U>(),
        window_ok(alpha0, beta0),
        scan_state(maximizing, alpha0, beta0, alpha, beta, best, full),
        value_within_window(found, truth, alpha, beta),
    ensures
        ({
            let near = if maximizing { alpha } else { beta };
            let far = if maximizing { beta } else { alpha };
            let full_next = Some(keep_better(maximizing, full, (index as int, truth)));
            if best is None || prefers(maximizing, found, best.unwrap().1) {
                if past(maximizing, found, far) {
                    !prefers(maximizing, found, truth)
                } else {
                    let near_next = near_after(maximizing, near, found);
                    scan_state(
                        maximizing,
                        alpha0,
                        beta0,
                        if maximizing { near_next } else { alpha },
                        if maximizing { beta } else { near_next },
                        Some((index, found)),
                        full_next,
                    )
                }
            } else {
                scan_state(maximizing, alpha0, beta0, alpha, beta, best, full_next)
            }
        }),
{
    lemma_strict_weak_order::<U>();
}

/// `found` is what a search of `state` within the window from `alpha` to
/// `beta` may return, whatever functions the two callbacks compute.
pub open spec fn is_windowed_search<S, U, E, R>(
    found: (Option<usize>, U),
    state: S,
    depth: nat,
    eval_fn: E,
    is_maximizer: R,
    universe: Seq<S::Action>,
    alpha: Option<U>,
    beta: Option<U>,
) -> bool where
    S: GameState,
    U: Ord,
    E: Fn(&S) -> U,
    R: Fn(&S::Agent) -> bool,
 {
    forall|eval: spec_fn(S) -> U, is_max: spec_fn(S::Agent) -> bool|
        #![trigger computes(eval_fn, eval), computes(is_maximizer, is_max)]
        computes(eval_fn, eval) && computes(is_maximizer, is_max) ==> within_window(
            found,
            minimax_outcome(state, depth, eval, is_max, universe),
            alpha,
            beta,
        )
}

/// The pruned scan and the exhaustive one have looked at the first `scanned`
/// candidates of `universe`; `scan_state` holds between them, whatever
/// functions the two callbacks compute.
pub open spec fn is_scanned<S, U, E, R>(
    state: S,
    depth: nat,
    eval_fn: E,
    is_maximizer: R,
    universe: Seq<S::Action>,
    maximizing: bool,
    alpha0: Option<U>,
    beta0: Option<U>,
    alpha: Option<U>,
    beta: Option<U>,
    best: Option<(usize, U)>,
    scanned: nat,
) -> bool where
    S: GameState,
    U: Ord,
    E: Fn(&S) -> U,
    R: Fn(&S::Agent) -> bool,
 {
    forall|eval: spec_fn(S) -> U, is_max: spec_fn(S::Agent) -> bool|
        #![trigger computes(eval_fn, eval), computes(is_maximizer, is_max)]
        computes(eval_fn, eval) && computes(is_maximizer, is_max) ==> scan_state(
            maximizing,
            alpha0,
            beta0,
            alpha,
            beta,
            best,
            first_best(
                maximizing,
                minimax_replies(state, depth, eval, is_max, universe, scanned),
            ),
        )
}

/// Scanning past an illegal candidate changes nothing.
pub proof fn lemma_scanned_illegal<S, U, E, R>(
    state: S,
    depth: nat,
    eval_fn: E,
    is_maximizer: R,
    universe: Seq<S::Action>,
    maximizing: bool,
    alpha0: Option<U>,
    beta0: Option<U>,
    alpha: Option<U>,
    beta: Option<U>,
    best: Option<(usize, U)>,
    index: usize,
) where
    S: GameState,
    U: Ord,
    E: Fn(&S) -> U,
    R: Fn(&S::Agent) -> bool,

    requires
        depth > 0,
        index < universe.len(),
        state.spec_successor(&universe[index as int]) is None,
        is_scanned(
            state,
            depth,
            eval_fn,
            is_maximizer,
            universe,
            maximizing,
            alpha0,
            beta0,
            alpha,
            beta,
            best,
            index as nat,
        ),
    ensures
        is_scanned(
            state,
            depth,
            eval_fn,
            is_maximizer,
            universe,
            maximizing,
            alpha0,
            beta0,
            alpha,
            beta,
            best,
            (index + 1) as nat,
        ),
{
    assert forall|eval: spec_fn(S) -> U, is_max: spec_fn(S::Agent) -> bool|
        #![trigger computes(eval_fn, eval), computes(is_maximizer, is_max)]
        computes(eval_fn, eval) && computes(is_maximizer, is_max) implies scan_state(
        maximizing,
        alpha0,
        beta0,
        alpha,
        beta,
        best,
        first_best(
            maximizing,
            minimax_replies(state, depth, eval, is_max, universe, (index + 1) as nat),
        ),
    ) by {
        assert(minimax_replies(state, depth, eval, is_max, universe, (index + 1) as nat)
            == minimax_replies(state, depth, eval, is_max, universe, index as nat));
    }
}

/// Scanning a legal candidate, whose successor the pruned search valued at
/// `found`: unless the scan is cut off there, `scan_state` holds again.
pub proof fn lemma_scanned_legal<S, U, E, R>(
    state: S,
    depth: nat,
    eval_fn: E,
    is_maximizer: R,
    universe: Seq<S::Action>,
    maximizing: bool,
    alpha0: Option<U>,
    beta0: Option<U>,
    alpha: Option<U>,
    beta: Option<U>,
    best: Option<(usize, U)>,
    index: usize,
    found: (Option<usize>, U),
) where
    S: GameState,
    U: Ord,
    E: Fn(&S) -> U,
    R: Fn(&S::Agent) -> bool,

    requires
        is_total_order::<U>(),
        window_ok(alpha0, beta0),
        depth > 0,
        index < universe.len(),
        state.spec_successor(&universe[index as int]) is Some,
        is_scanned(
            state,
            depth,
            eval_fn,
            is_maximizer,
            universe,
            maximizing,
            alpha0,
            beta0,
            alpha,
            beta,
            best,
            index as nat,
        ),
        is_windowed_search(
            found,
            state.spec_successor(&universe[index as int]).unwrap(),
            (depth - 1) as nat,
            eval_fn,
            is_maximizer,
            universe,
            alpha,
            beta,
        ),
    ensures
        ({
            let near = if maximizing { alpha } else { beta };
            let far = if maximizing { beta } else { alpha };
            let near_next = near_after(maximizing, near, found.1);
            if best is None || prefers(maximizing, found.1, best.unwrap().1) {
                !past(maximizing, found.1, far) ==> is_scanned(
                    state,
                    depth,
                    eval_fn,
                    is_maximizer,
                    universe,
                    maximizing,
                    alpha0,
                    beta0,
                    if maximizing { near_next } else { alpha },
                    if maximizing { beta } else { near_next },
                    Some((index, found.1)),
                    (index + 1) as nat,
                )
            } else {
                is_scanned(
                    state,
                    depth,
                    eval_fn,
                    is_maximizer,
                    universe,
                    maximizing,
                    alpha0,
                    beta0,
                    alpha,
                    beta,
                    best,
                    (index + 1) as nat,
                )
            }
        }),
{
    let near = if maximizing { alpha } else { beta };
    let far = if maximizing { beta } else { alpha };
    let near_next = near_after(maximizing, near, found.1);
    let next = state.spec_successor(&universe[index as int]).unwrap();
    let improves = best is None || prefers(maximizing, found.1, best.unwrap().1);
    let alpha_next = if improves && maximizing { near_next } else { alpha };
    let beta_next = if improves && !maximizing { near_next } else { beta };
    let best_next = if improves { Some((index, found.1)) } else { best };
    if !(improves && past(maximizing, found.1, far)) {
        assert forall|eval: spec_fn(S) -> U, is_max: spec_fn(S::Agent) -> bool|
            #![trigger computes(eval_fn, eval), computes(is_maximizer, is_max)]
            computes(eval_fn, eval) && computes(is_maximizer, is_max) implies scan_state(
            maximizing,
            alpha0,
            beta0,
            alpha_next,
            beta_next,
            best_next,
            first_best(
                maximizing,
                minimax_replies(state, depth, eval, is_max, universe, (index + 1) as nat),
            ),
        ) by {
            let replies = minimax_replies(state, depth, eval, is_max, universe, index as nat);
            let truth = minimax_outcome(next, (depth - 1) as nat, eval, is_max, universe).1;
            let grown = replies.push((index as int, truth));
            assert(minimax_replies(state, depth, eval, is_max, universe, (index + 1) as nat)
                == grown);
            assert(grown.drop_last() == replies);
            lemma_scan_step(
                maximizing,
                alpha0,
                beta0,
                alpha,
                beta,
                best,
                first_best(maximizing, replies),
                index,
                found.1,
                truth,
            );
        }
    }
}

/// A scan that is cut off at a legal candidate returns a result that lies
/// outside the window it started with, on the side of the exhaustive result.
pub proof fn lemma_cutoff<S, U, E, R>(
    state: S,
    depth: nat,
    eval_fn: E,
    is_maximizer: R,
    universe: Seq<S::Action>,
    agent: S::Agent,
    maximizing: bool,
    alpha0: Option<U>,
    beta0: Option<U>,
    alpha: Option<U>,
    beta: Option<U>,
    best: Option<(usize, U)>,
    index: usize,
    found: (Option<usize>, U),
) where
    S: GameState,
    U: Ord,
    E: Fn(&S) -> U,
    R: Fn(&S::Agent) -> bool,

    requires
        is_total_order::<U>(),
        window_ok(alpha0, beta0),
        depth > 0,
        index < universe.len(),
        state.spec_next_agent() == Some(agent),
        is_maximizer.ensures((&agent,), maximizing),
        state.spec_successor(&universe[index as int]) is Some,
        is_scanned(
            state,
            depth,
            eval_fn,
            is_maximizer,
            universe,
            maximizing,
            alpha0,
            beta0,
            alpha,
            beta,
            best,
            index as nat,
        ),
        is_windowed_search(
            found,
            state.spec_successor(&universe[index as int]).unwrap(),
            (depth - 1) as nat,
            eval_fn,
            is_maximizer,
            universe,
            alpha,
            beta,
        ),
        best is None || prefers(maximizing, found.1, best.unwrap().1),
        past(maximizing, found.1, if maximizing { beta } else { alpha }),
    ensures
        is_windowed_search(
            (Some(index), found.1),
            state,
            depth,
            eval_fn,
            is_maximizer,
            universe,
            alpha0,
            beta0,
        ),
{
    let next = state.spec_successor(&universe[index as int]).unwrap();
    assert forall|eval: spec_fn(S) -> U, is_max: spec_fn(S::Agent) -> bool|
        #![trigger computes(eval_fn, eval), computes(is_maximizer, is_max)]
        computes(eval_fn, eval) && computes(is_maximizer, is_max) implies within_window(
        (Some(index), found.1),
        minimax_outcome(state, depth, eval, is_max, universe),
        alpha0,
        beta0,
    ) by {
        let replies = minimax_replies(state, depth, eval, is_max, universe, index as nat);
        let truth = minimax_outcome(next, (depth - 1) as nat, eval, is_max, universe).1;
        assert(maximizing == is_max(agent));
        lemma_scan_step(
            maximizing,
            alpha0,
            beta0,
            alpha,
            beta,
            best,
            first_best(maximizing, replies),
            index,
            found.1,
            truth,
        );
        assert(!is_leaf(state, depth, universe));
        lemma_minimax_takes_first_optimum(state, depth, eval, is_max, universe);
        lemma_strict_weak_order::<U>();
    }
}

/// A scan that has looked at every candidate returns what `within_window`
/// says.
pub proof fn lemma_scan_complete<S, U, E, R>(
    state: S,
    depth: nat,
    eval_fn: E,
    is_maximizer: R,
    universe: Seq<S::Action>,
    agent: S::Agent,
    maximizing: bool,
    alpha0: Option<U>,
    beta0: Option<U>,
    alpha: Option<U>,
    beta: Option<U>,
    best: Option<(usize, U)>,
    found: (Option<usize>, U),
) where
    S: GameState,
    U: Ord,
    E: Fn(&S) -> U,
    R: Fn(&S::Agent) -> bool,

    requires
        is_total_order::<U>(),
        window_ok(alpha0, beta0),
        depth > 0,
        state.spec_next_agent() == Some(agent),
        is_maximizer.ensures((&agent,), maximizing),
        is_scanned(
            state,
            depth,
            eval_fn,
            is_maximizer,
            universe,
            maximizing,
            alpha0,
            beta0,
            alpha,
            beta,
            best,
            universe.len(),
        ),
        match best {
            Some((index, utility)) => found == (Some(index), utility),
            None => found.0 is None && eval_fn.ensures((&state,), found.1),
        },
    ensures
        is_windowed_search(found, state, depth, eval_fn, is_maximizer, universe, alpha0, beta0),
{
    assert forall|eval: spec_fn(S) -> U, is_max: spec_fn(S::Agent) -> bool|
        #![trigger computes(eval_fn, eval), computes(is_maximizer, is_max)]
        computes(eval_fn, eval) && computes(is_maximizer, is_max) implies within_window(
        found,
        minimax_outcome(state, depth, eval, is_max, universe),
        alpha0,
        beta0,
    ) by {
        assert(maximizing == is_max(agent));
        lemma_strict_weak_order::<U>();
    }
}

} // verus!
