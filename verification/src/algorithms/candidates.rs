//! The candidate actions of a position, and which of them are legal.
//!
//! A search is given a sequence of candidate actions. In a position, a
//! candidate is legal if the position has a successor for it.

use crate::traits::GameState;
use vstd::prelude::*;

verus! {

/// None of the first `count` candidates is legal in `state`.
pub open spec fn none_legal<S: GameState>(state: S, universe: Seq<S::Action>, count: nat) -> bool {
    forall|k: int| 0 <= k < count ==> (#[trigger] state.spec_successor(&universe[k])) is None
}

/// No action at all is legal in `state`.
pub open spec fn has_no_legal_action<S: GameState>(state: S) -> bool {
    forall|action: S::Action| (#[trigger] state.spec_successor(&action)) is None
}

/// The search does not look beyond `state`: no plies are left, the game is
/// finished, or none of the candidates is legal.
pub open spec fn is_leaf<S: GameState>(state: S, depth: nat, universe: Seq<S::Action>) -> bool {
    depth == 0 || state.spec_next_agent() is None || none_legal(state, universe, universe.len())
}

/// A recommended index, if there is one, is that of a candidate that is legal
/// in `state`.
pub open spec fn recommends_legal<S: GameState>(
    index: Option<usize>,
    state: S,
    universe: Seq<S::Action>,
) -> bool {
    match index {
        Some(index) => index < universe.len() && state.spec_successor(&universe[index as int])
            is Some,
        None => true,
    }
}

/// How many of the first `count` candidates are legal in `state`.
pub open spec fn legal_count<S: GameState>(state: S, universe: Seq<S::Action>, count: nat) -> nat
    decreases count,
{
    if count == 0 {
        0
    } else {
        let earlier = legal_count(state, universe, (count - 1) as nat);
        if state.spec_successor(&universe[count - 1]) is Some {
            earlier + 1
        } else {
            earlier
        }
    }
}

/// The count of legal candidates grows with the number of candidates looked
/// at, by at most one for each.
pub proof fn lemma_legal_count_grows<S: GameState>(
    state: S,
    universe: Seq<S::Action>,
    fewer: nat,
    more: nat,
)
    requires
        fewer <= more,
    ensures
        legal_count(state, universe, fewer) <= legal_count(state, universe, more) <= legal_count(
            state,
            universe,
            fewer,
        ) + (more - fewer),
    decreases more,
{
    if fewer < more {
        lemma_legal_count_grows(state, universe, fewer, (more - 1) as nat);
    }
}

/// No candidate is counted as legal exactly if none is legal.
pub proof fn lemma_no_legal_count<S: GameState>(state: S, universe: Seq<S::Action>, count: nat)
    ensures
        legal_count(state, universe, count) == 0 <==> none_legal(state, universe, count),
    decreases count,
{
    if count > 0 {
        lemma_no_legal_count(state, universe, (count - 1) as nat);
        if none_legal(state, universe, count) {
            assert(state.spec_successor(&universe[count - 1]) is None);
        }
    }
}

/// Every path of legal candidates from `state` reaches a finished position
/// after at most `depth` actions.
pub open spec fn ends_within<S: GameState>(state: S, depth: nat, universe: Seq<S::Action>) -> bool
    decreases depth,
{
    state.spec_next_agent() is None || (depth > 0 && forall|k: int|
        0 <= k < universe.len() ==> match #[trigger] state.spec_successor(&universe[k]) {
            Some(next) => ends_within(next, (depth - 1) as nat, universe),
            None => true,
        })
}

} // verus!
