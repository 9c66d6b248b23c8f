//! How a deciding agent picks among the replies to its position.
//!
//! A reply is a legal candidate's index together with the utility that the
//! search found for the position it leads to.

use crate::order::{is_total_order, lemma_strict_weak_order, prefers};
use vstd::prelude::*;

verus! {

/// Of the running best and a further candidate, the one that the mover keeps:
/// the candidate only if it is strictly better.
pub open spec fn keep_better<U: Ord>(
    maximizing: bool,
    best: Option<(int, U)>,
    candidate: (int, U),
) -> (int, U) {
    match best {
        Some(kept) => if prefers(maximizing, candidate.1, kept.1) {
            candidate
        } else {
            kept
        },
        None => candidate,
    }
}

/// The reply that the mover chooses among `replies`, each a candidate's index
/// with the utility it leads to: the first one that no other reply beats.
/// `None` if there is no reply.
pub open spec fn first_best<U: Ord>(maximizing: bool, replies: Seq<(int, U)>) -> Option<(int, U)>
    decreases replies.len(),
{
    if replies.len() == 0 {
        None
    } else {
        Some(keep_better(maximizing, first_best(maximizing, replies.drop_last()), replies.last()))
    }
}

/// The chosen reply is one of the replies, none of the replies is strictly
/// better than it, and it is strictly better than every reply before it.
pub proof fn lemma_first_best_is_first_optimum<U: Ord>(maximizing: bool, replies: Seq<(int, U)>)
    requires
        is_total_order::<U>(),
        replies.len() > 0,
    ensures
        first_best(maximizing, replies) is Some,
        exists|at: int|
            {
                &&& 0 <= at < replies.len()
                &&& #[trigger] replies[at] == first_best(maximizing, replies).unwrap()
                &&& forall|k: int|
                    0 <= k < replies.len() ==> !prefers(
                        maximizing,
                        (#[trigger] replies[k]).1,
                        replies[at].1,
                    )
                &&& forall|k: int|
                    0 <= k < at ==> prefers(maximizing, replies[at].1, (#[trigger] replies[k]).1)
            },
    decreases replies.len(),
{
    lemma_strict_weak_order::<U>();
    let last = replies.last();
    let earlier = replies.drop_last();
    let top = replies.len() - 1;
    if earlier.len() == 0 {
        assert(replies[top] == first_best(maximizing, replies).unwrap());
    } else {
        lemma_first_best_is_first_optimum(maximizing, earlier);
        let kept = first_best(maximizing, earlier).unwrap();
        let at = choose|at: int|
            {
                &&& 0 <= at < earlier.len()
                &&& #[trigger] earlier[at] == kept
                &&& forall|k: int|
                    0 <= k < earlier.len() ==> !prefers(
                        maximizing,
                        (#[trigger] earlier[k]).1,
                        earlier[at].1,
                    )
                &&& forall|k: int|
                    0 <= k < at ==> prefers(maximizing, earlier[at].1, (#[trigger] earlier[k]).1)
            };
        assert(forall|k: int| 0 <= k < earlier.len() ==> earlier[k] == replies[k]);
        if prefers(maximizing, last.1, kept.1) {
            // The last reply beats the one kept so far, and with it every
            // reply before.
            assert forall|k: int| 0 <= k < top implies prefers(
                maximizing,
                replies[top].1,
                (#[trigger] replies[k]).1,
            ) by {
                assert(!prefers(maximizing, earlier[k].1, kept.1));
            }
            assert(replies[top] == first_best(maximizing, replies).unwrap());
        } else {
            assert(replies[at] == first_best(maximizing, replies).unwrap());
        }
    }
}

/// What the mover decides on, given the replies to its position: the index of
/// the chosen reply with its utility, or nothing and `fallback` if there is
/// no reply.
pub open spec fn decision<U: Ord>(maximizing: bool, replies: Seq<(int, U)>, fallback: U) -> (
    Option<int>,
    U,
) {
    match first_best(maximizing, replies) {
        Some((index, utility)) => (Some(index), utility),
        None => (None, fallback),
    }
}

/// The running best of a scan, as a reply.
pub open spec fn as_reply<U>(best: Option<(usize, U)>) -> Option<(int, U)> {
    match best {
        Some((index, utility)) => Some((index as int, utility)),
        None => None,
    }
}

/// A search result, with its index as a mathematical integer.
pub open spec fn as_outcome<U>(found: (Option<usize>, U)) -> (Option<int>, U) {
    match found.0 {
        Some(index) => (Some(index as int), found.1),
        None => (None, found.1),
    }
}

} // verus!
