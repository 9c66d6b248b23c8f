//! Utilities that a chance node can average.

use vstd::prelude::*;

verus! {

/// What a utility needs, beyond its order, for chance nodes: a zero, a sum,
/// and the share that one of several equally likely outcomes contributes.
///
/// The three operations are functions of their arguments alone: each method
/// returns what its specification counterpart says. An implementation that is
/// to be verified overrides the three specification functions; their default
/// bodies say nothing.
pub trait ChanceUtility: Sized {
    /// The utility that sums start from.
    open spec fn spec_zero() -> Self {
        arbitrary()
    }

    /// The sum of two utilities.
    open spec fn spec_plus(self, other: Self) -> Self {
        arbitrary()
    }

    /// This utility weighted by one over `parts`.
    open spec fn spec_share(self, parts: nat) -> Self {
        arbitrary()
    }

    /// Returns the utility that sums start from, which is also the utility of
    /// a chance node without legal actions.
    fn zero() -> (zero: Self)
        ensures
            zero == Self::spec_zero(),
    ;

    /// Returns the sum of `self` and `other`.
    fn plus(self, other: Self) -> (sum: Self)
        ensures
            sum == self.spec_plus(other),
    ;

    /// Returns `self` weighted by one over `parts`: what one of `parts`
    /// equally likely outcomes contributes to their average.
    fn share(self, parts: usize) -> (part: Self)
        requires
            parts > 0,
        ensures
            part == self.spec_share(parts as nat),
    ;
}

/// The sum of the shares of `utilities`, each weighted by one over `parts`,
/// added up from zero in their order.
pub open spec fn weighted_total<U: ChanceUtility>(utilities: Seq<U>, parts: nat) -> U
    decreases utilities.len(),
{
    if utilities.len() == 0 {
        U::spec_zero()
    } else {
        weighted_total(utilities.drop_last(), parts).spec_plus(utilities.last().spec_share(parts))
    }
}

/// The average of `utilities` as a chance node computes it: every utility
/// weighted by one over their number. Zero if there are none.
pub open spec fn mean<U: ChanceUtility>(utilities: Seq<U>) -> U {
    weighted_total(utilities, utilities.len())
}

/// The plain sum of `utilities`, added up from zero in their order.
pub open spec fn total<U: ChanceUtility>(utilities: Seq<U>) -> U
    decreases utilities.len(),
{
    if utilities.len() == 0 {
        U::spec_zero()
    } else {
        total(utilities.drop_last()).spec_plus(utilities.last())
    }
}

/// Adding to zero changes nothing, and the share of a single part is the
/// whole.
pub open spec fn obeys_unit_laws<U: ChanceUtility>() -> bool {
    &&& forall|u: U| #[trigger] U::spec_zero().spec_plus(u) == u
    &&& forall|u: U| #[trigger] u.spec_share(1) == u
}

/// Shares are exact: a share of zero is zero, and the sum of two shares is
/// the share of the sum.
pub open spec fn obeys_share_laws<U: ChanceUtility>() -> bool {
    &&& forall|parts: nat| parts > 0 ==> #[trigger] U::spec_zero().spec_share(parts) == U::spec_zero()
    &&& forall|a: U, b: U, parts: nat|
        parts > 0 ==> #[trigger] a.spec_share(parts).spec_plus(b.spec_share(parts)) == a.spec_plus(
            b,
        ).spec_share(parts)
}

/// The average of a single utility is that utility.
pub proof fn lemma_mean_of_one<U: ChanceUtility>(utility: U)
    requires
        obeys_unit_laws::<U>(),
    ensures
        mean(seq![utility]) == utility,
{
    let single = seq![utility];
    assert(single.drop_last().len() == 0);
    assert(weighted_total(single.drop_last(), 1) == U::spec_zero());
    assert(single.last() == utility);
}

/// Where shares are exact, the sum of the shares is the share of the sum.
pub proof fn lemma_weighted_total_is_share_of_total<U: ChanceUtility>(utilities: Seq<U>, parts: nat)
    requires
        obeys_share_laws::<U>(),
        parts > 0,
    ensures
        weighted_total(utilities, parts) == total(utilities).spec_share(parts),
    decreases utilities.len(),
{
    if utilities.len() > 0 {
        lemma_weighted_total_is_share_of_total(utilities.drop_last(), parts);
    }
}

/// Where shares are exact, the average of some utilities is their arithmetic
/// mean: their sum, weighted by one over their number.
pub proof fn lemma_mean_is_arithmetic_mean<U: ChanceUtility>(utilities: Seq<U>)
    requires
        obeys_share_laws::<U>(),
        utilities.len() > 0,
    ensures
        mean(utilities) == total(utilities).spec_share(utilities.len()),
{
    lemma_weighted_total_is_share_of_total(utilities, utilities.len());
}

} // verus!
