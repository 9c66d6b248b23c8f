//! The ordering of utilities.
//!
//! The search compares utilities with the operators of `Ord`. This module
//! names the strict order behind those operators and collects the facts about
//! it that the proofs of the search rely on.

use core::cmp::Ordering;
use vstd::prelude::*;
use vstd::std_specs::cmp::{OrdSpec, PartialEqSpec, PartialOrdIs, PartialOrdSpec};

verus! {

/// The comparison operators of `U` are specified and obey the laws that std
/// asks of every `Ord` implementation: all of them answer by one total order,
/// up to the equivalence that `==` computes.
pub open spec fn is_total_order<U: Ord>() -> bool {
    vstd::laws_cmp::obeys_cmp::<U>()
}

/// `a` comes strictly before `b` in the order of `U`.
pub open spec fn below<U: Ord>(a: U, b: U) -> bool {
    a.partial_cmp_spec(&b) == Some(Ordering::Less)
}

/// `a` is strictly better than `b` in the eyes of the agent to move: higher
/// for a maximizer, lower for a minimizer.
pub open spec fn prefers<U: Ord>(maximizing: bool, a: U, b: U) -> bool {
    if maximizing {
        below(b, a)
    } else {
        below(a, b)
    }
}

/// The operators `<` and `>` compute `below`.
pub proof fn lemma_operators_compute_below<U: Ord>()
    requires
        is_total_order::<U>(),
    ensures
        U::obeys_partial_cmp_spec(),
        forall|a: U, b: U| a.is_lt(&b) <==> #[trigger] below(a, b),
        forall|a: U, b: U| a.is_gt(&b) <==> #[trigger] below(b, a),
{
    reveal(vstd::laws_cmp::obeys_cmp_partial_ord);
    reveal(vstd::laws_cmp::obeys_partial_cmp_spec_properties);
}

/// Nothing is below itself.
pub proof fn lemma_below_irreflexive<U: Ord>(a: U)
    requires
        is_total_order::<U>(),
    ensures
        !below(a, a),
{
    reveal(vstd::laws_cmp::obeys_partial_cmp_spec_properties);
}

/// `below` is transitive.
pub proof fn lemma_below_transitive<U: Ord>(a: U, b: U, c: U)
    requires
        is_total_order::<U>(),
        below(a, b),
        below(b, c),
    ensures
        below(a, c),
{
    reveal(vstd::laws_cmp::obeys_partial_cmp_spec_properties);
}

/// "At most" is transitive: if `c` is not below `b` and `b` is not below
/// `a`, then `c` is not below `a`.
pub proof fn lemma_at_most_transitive<U: Ord>(a: U, b: U, c: U)
    requires
        is_total_order::<U>(),
        !below(b, a),
        !below(c, b),
    ensures
        !below(c, a),
{
    reveal(vstd::laws_cmp::obeys_cmp_partial_ord);
    reveal(vstd::laws_cmp::obeys_cmp_ord);
    reveal(vstd::laws_cmp::obeys_partial_cmp_spec_properties);
    reveal(vstd::laws_eq::obeys_eq_spec_properties);
    if below(c, a) {
        // Each of the pairs a, b and b, c is equivalent or in strict order,
        // and c < a rules out every combination.
        assert(b.partial_cmp_spec(&a) == Some(b.cmp_spec(&a)));
        assert(c.partial_cmp_spec(&b) == Some(c.cmp_spec(&b)));
        if !below(a, b) {
            assert(b.eq_spec(&a));
        }
        if !below(b, c) {
            assert(c.eq_spec(&b));
        }
    }
}

/// `below` is a strict weak order: it is irreflexive, asymmetric and
/// transitive, and "at most" is transitive too.
pub proof fn lemma_strict_weak_order<U: Ord>()
    requires
        is_total_order::<U>(),
    ensures
        forall|a: U| !#[trigger] below(a, a),
        forall|a: U, b: U| #[trigger] below(a, b) ==> !below(b, a),
        forall|a: U, b: U, c: U| #[trigger] below(a, b) && #[trigger] below(b, c) ==> below(a, c),
        forall|a: U, b: U, c: U|
            !#[trigger] below(b, a) && !#[trigger] below(c, b) ==> !below(c, a),
{
    assert forall|a: U| !#[trigger] below(a, a) by {
        lemma_below_irreflexive(a);
    }
    assert forall|a: U, b: U| #[trigger] below(a, b) implies !below(b, a) by {
        if below(b, a) {
            lemma_below_transitive(a, b, a);
            lemma_below_irreflexive(a);
        }
    }
    assert forall|a: U, b: U, c: U| #[trigger] below(a, b) && #[trigger] below(b, c) implies below(
        a,
        c,
    ) by {
        lemma_below_transitive(a, b, c);
    }
    assert forall|a: U, b: U, c: U| !#[trigger] below(b, a) && !#[trigger] below(c, b) implies !below(
        c,
        a,
    ) by {
        lemma_at_most_transitive(a, b, c);
    }
}

/// The integer types are totally ordered.
pub proof fn lemma_integers_are_totally_ordered()
    ensures
        is_total_order::<u8>(),
        is_total_order::<u16>(),
        is_total_order::<u32>(),
        is_total_order::<u64>(),
        is_total_order::<u128>(),
        is_total_order::<usize>(),
        is_total_order::<i8>(),
        is_total_order::<i16>(),
        is_total_order::<i32>(),
        is_total_order::<i64>(),
        is_total_order::<i128>(),
        is_total_order::<isize>(),
{
    broadcast use vstd::laws_cmp::group_laws_cmp;

}

} // verus!
