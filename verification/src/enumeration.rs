//! The candidate actions of a game, from its action type.

use vstd::prelude::*;

verus! {

/// The values of the action type, as `enum_iterator` lists them.
///
/// Calls `enum_iterator::IntoEnumIterator::into_enum_iter` and collects what
/// the iterator yields, in its order. For a derived implementation these are
/// the variants of the enum in the order of their declaration; of a
/// hand-written one nothing is known, and nothing is claimed here.
#[verifier::external_body]
pub(crate) fn all_actions<Action: enum_iterator::IntoEnumIterator>() -> (actions: Vec<Action>) {
    Action::into_enum_iter().collect()
}

} // verus!
