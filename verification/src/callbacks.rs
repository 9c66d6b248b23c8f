//! Specifications for the callbacks that a search is given.
//!
//! A search treats its evaluation function and its agent classifier as pure,
//! total functions. These predicates say so of a closure.

use vstd::prelude::*;

verus! {

/// `f` may be called on every argument.
pub open spec fn always_callable<X, Y, F: Fn(&X) -> Y>(f: F) -> bool {
    forall|x: &X| #[trigger] f.requires((x,))
}

/// Whatever `f` returns on an argument `x`, it is `model(x)`.
///
/// A closure that can return two different values on one argument has no
/// model; a pure one has one.
pub open spec fn computes<X, Y, F: Fn(&X) -> Y>(f: F, model: spec_fn(X) -> Y) -> bool {
    forall|x: &X, y: Y| #[trigger] f.ensures((x,), y) ==> y == model(*x)
}

} // verus!
