//! The arithmetic that the simulation leaves to its caller.
//!
//! The simulation stores and compares numbers but does no arithmetic on them.
//! Integrating an input, measuring a distance, extrapolating and easing a
//! drawn position are floating-point computations, and the caller supplies
//! each as a function. The simulation asks two things of such a function: that
//! it accepts every argument, and that it returns the same result whenever it
//! is given the same argument.
//!
//! What the simulation computes with the help of such functions is described
//! by [`Asked`] values: the value, and the fact that every function had a
//! result to give wherever it was consulted.

use vstd::prelude::*;

verus! {

/// `f` accepts every argument.
pub open spec fn total<A, B, F: Fn(A) -> B>(f: F) -> bool {
    forall|a: A| call_requires(f, (a,))
}

/// `f` never returns two different results for one argument.
pub open spec fn deterministic<A, B, F: Fn(A) -> B>(f: F) -> bool {
    forall|a: A, x: B, y: B| call_ensures(f, (a,), x) && call_ensures(f, (a,), y) ==> x == y
}

/// What `f` returns for `a`. For a deterministic `f` this is the result of
/// every call `f(a)`. Where `f` returns nothing for `a` the value is
/// arbitrary; [`answers`] tells the two cases apart.
pub open spec fn result_of<A, B, F: Fn(A) -> B>(f: F, a: A) -> B {
    choose|b: B| call_ensures(f, (a,), b)
}

/// `f` returns something for `a`.
pub open spec fn answers<A, B, F: Fn(A) -> B>(f: F, a: A) -> bool {
    call_ensures(f, (a,), result_of(f, a))
}

/// A value that was computed by consulting functions of the caller.
pub struct Asked<T> {
    pub value: T,
    /// Every function that was consulted on the way to `value` had a result
    /// for what it was consulted on.
    pub answered: bool,
}

/// A value on the way to which every consulted function had a result.
pub open spec fn answered<T>(value: T) -> Asked<T> {
    Asked { value, answered: true }
}

/// `f` as the mathematical function it computes: for each argument what `f`
/// returns for it, and whether `f` returns anything for it.
pub open spec fn asked<A, B, F: Fn(A) -> B>(f: F) -> spec_fn(A) -> Asked<B> {
    |a: A| Asked { value: result_of(f, a), answered: answers(f, a) }
}

/// `f` can be consulted: it accepts every argument, and returns one result
/// for each.
pub open spec fn is_function<A, B, F: Fn(A) -> B>(f: F) -> bool {
    total(f) && deterministic(f)
}

} // verus!
