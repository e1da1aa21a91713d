//! The number type and the differentiable function that the scan works on.
use vstd::prelude::*;

verus! {

/// A number type with the operations the root scan performs.
///
/// Each operation is a fixed function of its arguments, named by a spec
/// function of the trait; nothing else is assumed of it (in particular no
/// algebraic law, so a floating-point type qualifies). An implementation
/// promises that each exec method returns the value of its spec function,
/// that is, the same result whenever it is given the same arguments; a
/// floating-point type keeps that promise by storing every NaN alike.
pub trait Real: Copy + Sized {
    spec fn spec_add(a: Self, b: Self) -> Self;

    spec fn spec_sub(a: Self, b: Self) -> Self;

    spec fn spec_mul(a: Self, b: Self) -> Self;

    spec fn spec_div(a: Self, b: Self) -> Self;

    spec fn spec_abs(a: Self) -> Self;

    spec fn spec_lt(a: Self, b: Self) -> bool;

    spec fn spec_le(a: Self, b: Self) -> bool;

    spec fn spec_from_u32(n: u32) -> Self;

    fn add(self, other: Self) -> (r: Self)
        ensures
            r == Self::spec_add(self, other),
    ;

    fn sub(self, other: Self) -> (r: Self)
        ensures
            r == Self::spec_sub(self, other),
    ;

    fn mul(self, other: Self) -> (r: Self)
        ensures
            r == Self::spec_mul(self, other),
    ;

    fn div(self, other: Self) -> (r: Self)
        ensures
            r == Self::spec_div(self, other),
    ;

    fn abs(self) -> (r: Self)
        ensures
            r == Self::spec_abs(self),
    ;

    fn lt(self, other: Self) -> (r: bool)
        ensures
            r == Self::spec_lt(self, other),
    ;

    fn le(self, other: Self) -> (r: bool)
        ensures
            r == Self::spec_le(self, other),
    ;

    fn from_u32(n: u32) -> (r: Self)
        ensures
            r == Self::spec_from_u32(n),
    ;
}

/// A function together with its first and second derivatives, each a fixed
/// function of its argument: an implementation promises that each exec
/// method returns the value of its spec function.
pub trait DifferentiableFunction<T: Real> {
    spec fn spec_value(&self, x: T) -> T;

    spec fn spec_first_derivative(&self, x: T) -> T;

    spec fn spec_second_derivative(&self, x: T) -> T;

    fn value(&self, x: T) -> (r: T)
        ensures
            r == self.spec_value(x),
    ;

    fn first_derivative(&self, x: T) -> (r: T)
        ensures
            r == self.spec_first_derivative(x),
    ;

    fn second_derivative(&self, x: T) -> (r: T)
        ensures
            r == self.spec_second_derivative(x),
    ;
}

} // verus!
