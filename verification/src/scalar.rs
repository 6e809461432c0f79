//! The number type the engine computes with.
use vstd::prelude::*;

verus! {

/// Arithmetic on a number type.
///
/// Each executable operation returns the value of the specification function
/// beside it, so an implementation promises one thing: an operation is a
/// function of its operands. Nothing is assumed of the algebra. In
/// particular no operation is taken to be associative, which is why the
/// engine's contracts spell out the order of every sum.
///
/// `Fixed` implements the trait in this crate. A caller who wants
/// floating-point numbers wraps them in a type of their own and implements
/// the trait for it, with each specification function computing what the
/// operation beside it computes.
pub trait Scalar: Copy {
    /// Zero.
    spec fn zero_value() -> Self;

    /// One.
    spec fn one_value() -> Self;

    /// One half.
    spec fn half_value() -> Self;

    /// `self + rhs`.
    spec fn sum(self, rhs: Self) -> Self;

    /// `self - rhs`.
    spec fn difference(self, rhs: Self) -> Self;

    /// `self * rhs`.
    spec fn product(self, rhs: Self) -> Self;

    /// `self / rhs`.
    spec fn quotient(self, rhs: Self) -> Self;

    /// The square root of `self`.
    spec fn root(self) -> Self;

    /// `self < rhs`.
    spec fn below(self, rhs: Self) -> bool;

    fn zero() -> (r: Self)
        ensures
            r == Self::zero_value(),
    ;

    fn one() -> (r: Self)
        ensures
            r == Self::one_value(),
    ;

    fn half() -> (r: Self)
        ensures
            r == Self::half_value(),
    ;

    fn plus(self, rhs: Self) -> (r: Self)
        ensures
            r == self.sum(rhs),
    ;

    fn minus(self, rhs: Self) -> (r: Self)
        ensures
            r == self.difference(rhs),
    ;

    fn times(self, rhs: Self) -> (r: Self)
        ensures
            r == self.product(rhs),
    ;

    fn over(self, rhs: Self) -> (r: Self)
        ensures
            r == self.quotient(rhs),
    ;

    fn sqrt(self) -> (r: Self)
        ensures
            r == self.root(),
    ;

    fn lt(self, rhs: Self) -> (r: bool)
        ensures
            r == self.below(rhs),
    ;
}

/// Adding zero, on either side, changes nothing. The engine does not rely
/// on this; the laws that speak of a sum's value rather than of its shape
/// ask for it.
pub open spec fn zero_is_neutral<S: Scalar>() -> bool {
    forall|x: S|
        #![trigger S::zero_value().sum(x)]
        #![trigger x.sum(S::zero_value())]
        S::zero_value().sum(x) == x && x.sum(S::zero_value()) == x
}

/// Products are exact: multiplication is commutative and associative, and
/// a factor can be moved into a subtraction from zero. Arithmetic that
/// rounds does not offer this; the law of action and reaction in its
/// algebraic form asks for it.
pub open spec fn products_are_exact<S: Scalar>() -> bool {
    &&& forall|a: S, b: S| #[trigger] a.product(b) == b.product(a)
    &&& forall|a: S, b: S, c: S| #[trigger] a.product(b).product(c) == a.product(b.product(c))
    &&& forall|k: S, x: S| #[trigger]
        k.product(S::zero_value().difference(x)) == S::zero_value().difference(k.product(x))
}

} // verus!
