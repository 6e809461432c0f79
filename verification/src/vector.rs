//! Three-component vectors.
use vstd::prelude::*;
use crate::scalar::Scalar;

verus! {

/// A vector in space. The three axes are treated alike by every operation.
pub struct Vec3<S: Scalar> {
    pub x: S,
    pub y: S,
    pub z: S,
}

impl<S: Scalar> Vec3<S> {
    /// The vector whose components are all zero.
    pub open spec fn zero_value() -> Self {
        Vec3 { x: S::zero_value(), y: S::zero_value(), z: S::zero_value() }
    }

    /// Component-wise `self + rhs`.
    pub open spec fn sum(self, rhs: Self) -> Self {
        Vec3 { x: self.x.sum(rhs.x), y: self.y.sum(rhs.y), z: self.z.sum(rhs.z) }
    }

    /// Component-wise `self - rhs`.
    pub open spec fn difference(self, rhs: Self) -> Self {
        Vec3 {
            x: self.x.difference(rhs.x),
            y: self.y.difference(rhs.y),
            z: self.z.difference(rhs.z),
        }
    }

    /// Every component multiplied by `k`, with `k` as the left operand.
    pub open spec fn scaled(self, k: S) -> Self {
        Vec3 { x: k.product(self.x), y: k.product(self.y), z: k.product(self.z) }
    }

    /// The Euclidean norm: the root of `(x*x + y*y) + z*z`.
    pub open spec fn length(self) -> S {
        self.x.product(self.x).sum(self.y.product(self.y)).sum(self.z.product(self.z)).root()
    }

    /// The vector with the given components.
    pub fn new(x: S, y: S, z: S) -> (v: Self)
        ensures
            v == (Vec3 { x, y, z }),
    {
        Vec3 { x, y, z }
    }

    /// The zero vector.
    pub fn zero() -> (v: Self)
        ensures
            v == Self::zero_value(),
    {
        Vec3 { x: S::zero(), y: S::zero(), z: S::zero() }
    }

    /// Adds `rhs`, component by component.
    pub fn plus(self, rhs: Self) -> (v: Self)
        ensures
            v == self.sum(rhs),
    {
        Vec3 { x: self.x.plus(rhs.x), y: self.y.plus(rhs.y), z: self.z.plus(rhs.z) }
    }

    /// Subtracts `rhs`, component by component.
    pub fn minus(self, rhs: Self) -> (v: Self)
        ensures
            v == self.difference(rhs),
    {
        Vec3 { x: self.x.minus(rhs.x), y: self.y.minus(rhs.y), z: self.z.minus(rhs.z) }
    }

    /// Multiplies every component by `k`.
    pub fn scale(self, k: S) -> (v: Self)
        ensures
            v == self.scaled(k),
    {
        Vec3 { x: k.times(self.x), y: k.times(self.y), z: k.times(self.z) }
    }

    /// Computes the Euclidean norm.
    pub fn norm(self) -> (r: S)
        ensures
            r == self.length(),
    {
        let xx = self.x.times(self.x);
        let yy = self.y.times(self.y);
        let zz = self.z.times(self.z);
        xx.plus(yy).plus(zz).sqrt()
    }
}

impl<S: Scalar> Clone for Vec3<S> {
    fn clone(&self) -> (r: Self)
        ensures
            r == *self,
    {
        *self
    }
}

impl<S: Scalar> Copy for Vec3<S> {

}

} // verus!
