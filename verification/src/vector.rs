//! Vectors of two and three numbers.

use crate::scalar;
use crate::scalar::Scalar;
use vstd::prelude::*;

verus! {

/// A vector in the plane of the grid.
#[derive(Clone, Copy, Debug)]
pub struct Vec2<S> {
    pub x: S,
    pub y: S,
}

/// A point of the grid, or near it.
#[derive(Clone, Copy, Debug, PartialEq, Eq, Structural)]
pub struct IVec2 {
    pub x: i32,
    pub y: i32,
}

/// A vector in space, `y` pointing up.
#[derive(Clone, Copy, Debug)]
pub struct Vec3<S> {
    pub x: S,
    pub y: S,
    pub z: S,
}

impl<S: Scalar> Vec2<S> {
    pub open spec fn zeros() -> Self {
        Vec2 { x: scalar::zero(), y: scalar::zero() }
    }

    pub open spec fn add(self, other: Self) -> Self {
        Vec2 { x: self.x.add(other.x), y: self.y.add(other.y) }
    }

    pub open spec fn scale(self, k: S) -> Self {
        Vec2 { x: self.x.mul(k), y: self.y.mul(k) }
    }

    pub open spec fn shrink(self, k: S) -> Self {
        Vec2 { x: self.x.div(k), y: self.y.div(k) }
    }

    pub open spec fn inner(self, other: Self) -> S {
        self.x.mul(other.x).add(self.y.mul(other.y))
    }

    pub open spec fn norm(self) -> S {
        self.inner(self).square_root()
    }

    /// The vector brought to length one: multiplied by the reciprocal of its length.
    pub open spec fn direction(self) -> Self {
        self.scale(scalar::one::<S>().div(self.norm()))
    }

    /// Whether the length is above zero.
    pub open spec fn is_long(self) -> bool {
        scalar::zero::<S>().lt(self.norm())
    }

    pub fn zero() -> (r: Self)
        ensures
            r == Self::zeros(),
    {
        Vec2 { x: S::ratio(0, 1), y: S::ratio(0, 1) }
    }

    pub fn plus(self, other: Self) -> (r: Self)
        ensures
            r == self.add(other),
    {
        Vec2 { x: self.x.plus(other.x), y: self.y.plus(other.y) }
    }

    pub fn scaled(self, k: S) -> (r: Self)
        ensures
            r == self.scale(k),
    {
        Vec2 { x: self.x.times(k), y: self.y.times(k) }
    }

    pub fn shrunk(self, k: S) -> (r: Self)
        ensures
            r == self.shrink(k),
    {
        Vec2 { x: self.x.over(k), y: self.y.over(k) }
    }

    pub fn dot(self, other: Self) -> (r: S)
        ensures
            r == self.inner(other),
    {
        self.x.times(other.x).plus(self.y.times(other.y))
    }

    pub fn length(self) -> (r: S)
        ensures
            r == self.norm(),
    {
        self.dot(self).sqrt()
    }

    pub fn has_length(self) -> (r: bool)
        ensures
            r == self.is_long(),
    {
        S::ratio(0, 1).below(self.length())
    }

    pub fn normalize(self) -> (r: Self)
        ensures
            r == self.direction(),
    {
        self.scaled(S::ratio(1, 1).over(self.length()))
    }
}

impl<S: Scalar> Vec3<S> {
    pub open spec fn zeros() -> Self {
        Vec3 { x: scalar::zero(), y: scalar::zero(), z: scalar::zero() }
    }

    pub open spec fn add(self, other: Self) -> Self {
        Vec3 { x: self.x.add(other.x), y: self.y.add(other.y), z: self.z.add(other.z) }
    }

    pub open spec fn sub(self, other: Self) -> Self {
        Vec3 { x: self.x.sub(other.x), y: self.y.sub(other.y), z: self.z.sub(other.z) }
    }

    /// The product, component by component.
    pub open spec fn mul(self, other: Self) -> Self {
        Vec3 { x: self.x.mul(other.x), y: self.y.mul(other.y), z: self.z.mul(other.z) }
    }

    pub open spec fn scale(self, k: S) -> Self {
        Vec3 { x: self.x.mul(k), y: self.y.mul(k), z: self.z.mul(k) }
    }

    pub open spec fn outer(self, other: Self) -> Self {
        Vec3 {
            x: self.y.mul(other.z).sub(other.y.mul(self.z)),
            y: self.z.mul(other.x).sub(other.z.mul(self.x)),
            z: self.x.mul(other.y).sub(other.x.mul(self.y)),
        }
    }

    pub open spec fn inner(self, other: Self) -> S {
        self.x.mul(other.x).add(self.y.mul(other.y)).add(self.z.mul(other.z))
    }

    pub open spec fn norm(self) -> S {
        self.inner(self).square_root()
    }

    /// The vector brought to length one: multiplied by the reciprocal of its length.
    pub open spec fn direction(self) -> Self {
        self.scale(scalar::one::<S>().div(self.norm()))
    }

    /// The vector brought to length one, or zero where the reciprocal of its length is not
    /// a finite number above zero.
    pub open spec fn direction_or_zero(self) -> Self {
        let reciprocal = scalar::one::<S>().div(self.norm());
        if reciprocal.finite() && scalar::zero::<S>().lt(reciprocal) {
            self.scale(reciprocal)
        } else {
            Self::zeros()
        }
    }

    pub fn zero() -> (r: Self)
        ensures
            r == Self::zeros(),
    {
        Vec3 { x: S::ratio(0, 1), y: S::ratio(0, 1), z: S::ratio(0, 1) }
    }

    pub fn plus(self, other: Self) -> (r: Self)
        ensures
            r == self.add(other),
    {
        Vec3 { x: self.x.plus(other.x), y: self.y.plus(other.y), z: self.z.plus(other.z) }
    }

    pub fn minus(self, other: Self) -> (r: Self)
        ensures
            r == self.sub(other),
    {
        Vec3 { x: self.x.minus(other.x), y: self.y.minus(other.y), z: self.z.minus(other.z) }
    }

    pub fn times(self, other: Self) -> (r: Self)
        ensures
            r == self.mul(other),
    {
        Vec3 { x: self.x.times(other.x), y: self.y.times(other.y), z: self.z.times(other.z) }
    }

    pub fn scaled(self, k: S) -> (r: Self)
        ensures
            r == self.scale(k),
    {
        Vec3 { x: self.x.times(k), y: self.y.times(k), z: self.z.times(k) }
    }

    pub fn cross(self, other: Self) -> (r: Self)
        ensures
            r == self.outer(other),
    {
        Vec3 {
            x: self.y.times(other.z).minus(other.y.times(self.z)),
            y: self.z.times(other.x).minus(other.z.times(self.x)),
            z: self.x.times(other.y).minus(other.x.times(self.y)),
        }
    }

    pub fn dot(self, other: Self) -> (r: S)
        ensures
            r == self.inner(other),
    {
        self.x.times(other.x).plus(self.y.times(other.y)).plus(self.z.times(other.z))
    }

    pub fn length(self) -> (r: S)
        ensures
            r == self.norm(),
    {
        self.dot(self).sqrt()
    }

    pub fn normalize(self) -> (r: Self)
        ensures
            r == self.direction(),
    {
        self.scaled(S::ratio(1, 1).over(self.length()))
    }

    pub fn normalize_or_zero(self) -> (r: Self)
        ensures
            r == self.direction_or_zero(),
    {
        let reciprocal: S = S::ratio(1, 1).over(self.length());
        if reciprocal.is_finite() && S::ratio(0, 1).below(reciprocal) {
            self.scaled(reciprocal)
        } else {
            Self::zero()
        }
    }
}

} // verus!
