//! The arithmetic that the simulation is written over.

use vstd::prelude::*;

verus! {

/// A number type that the simulation can run on.
///
/// Each operation names its result with a spec function, so that a contract can say
/// exactly which operations were applied to which values, in which order. Nothing is said
/// here about rounding: laws that need exact sums ask for [`exact_sums`].
pub trait Scalar: Copy {
    /// The number that stands for `num / den`, rounded as the type rounds.
    spec fn ratio_of(num: i64, den: u64) -> Self;

    /// The number that stands for the grid coordinate `i`, rounded as the type rounds.
    spec fn of_index(i: usize) -> Self;

    /// A bound that no number exceeds.
    spec fn top() -> Self;

    /// A bound that no number stays below.
    spec fn bottom() -> Self;

    spec fn add(self, other: Self) -> Self;

    spec fn sub(self, other: Self) -> Self;

    spec fn mul(self, other: Self) -> Self;

    spec fn div(self, other: Self) -> Self;

    spec fn neg(self) -> Self;

    spec fn square_root(self) -> Self;

    spec fn exponential(self) -> Self;

    spec fn sine(self) -> Self;

    spec fn cosine(self) -> Self;

    spec fn lt(self, other: Self) -> bool;

    spec fn le(self, other: Self) -> bool;

    spec fn same(self, other: Self) -> bool;

    spec fn finite(self) -> bool;

    /// The number without its fraction, held to the range of `i32`.
    spec fn whole_i32(self) -> i32;

    /// The number without its fraction, held to the range of `usize`.
    spec fn whole_usize(self) -> usize;

    fn ratio(num: i64, den: u64) -> (r: Self)
        requires
            den > 0,
        ensures
            r == Self::ratio_of(num, den),
    ;

    fn from_index(i: usize) -> (r: Self)
        ensures
            r == Self::of_index(i),
    ;

    fn greatest() -> (r: Self)
        ensures
            r == Self::top(),
    ;

    fn least() -> (r: Self)
        ensures
            r == Self::bottom(),
    ;

    fn plus(self, other: Self) -> (r: Self)
        ensures
            r == self.add(other),
    ;

    fn minus(self, other: Self) -> (r: Self)
        ensures
            r == self.sub(other),
    ;

    fn times(self, other: Self) -> (r: Self)
        ensures
            r == self.mul(other),
    ;

    fn over(self, other: Self) -> (r: Self)
        ensures
            r == self.div(other),
    ;

    fn negated(self) -> (r: Self)
        ensures
            r == self.neg(),
    ;

    fn sqrt(self) -> (r: Self)
        ensures
            r == self.square_root(),
    ;

    fn exp(self) -> (r: Self)
        ensures
            r == self.exponential(),
    ;

    fn sin(self) -> (r: Self)
        ensures
            r == self.sine(),
    ;

    fn cos(self) -> (r: Self)
        ensures
            r == self.cosine(),
    ;

    fn below(self, other: Self) -> (r: bool)
        ensures
            r == self.lt(other),
    ;

    fn at_most(self, other: Self) -> (r: bool)
        ensures
            r == self.le(other),
    ;

    fn equals(self, other: Self) -> (r: bool)
        ensures
            r == self.same(other),
    ;

    fn is_finite(self) -> (r: bool)
        ensures
            r == self.finite(),
    ;

    fn to_i32(self) -> (r: i32)
        ensures
            r == self.whole_i32(),
    ;

    fn to_usize(self) -> (r: usize)
        ensures
            r == self.whole_usize(),
    ;

    /// A number drawn at random from zero up to, and not reaching, one.
    fn random_unit() -> (r: Self)
        ensures
            Self::ratio_of(0, 1).le(r),
            r.lt(Self::ratio_of(1, 1)),
    ;
}

/// Zero.
pub open spec fn zero<S: Scalar>() -> S {
    S::ratio_of(0, 1)
}

/// One.
pub open spec fn one<S: Scalar>() -> S {
    S::ratio_of(1, 1)
}

/// Sums are exact: addition is commutative and associative with zero as its neutral
/// element, and subtraction undoes addition.
#[verifier::opaque]
pub open spec fn exact_sums<S: Scalar>() -> bool {
    &&& forall|a: S, b: S| #[trigger] a.add(b) == b.add(a)
    &&& forall|a: S, b: S, c: S| #[trigger] a.add(b).add(c) == a.add(b.add(c))
    &&& forall|a: S| #[trigger] a.add(zero()) == a
    &&& forall|a: S, b: S| #[trigger] a.sub(b).add(b) == a
}

/// The order is one: `<=` is transitive, `<` is its strict part, and equal numbers stand at
/// one place in it. It need not be total: a value may compare with nothing.
pub open spec fn ordered<S: Scalar>() -> bool {
    &&& forall|a: S, b: S, c: S| #[trigger] a.le(b) && #[trigger] b.le(c) ==> a.le(c)
    &&& forall|a: S, b: S| #[trigger] a.lt(b) <==> a.le(b) && !b.le(a)
    &&& forall|a: S, b: S| #[trigger] a.same(b) ==> a.le(b) && b.le(a)
}

/// What exact sums are, for given parts.
pub proof fn lemma_exact_sums<S: Scalar>(a: S, b: S, c: S)
    requires
        exact_sums::<S>(),
    ensures
        a.add(b) == b.add(a),
        a.add(b).add(c) == a.add(b.add(c)),
        a.add(zero()) == a,
        a.sub(b).add(b) == a,
{
    reveal(exact_sums);
}

/// Where sums are exact, equal sums with an equal part have equal rests.
pub proof fn lemma_cancel<S: Scalar>(a: S, b: S, c: S)
    requires
        exact_sums::<S>(),
        a.add(c) == b.add(c),
    ensures
        a == b,
{
    let zero = zero::<S>();
    let back = zero.sub(c);
    lemma_exact_sums(zero, c, c);
    lemma_exact_sums(back, c, c);
    lemma_exact_sums(a, c, back);
    lemma_exact_sums(b, c, back);
}

/// Where sums are exact, parts may be added in either order.
pub proof fn lemma_swap<S: Scalar>(a: S, b: S, c: S)
    requires
        exact_sums::<S>(),
    ensures
        a.add(b).add(c) == a.add(c).add(b),
{
    lemma_exact_sums(a, b, c);
    lemma_exact_sums(a, c, b);
    lemma_exact_sums(b, c, c);
}

/// The smaller of two numbers; where one of them is not equal to itself, the other.
pub open spec fn smaller_of<S: Scalar>(a: S, b: S) -> S {
    if b.lt(a) || !a.same(a) {
        b
    } else {
        a
    }
}

/// The larger of two numbers; where one of them is not equal to itself, the other.
pub open spec fn larger_of<S: Scalar>(a: S, b: S) -> S {
    if a.lt(b) || !a.same(a) {
        b
    } else {
        a
    }
}

/// The number without its sign.
pub open spec fn magnitude_of<S: Scalar>(a: S) -> S {
    if a.lt(zero()) {
        a.neg()
    } else {
        a
    }
}

/// The number held between `low` and `high`.
pub open spec fn clamped<S: Scalar>(a: S, low: S, high: S) -> S {
    if a.lt(low) {
        low
    } else if high.lt(a) {
        high
    } else {
        a
    }
}

/// Any two numbers that are equal to themselves compare.
pub open spec fn numbers_compare<S: Scalar>() -> bool {
    forall|a: S, b: S|
        a.same(a) && b.same(b) ==> #[trigger] a.le(b) || b.le(a)
}

/// Operations on finite numbers lead to numbers that are equal to themselves, and what lies
/// between finite numbers is finite.
pub open spec fn finite_numbers_hold<S: Scalar>() -> bool {
    &&& forall|a: S| #[trigger] a.finite() ==> a.same(a)
    &&& forall|a: S, b: S|
        a.finite() && b.same(b) ==> (#[trigger] a.add(b)).same(a.add(b))
    &&& forall|a: S, b: S|
        a.finite() && b.same(b) ==> (#[trigger] a.sub(b)).same(a.sub(b))
    &&& forall|a: S, b: S|
        a.finite() && b.finite() ==> (#[trigger] a.mul(b)).same(a.mul(b))
    &&& forall|a: S, b: S, c: S|
        a.finite() && c.finite() && #[trigger] a.le(b) && #[trigger] b.le(c) ==> b.finite()
}

/// Whether a number is equal to zero.
pub open spec fn is_zero<S: Scalar>(a: S) -> bool {
    a.same(zero())
}

/// Zero adds nothing, and nothing comes of a product of it with a finite number. What is
/// equal to zero need not be zero itself.
pub open spec fn zero_vanishes<S: Scalar>() -> bool {
    &&& is_zero(zero::<S>())
    &&& forall|a: S, b: S| is_zero(a) && is_zero(b) ==> is_zero(#[trigger] a.add(b))
    &&& forall|a: S, b: S| is_zero(a) && is_zero(b) ==> is_zero(#[trigger] a.sub(b))
    &&& forall|a: S, b: S| is_zero(a) && b.finite() ==> is_zero(#[trigger] a.mul(b))
    &&& forall|a: S, b: S| a.finite() && is_zero(b) ==> is_zero(#[trigger] a.mul(b))
    &&& forall|a: S, b: S| a.same(a) && is_zero(b) ==> (#[trigger] a.add(b)).same(a)
}

/// Sums of finite numbers keep the order of a part.
pub open spec fn sums_keep_order<S: Scalar>() -> bool {
    forall|a: S, b: S, c: S|
        a.finite() && b.finite() && c.finite() && a.le(b) ==> (#[trigger] c.add(a)).le(
            #[trigger] c.add(b),
        )
}

/// A share between none and all of a finite number that is not negative lies between zero
/// and that number.
pub open spec fn shares_keep_order<S: Scalar>() -> bool {
    forall|r: S, a: S|
        a.finite() && zero::<S>().le(r) && r.le(one()) && zero::<S>().le(a) ==> zero::<S>().le(
            #[trigger] r.mul(a),
        ) && r.mul(a).le(a)
}

/// Where the numbers are ordered, clamping leads between the bounds, if the bounds and the
/// number compare.
pub proof fn clamping_stays_in_bounds<S: Scalar>(a: S, low: S, high: S)
    requires
        ordered::<S>(),
        low.le(low),
        high.le(high),
        low.le(high),
        a.le(low) || low.le(a),
        a.le(high) || high.le(a),
    ensures
        low.le(clamped(a, low, high)),
        clamped(a, low, high).le(high),
{
}

pub fn smaller<S: Scalar>(a: S, b: S) -> (r: S)
    ensures
        r == smaller_of(a, b),
{
    if b.below(a) || !a.equals(a) {
        b
    } else {
        a
    }
}

pub fn larger<S: Scalar>(a: S, b: S) -> (r: S)
    ensures
        r == larger_of(a, b),
{
    if a.below(b) || !a.equals(a) {
        b
    } else {
        a
    }
}

pub fn magnitude<S: Scalar>(a: S) -> (r: S)
    ensures
        r == magnitude_of(a),
{
    if a.below(S::ratio(0, 1)) {
        a.negated()
    } else {
        a
    }
}

pub fn clamp<S: Scalar>(a: S, low: S, high: S) -> (r: S)
    ensures
        r == clamped(a, low, high),
{
    if a.below(low) {
        low
    } else if high.below(a) {
        high
    } else {
        a
    }
}

} // verus!
