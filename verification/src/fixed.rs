//! Fixed-point numbers, for runs whose sums must be exact and repeatable on any machine.

use crate::random;
use crate::random::draw;
use crate::scalar;
use crate::scalar::Scalar;
use vstd::prelude::*;

verus! {

/// The steps that make up one.
pub const UNIT: i64 = 0x1_0000;

/// A whole number of steps of `1 / UNIT`. Sums wrap at the ends of the range; products and
/// quotients are cut towards zero and held to the range.
#[derive(Clone, Copy, Debug, PartialEq, Eq, Structural)]
pub struct Fixed {
    pub raw: i64,
}

/// `n / d` cut towards zero.
pub open spec fn toward_zero(n: int, d: int) -> int {
    if n >= 0 {
        n / d
    } else {
        -((-n) / d)
    }
}

/// `i` held to the range of `i64`.
pub open spec fn held(i: int) -> i64 {
    if i > i64::MAX {
        i64::MAX
    } else if i < i64::MIN {
        i64::MIN
    } else {
        i as i64
    }
}

/// The whole part of the square root of `n`.
pub open spec fn whole_root(n: int) -> int {
    choose|r: int| is_whole_root(n, r)
}

pub open spec fn is_whole_root(n: int, r: int) -> bool {
    0 <= r && r * r <= n < (r + 1) * (r + 1)
}

/// `a` squared `k` times over.
pub open spec fn squared_over(a: Fixed, k: nat) -> Fixed
    decreases k,
{
    if k == 0 {
        a
    } else {
        squared_over(a.mul(a), (k - 1) as nat)
    }
}

/// One `d`-th of `a`.
pub open spec fn part(a: Fixed, d: int) -> Fixed {
    Fixed { raw: toward_zero(a.raw as int, d) as i64 }
}

fn take_part(a: Fixed, d: i64) -> (r: Fixed)
    requires
        d > 0,
    ensures
        r == part(a, d as int),
{
    proof {
        lemma_parts_are_no_larger(a.raw as int, d as int);
    }
    Fixed { raw: quotient(a.raw as i128, d as i128) }
}

proof fn lemma_parts_are_no_larger(n: int, d: int)
    requires
        d > 0,
    ensures
        n >= 0 ==> 0 <= toward_zero(n, d) <= n,
        n <= 0 ==> n <= toward_zero(n, d) <= 0,
{
    let size = if n >= 0 {
        n
    } else {
        -n
    };
    assert(0 <= size / d <= size) by (nonlinear_arith)
        requires
            size >= 0,
            d > 0,
    ;
}

fn quotient(n: i128, d: i128) -> (r: i64)
    requires
        n > i128::MIN,
        d > 0,
    ensures
        r == held(toward_zero(n as int, d as int)),
{
    let negative: bool = n < 0;
    let size: u128 = if negative {
        (-n) as u128
    } else {
        n as u128
    };
    let q: u128 = size / (d as u128);
    if q > 0x7fff_ffff_ffff_ffff {
        if negative {
            i64::MIN
        } else {
            i64::MAX
        }
    } else {
        let steps: i64 = q as i64;
        if negative {
            -steps
        } else {
            steps
        }
    }
}

/// A number has one whole root.
pub proof fn lemma_whole_root_is_unique(n: int, r: int, s: int)
    requires
        is_whole_root(n, r),
        is_whole_root(n, s),
    ensures
        r == s,
{
    assert(r == s) by (nonlinear_arith)
        requires
            0 <= r,
            0 <= s,
            r * r <= n < (r + 1) * (r + 1),
            s * s <= n < (s + 1) * (s + 1),
    ;
}

fn root_by_halving(n: u128) -> (r: u64)
    requires
        n < 0x1_0000_0000_0000_0000_0000,
    ensures
        r == whole_root(n as int),
        r < 0x100_0000_0000,
{
    let mut low: u128 = 0;
    let mut high: u128 = 0x100_0000_0000;
    while low + 1 < high
        invariant
            low < high <= 0x100_0000_0000,
            low * low <= n < high * high,
        decreases high - low,
    {
        let mid: u128 = low + (high - low) / 2;
        assert(mid * mid < 0x1_0000_0000_0000_0000_0000) by (nonlinear_arith)
            requires
                mid < 0x100_0000_0000,
        ;
        if mid * mid <= n {
            low = mid;
        } else {
            high = mid;
        }
    }
    proof {
        assert(is_whole_root(n as int, low as int));
        lemma_whole_root_is_unique(n as int, low as int, whole_root(n as int));
    }
    low as u64
}

/// The number from zero up to, and not reaching, one that a draw of its steps leads to.
pub fn unit_of_draw(draw: i32) -> (r: Fixed)
    requires
        0 <= draw < UNIT,
    ensures
        r == (Fixed { raw: draw as i64 }),
{
    Fixed { raw: draw as i64 }
}

impl Scalar for Fixed {
    open spec fn ratio_of(num: i64, den: u64) -> Self {
        Fixed { raw: held(toward_zero(num * UNIT, den as int)) }
    }

    open spec fn of_index(i: usize) -> Self {
        Fixed { raw: held(i * UNIT) }
    }

    open spec fn top() -> Self {
        Fixed { raw: i64::MAX }
    }

    open spec fn bottom() -> Self {
        Fixed { raw: i64::MIN }
    }

    open spec fn add(self, other: Self) -> Self {
        Fixed { raw: self.raw.wrapping_add(other.raw) }
    }

    open spec fn sub(self, other: Self) -> Self {
        Fixed { raw: self.raw.wrapping_sub(other.raw) }
    }

    open spec fn mul(self, other: Self) -> Self {
        Fixed { raw: held(toward_zero(self.raw * other.raw, UNIT as int)) }
    }

    /// A quotient by zero is zero.
    open spec fn div(self, other: Self) -> Self {
        Fixed {
            raw: if other.raw == 0 {
                0
            } else if other.raw > 0 {
                held(toward_zero(self.raw * UNIT, other.raw as int))
            } else {
                held(toward_zero(-(self.raw * UNIT), -(other.raw as int)))
            },
        }
    }

    open spec fn neg(self) -> Self {
        Fixed { raw: 0i64.wrapping_sub(self.raw) }
    }

    /// The root of a negative number is zero.
    open spec fn square_root(self) -> Self {
        Fixed {
            raw: if self.raw <= 0 {
                0
            } else {
                whole_root(self.raw * UNIT) as i64
            },
        }
    }

    /// `(1 + a / 1024)` to the power of 1024, or zero where that base is not above zero.
    open spec fn exponential(self) -> Self {
        let base = Fixed { raw: UNIT }.add(part(self, 1024));
        if self.raw < 0 && base.raw <= 0 {
            Fixed { raw: 0 }
        } else {
            squared_over(base, 10)
        }
    }

    /// The first terms of the series, which serve up to a quarter turn either way.
    open spec fn sine(self) -> Self {
        let one = Fixed { raw: UNIT };
        let q = self.mul(self);
        self.mul(one.sub(part(q, 6).mul(one.sub(part(q, 20).mul(one.sub(part(q, 42)))))))
    }

    /// The first terms of the series, which serve up to a quarter turn either way.
    open spec fn cosine(self) -> Self {
        let one = Fixed { raw: UNIT };
        let q = self.mul(self);
        one.sub(
            part(q, 2).mul(
                one.sub(part(q, 12).mul(one.sub(part(q, 30).mul(one.sub(part(q, 56)))))),
            ),
        )
    }

    open spec fn lt(self, other: Self) -> bool {
        self.raw < other.raw
    }

    open spec fn le(self, other: Self) -> bool {
        self.raw <= other.raw
    }

    open spec fn same(self, other: Self) -> bool {
        self.raw == other.raw
    }

    open spec fn finite(self) -> bool {
        true
    }

    open spec fn whole_i32(self) -> i32 {
        let whole = toward_zero(self.raw as int, UNIT as int);
        if whole > i32::MAX {
            i32::MAX
        } else if whole < i32::MIN {
            i32::MIN
        } else {
            whole as i32
        }
    }

    open spec fn whole_usize(self) -> usize {
        let whole = toward_zero(self.raw as int, UNIT as int);
        if whole < 0 {
            0
        } else if whole > usize::MAX {
            usize::MAX
        } else {
            whole as usize
        }
    }

    fn ratio(num: i64, den: u64) -> (r: Self) {
        Fixed { raw: quotient(num as i128 * 0x1_0000, den as i128) }
    }

    fn from_index(i: usize) -> (r: Self) {
        Fixed { raw: quotient(i as i128 * 0x1_0000, 1) }
    }

    fn greatest() -> (r: Self) {
        Fixed { raw: i64::MAX }
    }

    fn least() -> (r: Self) {
        Fixed { raw: i64::MIN }
    }

    fn plus(self, other: Self) -> (r: Self) {
        Fixed { raw: self.raw.wrapping_add(other.raw) }
    }

    fn minus(self, other: Self) -> (r: Self) {
        Fixed { raw: self.raw.wrapping_sub(other.raw) }
    }

    fn times(self, other: Self) -> (r: Self) {
        let a: i128 = self.raw as i128;
        let b: i128 = other.raw as i128;
        assert(-0x4000_0000_0000_0000_0000_0000_0000_0000 <= a * b
            <= 0x4000_0000_0000_0000_0000_0000_0000_0000) by (nonlinear_arith)
            requires
                -0x8000_0000_0000_0000 <= a <= 0x7fff_ffff_ffff_ffff,
                -0x8000_0000_0000_0000 <= b <= 0x7fff_ffff_ffff_ffff,
        ;
        Fixed { raw: quotient(a * b, 0x1_0000) }
    }

    fn over(self, other: Self) -> (r: Self) {
        let a: i128 = self.raw as i128 * 0x1_0000;
        if other.raw == 0 {
            Fixed { raw: 0 }
        } else if other.raw > 0 {
            Fixed { raw: quotient(a, other.raw as i128) }
        } else {
            Fixed { raw: quotient(-a, -(other.raw as i128)) }
        }
    }

    fn negated(self) -> (r: Self) {
        Fixed { raw: 0i64.wrapping_sub(self.raw) }
    }

    fn sqrt(self) -> (r: Self) {
        if self.raw <= 0 {
            Fixed { raw: 0 }
        } else {
            Fixed { raw: root_by_halving(self.raw as u128 * 0x1_0000) as i64 }
        }
    }

    fn exp(self) -> (r: Self) {
        let mut power: Fixed = Fixed { raw: 0x1_0000 }.plus(take_part(self, 1024));
        if self.raw < 0 && power.raw <= 0 {
            return Fixed { raw: 0 };
        }
        let mut left: u32 = 10;
        while left > 0
            invariant
                left <= 10,
                squared_over(power, left as nat) == self.exponential(),
            decreases left,
        {
            power = power.times(power);
            left = left - 1;
        }
        power
    }

    fn sin(self) -> (r: Self) {
        let one: Fixed = Fixed { raw: 0x1_0000 };
        let q: Fixed = self.times(self);
        let inner: Fixed = one.minus(take_part(q, 42));
        let middle: Fixed = one.minus(take_part(q, 20).times(inner));
        self.times(one.minus(take_part(q, 6).times(middle)))
    }

    fn cos(self) -> (r: Self) {
        let one: Fixed = Fixed { raw: 0x1_0000 };
        let q: Fixed = self.times(self);
        let inner: Fixed = one.minus(take_part(q, 56));
        let middle: Fixed = one.minus(take_part(q, 30).times(inner));
        let outer: Fixed = one.minus(take_part(q, 12).times(middle));
        one.minus(take_part(q, 2).times(outer))
    }

    fn below(self, other: Self) -> (r: bool) {
        self.raw < other.raw
    }

    fn at_most(self, other: Self) -> (r: bool) {
        self.raw <= other.raw
    }

    fn equals(self, other: Self) -> (r: bool) {
        self.raw == other.raw
    }

    fn is_finite(self) -> (r: bool) {
        true
    }

    fn to_i32(self) -> (r: i32) {
        let whole: i64 = quotient(self.raw as i128, 0x1_0000);
        if whole > i32::MAX as i64 {
            i32::MAX
        } else if whole < i32::MIN as i64 {
            i32::MIN
        } else {
            whole as i32
        }
    }

    fn to_usize(self) -> (r: usize) {
        let whole: i64 = quotient(self.raw as i128, 0x1_0000);
        if whole < 0 {
            0
        } else if whole as u128 > usize::MAX as u128 {
            usize::MAX
        } else {
            whole as usize
        }
    }

    /// Which number comes is left to chance; [`unit_of_draw`] says what each draw leads to.
    fn random_unit() -> (r: Self)
        ensures
            random::drawn(0, 0x1_0000, r.raw as i32),
    {
        unit_of_draw(draw(0, 0x1_0000))
    }
}

/// Fixed-point sums are exact.
pub proof fn fixed_sums_are_exact()
    ensures
        scalar::exact_sums::<Fixed>(),
{
    reveal(scalar::exact_sums);
    assert(scalar::zero::<Fixed>() == Fixed { raw: 0 });
    assert forall|a: Fixed, b: Fixed, c: Fixed| #[trigger]
        a.add(b).add(c) == a.add(b.add(c)) by {}
}

/// In fixed-point numbers zero vanishes.
pub proof fn fixed_zero_vanishes()
    ensures
        scalar::zero_vanishes::<Fixed>(),
{
    assert(scalar::zero::<Fixed>() == Fixed { raw: 0 });
    assert forall|a: Fixed, b: Fixed| scalar::is_zero(a) && b.finite() implies scalar::is_zero(
        #[trigger] a.mul(b),
    ) by {
        assert(0 * b.raw == 0);
    }
    assert forall|a: Fixed, b: Fixed| a.finite() && scalar::is_zero(b) implies scalar::is_zero(
        #[trigger] a.mul(b),
    ) by {
        assert(a.raw * 0 == 0);
    }
}

/// Fixed-point numbers are all finite and equal to themselves.
pub proof fn fixed_numbers_hold()
    ensures
        scalar::finite_numbers_hold::<Fixed>(),
{
}

/// Any two fixed-point numbers compare.
pub proof fn fixed_numbers_compare()
    ensures
        scalar::numbers_compare::<Fixed>(),
{
}

/// Fixed-point numbers are ordered.
pub proof fn fixed_numbers_are_ordered()
    ensures
        scalar::ordered::<Fixed>(),
{
}

} // verus!
