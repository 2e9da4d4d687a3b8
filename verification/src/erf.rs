//! What holds of the error function.

use crate::fixed;
use crate::fixed::{Fixed, UNIT};
use crate::scalar;
use crate::scalar::Scalar;
use crate::terrain_data;
use vstd::prelude::*;

verus! {

/// Whether a number lies strictly between the bounds of all numbers.
pub open spec fn inside_bounds<S: Scalar>(a: S) -> bool {
    S::bottom().lt(a) && a.lt(S::top())
}

/// Whether a change of sign is exact inside the bounds: it undoes itself, and is what a
/// product with minus one gives.
pub open spec fn exact_signs<S: Scalar>() -> bool {
    &&& forall|a: S| inside_bounds(a) ==> #[trigger] a.neg().neg() == a
    &&& forall|a: S|
        inside_bounds(a) ==> #[trigger] S::ratio_of((-1) as i64, 1).mul(a) == scalar::one::<
            S,
        >().mul(a).neg()
}

/// Where signs are exact, the error function of a number below zero is that of the number
/// without its sign, with the sign changed, as long as the values lie inside the bounds.
pub proof fn error_function_is_odd<S: Scalar>(x: S)
    requires
        exact_signs::<S>(),
        x.lt(scalar::zero()),
        !x.neg().lt(scalar::zero()),
        inside_bounds(scalar::one::<S>().sub(terrain_data::error_tail(x.neg()))),
        inside_bounds(terrain_data::error_function(x.neg())),
    ensures
        terrain_data::error_function(x) == terrain_data::error_function(x.neg()).neg(),
        terrain_data::error_function(x.neg()) == terrain_data::error_function(x).neg(),
{
    let size = scalar::one::<S>().sub(terrain_data::error_tail(x.neg()));
    assert(terrain_data::error_function(x.neg()) == scalar::one::<S>().mul(size));
    assert(terrain_data::error_function(x) == S::ratio_of((-1) as i64, 1).mul(size));
}

/// Fixed-point signs are exact.
pub proof fn fixed_signs_are_exact()
    ensures
        exact_signs::<Fixed>(),
{
    assert(Fixed::ratio_of(1, 1).raw == 65536);
    assert(Fixed::ratio_of((-1) as i64, 1).raw == -65536);
    assert forall|a: Fixed| inside_bounds(a) implies #[trigger] Fixed::ratio_of(
        (-1) as i64,
        1,
    ).mul(a) == scalar::one::<Fixed>().mul(a).neg() by {
        let n = a.raw as int;
        assert(fixed::toward_zero(65536 * n, 65536) == n);
        assert(fixed::toward_zero(-65536 * n, 65536) == -n);
    }
}

/// A product with a number between zero and one keeps its sign, gets no larger, and is cut
/// by less than a step.
proof fn lemma_share(a: Fixed, t: Fixed)
    requires
        -0x1_0000_0000 <= a.raw <= 0x1_0000_0000,
        0 <= t.raw <= UNIT,
    ensures
        a.raw >= 0 ==> 0 <= a.mul(t).raw <= a.raw,
        a.raw >= 0 ==> a.mul(t).raw * UNIT <= a.raw * t.raw < a.mul(t).raw * UNIT + UNIT,
        a.raw <= 0 ==> a.raw <= a.mul(t).raw <= 0,
        a.raw <= 0 ==> a.mul(t).raw * UNIT - UNIT < a.raw * t.raw <= a.mul(t).raw * UNIT,
{
    let size = if a.raw >= 0 {
        a.raw as int
    } else {
        -(a.raw as int)
    };
    let n = size * t.raw;
    assert(0 <= n <= size * 65536) by (nonlinear_arith)
        requires
            n == size * t.raw,
            0 <= size,
            0 <= t.raw <= 65536,
    ;
    assert(0 <= n / 65536 <= size);
    if a.raw < 0 {
        assert(a.raw * t.raw == -n) by (nonlinear_arith)
            requires
                n == size * t.raw,
                size == -(a.raw as int),
        ;
    }
}

/// A product with one is the number itself.
proof fn lemma_signed(v: Fixed)
    requires
        -0x1_0000_0000 <= v.raw <= 0x1_0000_0000,
    ensures
        Fixed::ratio_of(1, 1).mul(v) == v,
        Fixed::ratio_of((-1) as i64, 1).mul(v) == v.neg(),
{
    assert(Fixed::ratio_of(1, 1).raw == 65536);
    assert(Fixed::ratio_of((-1) as i64, 1).raw == -65536);
    let n = v.raw as int;
    assert(fixed::toward_zero(65536 * n, 65536) == n);
    assert(fixed::toward_zero(-65536 * n, 65536) == -n);
}

proof fn lemma_squares_shrink(a: Fixed, k: nat)
    requires
        0 <= a.raw <= UNIT,
    ensures
        0 <= fixed::squared_over(a, k).raw <= UNIT,
    decreases k,
{
    if k > 0 {
        lemma_share(a, a);
        lemma_squares_shrink(a.mul(a), (k - 1) as nat);
    }
}

/// The exponential of a number that is not above zero lies between zero and one.
pub proof fn fixed_decay_is_bounded(a: Fixed)
    requires
        a.raw <= 0,
    ensures
        0 <= a.exponential().raw <= UNIT,
{
    let base = Fixed { raw: UNIT }.add(fixed::part(a, 1024));
    let size = -(a.raw as int);
    assert(0 <= size / 1024 <= 0x20_0000_0000_0000);
    assert(base.raw == 65536 - size / 1024);
    if base.raw >= 0 {
        lemma_squares_shrink(base, 10);
    }
}

proof fn lemma_square_below(a: Fixed, bound: int, next: int)
    requires
        0 <= a.raw <= bound <= UNIT,
        bound * bound <= next * UNIT + UNIT - 1,
    ensures
        0 <= a.mul(a).raw <= next,
{
    lemma_share(a, a);
    let r = a.mul(a).raw as int;
    assert(a.raw * a.raw <= bound * bound) by (nonlinear_arith)
        requires
            0 <= a.raw <= bound,
    ;
}

proof fn lemma_decay_levels_off(a: Fixed)
    requires
        a.raw <= -25 * UNIT,
    ensures
        a.exponential().raw == 0,
{
    let base = Fixed { raw: UNIT }.add(fixed::part(a, 1024));
    let size = -(a.raw as int);
    assert(1600 <= size / 1024 <= 0x20_0000_0000_0000);
    assert(base.raw == 65536 - size / 1024);
    if base.raw > 0 {
        let b1 = base.mul(base);
        let b2 = b1.mul(b1);
        let b3 = b2.mul(b2);
        let b4 = b3.mul(b3);
        let b5 = b4.mul(b4);
        let b6 = b5.mul(b5);
        let b7 = b6.mul(b6);
        let b8 = b7.mul(b7);
        let b9 = b8.mul(b8);
        lemma_square_below(base, 63936, 62375);
        lemma_square_below(b1, 62375, 59366);
        lemma_square_below(b2, 59366, 53776);
        lemma_square_below(b3, 53776, 44126);
        lemma_square_below(b4, 44126, 29710);
        lemma_square_below(b5, 29710, 13468);
        lemma_square_below(b6, 13468, 2767);
        lemma_square_below(b7, 2767, 116);
        lemma_square_below(b8, 116, 0);
        lemma_square_below(b9, 0, 0);
        reveal_with_fuel(fixed::squared_over, 11);
    }
}

/// The weight of the tail in the formula for a number that is not negative.
spec fn tail(a: Fixed) -> Fixed {
    let one = scalar::one::<Fixed>();
    let t = one.div(one.add(Fixed::ratio_of(3275911, 10000000).mul(a)));
    let polynomial = Fixed::ratio_of(1061405429, 1000000000).mul(t).sub(
        Fixed::ratio_of(1453152027, 1000000000),
    ).mul(t).add(Fixed::ratio_of(1421413741, 1000000000)).mul(t).sub(
        Fixed::ratio_of(284496736, 1000000000),
    ).mul(t).add(Fixed::ratio_of(254829592, 1000000000));
    polynomial.mul(t)
}

proof fn lemma_polynomial(t: Fixed)
    requires
        0 <= t.raw <= UNIT,
    ensures
        ({
            let polynomial = Fixed::ratio_of(1061405429, 1000000000).mul(t).sub(
                Fixed::ratio_of(1453152027, 1000000000),
            ).mul(t).add(Fixed::ratio_of(1421413741, 1000000000)).mul(t).sub(
                Fixed::ratio_of(284496736, 1000000000),
            ).mul(t).add(Fixed::ratio_of(254829592, 1000000000));
            0 <= polynomial.mul(t).raw <= 91209
        }),
{
    let c5 = Fixed::ratio_of(1061405429, 1000000000);
    let c4 = Fixed::ratio_of(1453152027, 1000000000);
    let c3 = Fixed::ratio_of(1421413741, 1000000000);
    let c2 = Fixed::ratio_of(284496736, 1000000000);
    let c1 = Fixed::ratio_of(254829592, 1000000000);
    assert(c5.raw == 69560);
    assert(c4.raw == 95233);
    assert(c3.raw == 93153);
    assert(c2.raw == 18644);
    assert(c1.raw == 16700);
    let u = t.raw as int;
    let m1 = c5.mul(t);
    lemma_share(c5, t);
    let a1 = m1.sub(c4);
    assert(a1.raw == m1.raw - 95233);
    let m2 = a1.mul(t);
    lemma_share(a1, t);
    assert(m2.raw >= -32600) by {
        let r = m1.raw as int;
        let p = m2.raw as int;
        assert(p * 65536 * 65536 >= 69560 * u * u - 95234 * 65536 * u) by (nonlinear_arith)
            requires
                p * 65536 >= (r - 95233) * u,
                r * 65536 + 65536 >= 69560 * u,
                0 <= u,
        ;
        assert((u - 44862) * (u - 44862) >= 0) by (nonlinear_arith);
        assert(69560 * u * u - 95234 * 65536 * u >= -32600 * 65536 * 65536) by (nonlinear_arith)
            requires
                0 <= u <= 65536,
                (u - 44862) * (u - 44862) >= 0,
        ;
    }
    let a2 = m2.add(c3);
    assert(a2.raw == m2.raw + 93153);
    let m3 = a2.mul(t);
    lemma_share(a2, t);
    let a3 = m3.sub(c2);
    assert(a3.raw == m3.raw - 18644);
    let m4 = a3.mul(t);
    lemma_share(a3, t);
    assert(m4.raw >= -1440) by {
        if a3.raw < 0 {
            let q = a2.raw as int;
            let r = m3.raw as int;
            let p = m4.raw as int;
            assert(p * 65536 * 65536 >= 60553 * u * u - 18645 * 65536 * u) by (nonlinear_arith)
                requires
                    p * 65536 >= (r - 18644) * u,
                    r * 65536 + 65536 >= q * u,
                    q >= 60553,
                    0 <= u,
            ;
            assert((u - 10090) * (u - 10090) >= 0) by (nonlinear_arith);
            assert(60553 * u * u - 18645 * 65536 * u >= -1440 * 65536 * 65536)
                by (nonlinear_arith)
                requires
                    0 <= u <= 65536,
                    (u - 10090) * (u - 10090) >= 0,
            ;
        }
    }
    let a4 = m4.add(c1);
    assert(a4.raw == m4.raw + 16700);
    lemma_share(a4, t);
}

proof fn lemma_tail(a: Fixed)
    requires
        0 <= a.raw,
    ensures
        0 <= tail(a).raw <= 91209,
{
    let one = scalar::one::<Fixed>();
    let slope = Fixed::ratio_of(3275911, 10000000);
    assert(one.raw == 65536);
    assert(slope.raw == 21469);
    let n = a.raw as int;
    assert(0 <= (21469 * n) / 65536 <= 0x3000_0000_0000_0000);
    assert(slope.mul(a).raw == (21469 * n) / 65536);
    let d = one.add(slope.mul(a));
    assert(d.raw >= 65536);
    let below = d.raw as int;
    assert(0 <= (65536int * 65536int) / below <= 65536) by (nonlinear_arith)
        requires
            below >= 65536,
    ;
    lemma_polynomial(one.div(d));
}

proof fn lemma_taken(a: Fixed)
    requires
        0 <= a.raw,
    ensures
        0 <= terrain_data::error_tail(a).raw <= 91209,
        a.raw >= 5 * UNIT ==> terrain_data::error_tail(a).raw == 0,
{
    lemma_tail(a);
    let n = a.raw as int;
    assert(a.neg().raw == -n);
    assert(n * n >= 0) by (nonlinear_arith);
    assert(-n * n == -(n * n)) by (nonlinear_arith);
    let power = a.neg().mul(a);
    assert(power.raw <= 0);
    fixed_decay_is_bounded(power);
    lemma_share(tail(a), power.exponential());
    if n >= 5 * 65536 {
        assert(n * n >= 25 * 65536 * 65536) by (nonlinear_arith)
            requires
                n >= 5 * 65536,
        ;
        lemma_decay_levels_off(power);
        assert(tail(a).raw * power.exponential().raw == 0) by (nonlinear_arith)
            requires
                power.exponential().raw == 0,
        ;
    }
}

proof fn lemma_formula(x: Fixed)
    requires
        x.raw > i64::MIN,
    ensures
        ({
            let a = scalar::magnitude_of(x);
            let size = scalar::one::<Fixed>().sub(terrain_data::error_tail(a));
            &&& a.raw == if x.raw < 0 { -x.raw } else { x.raw as int }
            &&& size.raw == 65536 - terrain_data::error_tail(a).raw
            &&& -25673 <= size.raw <= 65536
            &&& terrain_data::error_function(x) == if x.raw < 0 {
                size.neg()
            } else {
                size
            }
        }),
{
    let a = scalar::magnitude_of(x);
    assert(scalar::zero::<Fixed>().raw == 0);
    assert(scalar::one::<Fixed>().raw == 65536);
    lemma_taken(a);
    lemma_signed(scalar::one::<Fixed>().sub(terrain_data::error_tail(a)));
}

/// In fixed-point numbers the error function lies between minus one and one. (The least
/// number of all has no magnitude.)
pub proof fn fixed_error_function_is_bounded(x: Fixed)
    requires
        x.raw > i64::MIN,
    ensures
        -UNIT <= terrain_data::error_function(x).raw <= UNIT,
{
    lemma_formula(x);
}

/// In fixed-point numbers the error function is odd, but at zero, where the formula leaves a
/// rest.
pub proof fn fixed_error_function_is_odd(x: Fixed)
    requires
        x.raw > i64::MIN,
        x.raw != 0,
    ensures
        terrain_data::error_function(x.neg()) == terrain_data::error_function(x).neg(),
{
    lemma_formula(x);
    lemma_formula(x.neg());
}

/// In fixed-point numbers the error function is one from five on.
pub proof fn fixed_error_function_levels_off(x: Fixed)
    requires
        x.raw >= 5 * UNIT,
    ensures
        terrain_data::error_function(x).raw == UNIT,
{
    lemma_formula(x);
    lemma_taken(x);
}

} // verus!
