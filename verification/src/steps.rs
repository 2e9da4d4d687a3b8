//! What the steps of a drop do, in steps of fixed-point numbers.

use crate::balance;
use crate::cell::Cell;
use crate::config::ErosionParams;
use crate::erosion::Drop;
use crate::fixed;
use crate::fixed::{Fixed, UNIT};
use crate::scalar;
use crate::scalar::Scalar;
use crate::slopes;
use crate::terrain_data::TerrainModel;
use crate::vector::{Vec2, Vec3};
use vstd::prelude::*;

verus! {

// ---- signs ----

proof fn lemma_product_sign(a: Fixed, b: Fixed)
    ensures
        a.raw * b.raw >= 0 ==> a.mul(b).raw >= 0,
        a.raw * b.raw <= 0 ==> a.mul(b).raw <= 0,
{
}

pub proof fn lemma_quotient_sign(a: Fixed, b: Fixed)
    requires
        b.raw > 0,
    ensures
        a.raw >= 0 ==> a.div(b).raw >= 0,
        a.raw <= 0 ==> a.div(b).raw <= 0,
{
    let n = a.raw * 65536;
    let d = b.raw as int;
    let size = balance::absolute(n);
    assert(size / d >= 0) by (nonlinear_arith)
        requires
            size >= 0,
            d > 0,
    ;
}

/// A product has the sign that its factors give it.
proof fn lemma_signs(a: int, b: int)
    ensures
        a >= 0 && b >= 0 ==> a * b >= 0,
        a <= 0 && b <= 0 ==> a * b >= 0,
        a >= 0 && b <= 0 ==> a * b <= 0,
        a <= 0 && b >= 0 ==> a * b <= 0,
{
    assert(a >= 0 && b >= 0 ==> a * b >= 0) by (nonlinear_arith);
    assert(a <= 0 && b <= 0 ==> a * b >= 0) by (nonlinear_arith);
    assert(a >= 0 && b <= 0 ==> a * b <= 0) by (nonlinear_arith);
    assert(a <= 0 && b >= 0 ==> a * b <= 0) by (nonlinear_arith);
}

/// A number times a number that is not negative keeps its side of zero.
pub proof fn lemma_scaled_sign(a: Fixed, k: Fixed)
    requires
        k.raw >= 0,
    ensures
        a.raw >= 0 ==> a.mul(k).raw >= 0,
        a.raw <= 0 ==> a.mul(k).raw <= 0,
{
    lemma_signs(a.raw as int, k.raw as int);
    lemma_product_sign(a, k);
}

/// A number times a number that is not positive changes its side of zero.
proof fn lemma_turned_sign(a: Fixed, k: Fixed)
    requires
        k.raw <= 0,
    ensures
        a.raw >= 0 ==> a.mul(k).raw <= 0,
        a.raw <= 0 ==> a.mul(k).raw >= 0,
{
    lemma_signs(a.raw as int, k.raw as int);
    lemma_product_sign(a, k);
}

/// A number that is not negative, times another, lies on the side of that other.
pub proof fn lemma_turnable(a: Fixed, b: Fixed)
    requires
        a.raw >= 0,
    ensures
        b.raw >= 0 ==> a.mul(b).raw >= 0,
        b.raw <= 0 ==> a.mul(b).raw <= 0,
{
    lemma_signs(a.raw as int, b.raw as int);
    lemma_product_sign(a, b);
}

/// The square of a number that is not large fits.
pub proof fn lemma_square_fits(a: Fixed)
    requires
        -0x1_0000_0000 <= a.raw <= 0x1_0000_0000,
    ensures
        0 <= a.mul(a).raw <= 0x1_0000_0000_0000,
{
    let x = a.raw as int;
    assert(0 <= x * x <= 0x1_0000_0000_0000_0000) by (nonlinear_arith)
        requires
            -0x1_0000_0000 <= x <= 0x1_0000_0000,
    ;
}

/// The reciprocal of a length is not large.
pub proof fn lemma_reciprocal_is_small(length: Fixed)
    requires
        length.raw >= 0,
    ensures
        0 <= scalar::one::<Fixed>().div(length).raw <= 0x1_0000_0000,
{
    assert(scalar::one::<Fixed>().raw == 65536);
    let n = length.raw as int;
    if n > 0 {
        assert(0 <= 0x1_0000_0000int / n <= 0x1_0000_0000) by (nonlinear_arith)
            requires
                n > 0,
        ;
    }
}

/// The product of two numbers that are not large fits.
pub proof fn lemma_medium_product(a: Fixed, b: Fixed)
    requires
        -0x1_0000_0000 <= a.raw <= 0x1_0000_0000,
        0 <= b.raw <= 0x1_0000_0000,
    ensures
        a.mul(b).raw == fixed::toward_zero(a.raw * b.raw, UNIT as int),
{
    lemma_small_product(a, b);
}

/// Whether `b` lies on the side of zero on which `a` does, if not at zero.
pub open spec fn follows(b: Fixed, a: Fixed) -> bool {
    (a.raw >= 0 ==> b.raw >= 0) && (a.raw <= 0 ==> b.raw <= 0)
}

/// Whether `b` lies on the other side of zero than `a`, if not at zero.
pub open spec fn opposes(b: Fixed, a: Fixed) -> bool {
    (a.raw >= 0 ==> b.raw <= 0) && (a.raw <= 0 ==> b.raw >= 0)
}

/// Whether two numbers lie on one side of zero, or one of them is zero.
pub open spec fn one_side(a: Fixed, b: Fixed) -> bool {
    (a.raw >= 0 && b.raw >= 0) || (a.raw <= 0 && b.raw <= 0)
}

/// Whether two numbers lie on different sides of zero, or one of them is zero.
pub open spec fn two_sides(a: Fixed, b: Fixed) -> bool {
    (a.raw >= 0 && b.raw <= 0) || (a.raw <= 0 && b.raw >= 0)
}

// ---- lengths ----

/// What is known of the length of a vector that has one.
proof fn lemma_length(v: Vec2<Fixed>) -> (inner: int)
    requires
        v.is_long(),
    ensures
        inner == v.inner(v).raw,
        inner == v.x.mul(v.x).raw + v.y.mul(v.y).raw,
        inner > 0,
        v.x.mul(v.x).raw >= 0,
        v.y.mul(v.y).raw >= 0,
        fixed::is_whole_root(inner * UNIT, v.norm().raw as int),
        v.norm().raw >= 256,
{
    assert(scalar::zero::<Fixed>().raw == 0);
    lemma_signs(v.x.raw as int, v.x.raw as int);
    lemma_signs(v.y.raw as int, v.y.raw as int);
    lemma_product_sign(v.x, v.x);
    lemma_product_sign(v.y, v.y);
    let inner = v.inner(v).raw as int;
    let n = inner * UNIT;
    assert(inner > 0);
    let root = lemma_root_exists(n);
    assert(fixed::is_whole_root(n, root));
    assert(fixed::is_whole_root(n, fixed::whole_root(n)));
    let r = fixed::whole_root(n);
    assert(r < 0x100_0000_0000) by (nonlinear_arith)
        requires
            r * r <= n,
            0 <= r,
            n < 0x1_0000_0000_0000_0000_0000,
    ;
    assert(r >= 256) by (nonlinear_arith)
        requires
            0 <= r,
            n >= 65536,
            n < (r + 1) * (r + 1),
    ;
    inner
}

proof fn lemma_root_exists(n: int) -> (r: int)
    requires
        0 <= n,
    ensures
        fixed::is_whole_root(n, r),
    decreases n,
{
    if n == 0 {
        assert(fixed::is_whole_root(0, 0));
        0
    } else {
        let r = lemma_root_exists(n - 1);
        if n < (r + 1) * (r + 1) {
            r
        } else {
            let s = r + 1;
            assert(n < (s + 1) * (s + 1)) by (nonlinear_arith)
                requires
                    n - 1 < s * s,
                    1 <= s,
            ;
            s
        }
    }
}

/// Brought to length one, each part of a vector stays on its side of zero, and within two.
proof fn lemma_direction(v: Vec2<Fixed>)
    requires
        v.is_long(),
    ensures
        follows(v.direction().x, v.x),
        follows(v.direction().y, v.y),
        -2 * UNIT <= v.direction().x.raw <= 2 * UNIT,
        -2 * UNIT <= v.direction().y.raw <= 2 * UNIT,
{
    let inner = lemma_length(v);
    assert(scalar::one::<Fixed>().raw == 65536);
    let norm = v.norm();
    let recip = scalar::one::<Fixed>().div(norm);
    let n = norm.raw as int;
    lemma_quotient_sign(scalar::one::<Fixed>(), norm);
    lemma_scaled_sign(v.x, recip);
    lemma_scaled_sign(v.y, recip);
    let r = recip.raw as int;
    assert(0 <= 0x1_0000_0000int / n <= 0x1_0000_0000) by (nonlinear_arith)
        requires
            n >= 256,
    ;
    assert(r == 0x1_0000_0000int / n);
    assert(r * n <= 0x1_0000_0000) by (nonlinear_arith)
        requires
            r == 0x1_0000_0000int / n,
            n > 0,
    ;
    lemma_part_in_direction(v.x, v.x.mul(v.x).raw as int, inner, n, recip);
    lemma_part_in_direction(v.y, v.y.mul(v.y).raw as int, inner, n, recip);
}

proof fn lemma_part_in_direction(a: Fixed, square: int, inner: int, n: int, recip: Fixed)
    requires
        square == a.mul(a).raw,
        0 <= square <= inner <= i64::MAX,
        inner > 0,
        n >= 256,
        fixed::is_whole_root(inner * UNIT, n),
        0 <= recip.raw,
        recip.raw * n <= 0x1_0000_0000,
    ensures
        -2 * UNIT <= a.mul(recip).raw <= 2 * UNIT,
{
    let x = a.raw as int;
    let size = balance::absolute(x);
    let r = recip.raw as int;
    assert(x * x == size * size) by (nonlinear_arith)
        requires
            size == x || size == -x,
    ;
    assert(x * x >= 0) by (nonlinear_arith);
    if (x * x) / 65536 <= i64::MAX {
        assert(square == (x * x) / 65536);
        assert(x * x < (inner + 1) * 65536);
        assert(size < 2 * n) by (nonlinear_arith)
            requires
                size * size < (inner + 1) * 65536,
                inner * 65536 < (n + 1) * (n + 1),
                inner >= 1,
                n >= 256,
                0 <= size,
        ;
        assert(size * r <= 2 * 0x1_0000_0000) by (nonlinear_arith)
            requires
                0 <= size < 2 * n,
                0 <= r,
                r * n <= 0x1_0000_0000,
        ;
    } else {
        assert(square == i64::MAX);
        assert(n > 0x1_0000_0000) by (nonlinear_arith)
            requires
                0x7fff_ffff_ffff_ffff * 65536 < (n + 1) * (n + 1),
                n >= 256,
        ;
        assert(r == 0) by (nonlinear_arith)
            requires
                r >= 0,
                r * n <= 0x1_0000_0000,
                n > 0x1_0000_0000,
        ;
        assert(size * r == 0) by (nonlinear_arith)
            requires
                r == 0,
        ;
    }
    assert(x * r == size * r || x * r == -(size * r)) by (nonlinear_arith)
        requires
            size == x || size == -x,
    ;
    lemma_signs(size, r);
}

/// A root is never negative.
pub proof fn lemma_root_sign(a: Fixed)
    ensures
        a.square_root().raw >= 0,
{
    if a.raw > 0 {
        let n = a.raw * UNIT;
        let root = lemma_root_exists(n);
        assert(fixed::is_whole_root(n, fixed::whole_root(n)));
        let r = fixed::whole_root(n);
        assert(r < 0x100_0000_0000) by (nonlinear_arith)
            requires
                r * r <= n,
                0 <= r,
                n < 0x1_0000_0000_0000_0000_0000,
        ;
    }
}

/// A number times the reciprocal of a length stays on its side of zero.
pub proof fn lemma_reciprocal_keeps_side(a: Fixed, length: Fixed)
    requires
        length.raw >= 0,
    ensures
        scalar::one::<Fixed>().div(length).raw >= 0,
        follows(a.mul(scalar::one::<Fixed>().div(length)), a),
{
    assert(scalar::one::<Fixed>().raw == 65536);
    if length.raw > 0 {
        lemma_quotient_sign(scalar::one::<Fixed>(), length);
    }
    lemma_scaled_sign(a, scalar::one::<Fixed>().div(length));
}

/// The slope at a point leans downhill along both axes: to the side on which the ground is
/// lower, of the two neighbours along that axis. Off the grid the ground counts as level.
pub proof fn slopes_lean_downhill(t: TerrainModel<Fixed>, x: int, z: int)
    requires
        t.wf(),
        !t.outside(x, z),
        forall|i: int|
            0 <= i < t.cells.len() ==> -0x8_0000_0000_0000 <= (
            #[trigger] t.cells[i]).height.raw <= 0x8_0000_0000_0000,
    ensures
        ({
            let s = t.slope(x, z);
            let left = slopes::steps_up(t, x, z, x - 1, z);
            let right = slopes::steps_up(t, x, z, x + 1, z);
            let above = slopes::steps_up(t, x, z, x, z - 1);
            let below = slopes::steps_up(t, x, z, x, z + 1);
            &&& left >= right ==> s.x.raw >= 0
            &&& left <= right ==> s.x.raw <= 0
            &&& above >= below ==> s.z.raw >= 0
            &&& above <= below ==> s.z.raw <= 0
            &&& s.y.raw >= 0
        }),
{
    slopes::normals_face_downhill(t, x, z);
    let n = t.summed_normal(x, z);
    let rows: int = (if z + 1 < t.size { 1int } else { 0 }) + (if z > 0 { 1int } else { 0 });
    let columns: int = (if x + 1 < t.size { 1int } else { 0 }) + (if x > 0 { 1int } else { 0 });
    let across = slopes::steps_up(t, x, z, x - 1, z) - slopes::steps_up(t, x, z, x + 1, z);
    let along = slopes::steps_up(t, x, z, x, z - 1) - slopes::steps_up(t, x, z, x, z + 1);
    lemma_signs(80 * rows, across);
    lemma_signs(80 * columns, along);
    lemma_signs(columns, rows);
    assert(n.x.raw == (80 * rows) * across);
    assert(n.z.raw == (80 * columns) * along);
    lemma_root_sign(n.inner(n));
    lemma_reciprocal_keeps_side(n.x, n.norm());
    lemma_reciprocal_keeps_side(n.y, n.norm());
    lemma_reciprocal_keeps_side(n.z, n.norm());
}

// ---- gravity ----

/// Gravity pulls downhill: along each axis the speed changes towards the side that the slope
/// leans to, or not at all. A drop of volume one under gravity one gains the slope itself.
pub proof fn gravity_pulls_downhill(
    drop: Drop<Fixed>,
    slope: Vec3<Fixed>,
    params: ErosionParams<Fixed>,
)
    requires
        drop.volume.raw > 0,
        params.gravity.raw >= 0,
    ensures
        follows(drop.pulled(slope, params).x.sub(drop.speed.x), slope.x),
        follows(drop.pulled(slope, params).y.sub(drop.speed.y), slope.z),
        drop.volume.raw == UNIT && params.gravity.raw == UNIT && -0x1000_0000_0000_0000
            <= slope.x.raw <= 0x1000_0000_0000_0000 ==> drop.pulled(slope, params).x.sub(
            drop.speed.x,
        ) == slope.x,
        drop.volume.raw == UNIT && params.gravity.raw == UNIT && -0x1000_0000_0000_0000
            <= slope.z.raw <= 0x1000_0000_0000_0000 ==> drop.pulled(slope, params).y.sub(
            drop.speed.y,
        ) == slope.z,
{
    lemma_pull(drop.speed.x, slope.x, params.gravity, drop.volume);
    lemma_pull(drop.speed.y, slope.z, params.gravity, drop.volume);
}

proof fn lemma_pull(speed: Fixed, slope: Fixed, gravity: Fixed, volume: Fixed)
    requires
        volume.raw > 0,
        gravity.raw >= 0,
    ensures
        follows(speed.add(slope.mul(gravity).div(volume)).sub(speed), slope),
        volume.raw == UNIT && gravity.raw == UNIT && -0x1000_0000_0000_0000 <= slope.raw
            <= 0x1000_0000_0000_0000 ==> speed.add(slope.mul(gravity).div(volume)).sub(speed)
            == slope,
{
    lemma_scaled_sign(slope, gravity);
    lemma_quotient_sign(slope.mul(gravity), volume);
    let gain = slope.mul(gravity).div(volume);
    assert(speed.add(gain).sub(speed) == gain);
    if volume.raw == UNIT && gravity.raw == UNIT && -0x1000_0000_0000_0000 <= slope.raw
        <= 0x1000_0000_0000_0000 {
        slopes::lemma_unit_products(slope);
        assert(gravity == (Fixed { raw: UNIT }));
        assert(volume == (Fixed { raw: UNIT }));
        let n = slope.raw as int;
        assert(fixed::toward_zero(n * 65536, 65536) == n);
    }
}

/// The heavier of two drops at one speed is pulled no more than the lighter.
pub proof fn heavier_drops_are_pulled_less(
    light: Drop<Fixed>,
    heavy: Drop<Fixed>,
    slope: Vec3<Fixed>,
    params: ErosionParams<Fixed>,
)
    requires
        0 < light.volume.raw <= heavy.volume.raw,
        params.gravity.raw >= 0,
        slope.x.raw >= 0,
    ensures
        heavy.pulled(slope, params).x.sub(heavy.speed.x).raw <= light.pulled(slope, params).x.sub(
            light.speed.x,
        ).raw,
{
    let force = slope.x.mul(params.gravity);
    lemma_scaled_sign(slope.x, params.gravity);
    let n = force.raw * 65536;
    let v = light.volume.raw as int;
    let w = heavy.volume.raw as int;
    assert(n / w <= n / v) by (nonlinear_arith)
        requires
            n >= 0,
            0 < v <= w,
    ;
    let gain = force.div(light.volume);
    let less = force.div(heavy.volume);
    assert(light.speed.x.add(gain).sub(light.speed.x) == gain);
    assert(heavy.speed.x.add(less).sub(heavy.speed.x) == less);
}

// ---- currents ----

/// A current that runs with a drop speeds it up, and one that runs against it slows it down:
/// where speed and current lie on one side of zero along both axes, the push is on the side
/// of the current; where they lie on different sides along both, it is on the other side.
pub proof fn currents_push_their_way(
    drop: Drop<Fixed>,
    speed: Vec2<Fixed>,
    cell: Cell<Fixed>,
    params: ErosionParams<Fixed>,
)
    requires
        drop.volume.add(cell.discharge).raw > 0,
        params.momentum_transfer.raw >= 0,
    ensures
        ({
            let pushed = drop.pushed(speed, cell, params);
            let push_x = pushed.x.sub(speed.x);
            let push_y = pushed.y.sub(speed.y);
            &&& one_side(cell.momentum_x, speed.x) && one_side(cell.momentum_y, speed.y)
                ==> follows(push_x, cell.momentum_x) && follows(push_y, cell.momentum_y)
            &&& two_sides(cell.momentum_x, speed.x) && two_sides(cell.momentum_y, speed.y)
                ==> opposes(push_x, cell.momentum_x) && opposes(push_y, cell.momentum_y)
        }),
{
    let current = Vec2 { x: cell.momentum_x, y: cell.momentum_y };
    assert(speed.x.sub(speed.x).raw == 0 && speed.y.sub(speed.y).raw == 0);
    if current.is_long() && speed.is_long() {
        lemma_along(current, speed);
        let along = current.direction().inner(speed.direction());
        let weight = drop.volume.add(cell.discharge);
        let k = along.div(weight);
        lemma_quotient_sign(along, weight);
        lemma_push(speed.x, current.x, k, params.momentum_transfer);
        lemma_push(speed.y, current.y, k, params.momentum_transfer);
    }
}

proof fn lemma_along(current: Vec2<Fixed>, speed: Vec2<Fixed>)
    requires
        current.is_long(),
        speed.is_long(),
    ensures
        ({
            let along = current.direction().inner(speed.direction()).raw;
            &&& -8 * UNIT <= along <= 8 * UNIT
            &&& one_side(current.x, speed.x) && one_side(current.y, speed.y) ==> along >= 0
            &&& two_sides(current.x, speed.x) && two_sides(current.y, speed.y) ==> along <= 0
        }),
{
    let c = current.direction();
    let s = speed.direction();
    lemma_direction(current);
    lemma_direction(speed);
    lemma_product_of_two(c.x, s.x);
    lemma_product_of_two(c.y, s.y);
}

proof fn lemma_product_of_two(a: Fixed, b: Fixed)
    requires
        -2 * UNIT <= a.raw <= 2 * UNIT,
        -2 * UNIT <= b.raw <= 2 * UNIT,
    ensures
        -4 * UNIT <= a.mul(b).raw <= 4 * UNIT,
        one_side(a, b) ==> a.mul(b).raw >= 0,
        two_sides(a, b) ==> a.mul(b).raw <= 0,
{
    let x = a.raw as int;
    let y = b.raw as int;
    lemma_signs(x, y);
    lemma_product_sign(a, b);
    assert(-4 * 0x1_0000_0000 <= x * y <= 4 * 0x1_0000_0000) by (nonlinear_arith)
        requires
            -131072 <= x <= 131072,
            -131072 <= y <= 131072,
    ;
}

proof fn lemma_push(speed: Fixed, current: Fixed, k: Fixed, transfer: Fixed)
    requires
        transfer.raw >= 0,
    ensures
        ({
            let push = speed.add(current.mul(k).mul(transfer)).sub(speed);
            &&& push == current.mul(k).mul(transfer)
            &&& k.raw >= 0 ==> follows(push, current)
            &&& k.raw <= 0 ==> opposes(push, current)
        }),
{
    let gain = current.mul(k).mul(transfer);
    assert(speed.add(gain).sub(speed) == gain);
    lemma_scaled_sign(current.mul(k), transfer);
    if k.raw >= 0 {
        lemma_scaled_sign(current, k);
    }
    if k.raw <= 0 {
        lemma_turned_sign(current, k);
    }
}

/// The more water is under way, the less a current that runs with a drop pushes it.
pub proof fn more_water_is_pushed_less(
    drop: Drop<Fixed>,
    speed: Vec2<Fixed>,
    less: Cell<Fixed>,
    more: Cell<Fixed>,
    params: ErosionParams<Fixed>,
)
    requires
        less.momentum_x == more.momentum_x,
        less.momentum_y == more.momentum_y,
        0 < drop.volume.add(less.discharge).raw <= drop.volume.add(more.discharge).raw,
        params.momentum_transfer.raw >= 0,
        one_side(less.momentum_x, speed.x),
        one_side(less.momentum_y, speed.y),
    ensures
        balance::absolute(drop.pushed(speed, more, params).x.sub(speed.x).raw as int)
            <= balance::absolute(drop.pushed(speed, less, params).x.sub(speed.x).raw as int),
        balance::absolute(drop.pushed(speed, more, params).y.sub(speed.y).raw as int)
            <= balance::absolute(drop.pushed(speed, less, params).y.sub(speed.y).raw as int),
{
    let current = Vec2 { x: less.momentum_x, y: less.momentum_y };
    if current.is_long() && speed.is_long() {
        lemma_along(current, speed);
        let along = current.direction().inner(speed.direction());
        let v = drop.volume.add(less.discharge);
        let w = drop.volume.add(more.discharge);
        lemma_quotient_shrinks(along, v, w);
        let k = along.div(v);
        let m = along.div(w);
        lemma_quotient_sign(along, v);
        lemma_quotient_sign(along, w);
        lemma_push(speed.x, current.x, k, params.momentum_transfer);
        lemma_push(speed.y, current.y, k, params.momentum_transfer);
        lemma_push(speed.x, current.x, m, params.momentum_transfer);
        lemma_push(speed.y, current.y, m, params.momentum_transfer);
        lemma_product_grows(current.x, m, k);
        lemma_product_grows(current.y, m, k);
        lemma_product_follows(current.x.mul(m), current.x.mul(k), params.momentum_transfer);
        lemma_product_follows(current.y.mul(m), current.y.mul(k), params.momentum_transfer);
    } else {
        assert(speed.x.sub(speed.x).raw == 0 && speed.y.sub(speed.y).raw == 0);
    }
}

proof fn lemma_quotient_shrinks(a: Fixed, v: Fixed, w: Fixed)
    requires
        a.raw >= 0,
        0 < v.raw <= w.raw,
    ensures
        0 <= a.div(w).raw <= a.div(v).raw,
{
    let n = a.raw * 65536;
    let p = v.raw as int;
    let q = w.raw as int;
    assert(0 <= n / q <= n / p) by (nonlinear_arith)
        requires
            n >= 0,
            0 < p <= q,
    ;
}

proof fn lemma_product_grows(a: Fixed, k: Fixed, m: Fixed)
    requires
        0 <= k.raw <= m.raw,
    ensures
        balance::absolute(a.mul(k).raw as int) <= balance::absolute(a.mul(m).raw as int),
        one_side(a.mul(k), a.mul(m)),
{
    let x = a.raw as int;
    let size = balance::absolute(x);
    let p = k.raw as int;
    let q = m.raw as int;
    assert(0 <= size * p <= size * q) by (nonlinear_arith)
        requires
            0 <= size,
            0 <= p <= q,
    ;
    assert(x * p == size * p || x * p == -(size * p)) by (nonlinear_arith)
        requires
            size == x || size == -x,
    ;
    assert(x * q == size * q || x * q == -(size * q)) by (nonlinear_arith)
        requires
            size == x || size == -x,
    ;
    lemma_scaled_sign(a, k);
    lemma_scaled_sign(a, m);
    lemma_size_of_product(x, p);
    lemma_size_of_product(x, q);
    assert((size * p) / 65536 <= (size * q) / 65536);
}

proof fn lemma_size_of_product(x: int, p: int)
    requires
        0 <= p,
    ensures
        x >= 0 ==> x * p >= 0,
        x < 0 ==> x * p <= 0,
        x < 0 ==> x * p == -(balance::absolute(x) * p),
{
    lemma_signs(x, p);
    assert(x < 0 ==> x * p == -((-x) * p)) by (nonlinear_arith);
}

/// Of two numbers on one side of zero, a product with one factor keeps the order of sizes.
proof fn lemma_product_follows(a: Fixed, b: Fixed, k: Fixed)
    requires
        k.raw >= 0,
        one_side(a, b),
        balance::absolute(a.raw as int) <= balance::absolute(b.raw as int),
    ensures
        balance::absolute(a.mul(k).raw as int) <= balance::absolute(b.mul(k).raw as int),
{
    let x = balance::absolute(a.raw as int);
    let y = balance::absolute(b.raw as int);
    let p = k.raw as int;
    assert(0 <= x * p <= y * p) by (nonlinear_arith)
        requires
            0 <= x <= y,
            0 <= p,
    ;
    lemma_size_of_product(a.raw as int, p);
    lemma_size_of_product(b.raw as int, p);
    assert((x * p) / 65536 <= (y * p) / 65536);
}

// ---- directions, closely ----

proof fn lemma_square_close(p: int, q: int, e: int, b: int)
    requires
        -e <= p - q <= e,
        -b <= q <= b,
    ensures
        -(e * (2 * b + e)) <= p * p - q * q <= e * (2 * b + e),
{
    let d = p - q;
    assert(p * p - q * q == d * (2 * q + d)) by (nonlinear_arith)
        requires
            d == p - q,
    ;
    let f = 2 * q + d;
    assert(-(e * (2 * b + e)) <= d * f <= e * (2 * b + e)) by (nonlinear_arith)
        requires
            -e <= d <= e,
            -(2 * b + e) <= f <= 2 * b + e,
    ;
}

/// A part of a vector, brought to length one.
proof fn lemma_part_is_close(x: int, n: int, r: int, d: int)
    requires
        0x1_0000 <= n <= 0x10_0000,
        -2 * n <= x <= 2 * n,
        r == 0x1_0000_0000int / n,
        d == fixed::toward_zero(x * r, 0x1_0000),
    ensures
        -34 * n <= d * n - x * 0x1_0000 <= 34 * n,
{
    let cut = 0x1_0000_0000 - r * n;
    assert(0 <= cut < n) by (nonlinear_arith)
        requires
            r == 0x1_0000_0000int / n,
            n > 0,
            cut == 0x1_0000_0000 - r * n,
    ;
    let a = x * r;
    let over = d * 65536 - a;
    assert(-65536 < over < 65536);
    let gap = d * n - x * 65536;
    let left = over * n;
    let right = x * cut;
    let square = n * n;
    assert(65536 * gap == left - right) by (nonlinear_arith)
        requires
            gap == d * n - x * 65536,
            left == over * n,
            right == x * cut,
            over == d * 65536 - x * r,
            cut == 0x1_0000_0000 - r * n,
    ;
    assert(-65536 * n <= left <= 65536 * n) by (nonlinear_arith)
        requires
            left == over * n,
            -65536 < over < 65536,
            n > 0,
    ;
    assert(-2 * square <= right <= 2 * square) by (nonlinear_arith)
        requires
            right == x * cut,
            square == n * n,
            -2 * n <= x <= 2 * n,
            0 <= cut < n,
    ;
    assert(square <= 16 * 65536 * n) by (nonlinear_arith)
        requires
            square == n * n,
            0 < n <= 16 * 65536,
    ;
    assert(-34 * n <= gap <= 34 * n) by (nonlinear_arith)
        requires
            65536 * gap == left - right,
            -65536 * n <= left <= 65536 * n,
            -2 * square <= right <= 2 * square,
            square <= 16 * 65536 * n,
            n > 0,
    ;
}

/// Whether `d` is, closely, the part `x` of a vector of length `n` brought to length one.
spec fn is_share(d: int, x: int, n: int) -> bool {
    -34 * n <= d * n - x * 0x1_0000 <= 34 * n
}

/// A vector whose length is neither small nor large, brought to length one.
proof fn lemma_direction_is_close(v: Vec2<Fixed>)
    requires
        v.is_long(),
        UNIT <= v.norm().raw <= 0x10_0000,
    ensures
        ({
            let n = v.norm().raw as int;
            let x = v.x.raw as int;
            let y = v.y.raw as int;
            &&& is_share(v.direction().x.raw as int, x, n)
            &&& is_share(v.direction().y.raw as int, y, n)
            &&& -2 * n <= x <= 2 * n
            &&& -2 * n <= y <= 2 * n
            &&& n * n <= x * x + y * y <= n * n + 5 * n
        }),
{
    let inner = lemma_length(v);
    let n = v.norm().raw as int;
    let x = v.x.raw as int;
    let y = v.y.raw as int;
    assert(scalar::one::<Fixed>().raw == 65536);
    assert(inner * 65536 <= 0x101_0000_0000 * 16) by (nonlinear_arith)
        requires
            inner * 65536 < (n + 1) * (n + 1),
            0 <= n <= 0x10_0000,
    ;
    lemma_square_is_exact(v.x, inner);
    lemma_square_is_exact(v.y, inner);
    assert(x * x + y * y >= inner * 65536 && x * x + y * y < inner * 65536 + 2 * 65536);
    assert(x * x >= 0 && y * y >= 0) by (nonlinear_arith);
    assert(n * n <= x * x + y * y <= n * n + 5 * n) by (nonlinear_arith)
        requires
            n * n <= inner * 65536 < (n + 1) * (n + 1),
            inner * 65536 <= x * x + y * y < inner * 65536 + 2 * 65536,
            n >= 65536,
    ;
    assert(-2 * n <= x <= 2 * n) by (nonlinear_arith)
        requires
            x * x <= n * n + 5 * n,
            n >= 65536,
    ;
    assert(-2 * n <= y <= 2 * n) by (nonlinear_arith)
        requires
            y * y <= n * n + 5 * n,
            n >= 65536,
    ;
    let recip = scalar::one::<Fixed>().div(v.norm());
    assert(0 <= 0x1_0000_0000int / n <= 0x1_0000_0000) by (nonlinear_arith)
        requires
            n > 0,
    ;
    assert(recip.raw == 0x1_0000_0000int / n);
    lemma_small_product(v.x, recip);
    lemma_small_product(v.y, recip);
    lemma_part_is_close(x, n, recip.raw as int, v.direction().x.raw as int);
    lemma_part_is_close(y, n, recip.raw as int, v.direction().y.raw as int);
}

proof fn lemma_square_is_exact(a: Fixed, inner: int)
    requires
        0 <= a.mul(a).raw <= inner <= 0x1_0000_0000_0000,
    ensures
        a.mul(a).raw * UNIT <= a.raw * a.raw < a.mul(a).raw * UNIT + UNIT,
{
    let n = a.raw * a.raw;
    assert(n >= 0) by (nonlinear_arith)
        requires
            n == a.raw * a.raw,
    ;
}

proof fn lemma_small_product(a: Fixed, b: Fixed)
    requires
        -0x1_0000_0000 <= a.raw <= 0x1_0000_0000,
        0 <= b.raw <= 0x1_0000_0000,
    ensures
        a.mul(b).raw == fixed::toward_zero(a.raw * b.raw, UNIT as int),
{
    let x = a.raw as int;
    let y = b.raw as int;
    assert(-0x1_0000_0000_0000_0000 <= x * y <= 0x1_0000_0000_0000_0000) by (nonlinear_arith)
        requires
            -0x1_0000_0000 <= x <= 0x1_0000_0000,
            0 <= y <= 0x1_0000_0000,
    ;
}

// ---- strides ----

/// Whether a vector is as long as a stride, the root of two, within a hundredth.
pub open spec fn is_stride(v: Vec2<Fixed>) -> bool {
    let square = v.x.raw * v.x.raw + v.y.raw * v.y.raw;
    -700 * 0x1_0000 <= square - 2 * 0x1_0000_0000 <= 700 * 0x1_0000
}

/// However fast a drop is, its step is a stride long, and goes the way that the drop was
/// going: along each axis on the same side, and turned from the speed by less than a
/// hundredth. A drop at rest stays. The speed that counts is that after gravity and current.
pub proof fn steps_are_strides(
    drop: Drop<Fixed>,
    slope: Vec3<Fixed>,
    cell: Cell<Fixed>,
    params: ErosionParams<Fixed>,
)
    ensures
        ({
            let speed = drop.pushed(drop.pulled(slope, params), cell, params);
            let step = drop.step_from(slope, cell, params);
            &&& follows(step.x, speed.x)
            &&& follows(step.y, speed.y)
            &&& UNIT <= speed.norm().raw <= 0x10_0000 ==> is_stride(step)
            &&& UNIT <= speed.norm().raw <= 0x10_0000 ==> -300 * speed.norm().raw <= step.x.raw
                * speed.y.raw - step.y.raw * speed.x.raw <= 300 * speed.norm().raw
            &&& !speed.is_long() ==> step == speed
        }),
{
    let speed = drop.pushed(drop.pulled(slope, params), cell, params);
    let step = drop.step_from(slope, cell, params);
    assert(scalar::zero::<Fixed>().raw == 0);
    lemma_stride_length();
    if speed.is_long() {
        let d = speed.direction();
        let stride = crate::erosion::stride::<Fixed>();
        lemma_direction(speed);
        lemma_scaled_sign(d.x, stride);
        lemma_scaled_sign(d.y, stride);
        let n = speed.norm().raw as int;
        if 0x1_0000 <= n <= 0x10_0000 {
            lemma_direction_is_close(speed);
            lemma_unit_length(
                d.x.raw as int,
                d.y.raw as int,
                speed.x.raw as int,
                speed.y.raw as int,
                n,
            );
            lemma_small_product(d.x, stride);
            lemma_small_product(d.y, stride);
            lemma_stride_of_unit(
                d.x.raw as int,
                d.y.raw as int,
                step.x.raw as int,
                step.y.raw as int,
            );
            lemma_stride_is_parallel(
                d.x.raw as int,
                d.y.raw as int,
                speed.x.raw as int,
                speed.y.raw as int,
                n,
                step.x.raw as int,
                step.y.raw as int,
            );
        }
    }
}

proof fn lemma_stride_is_parallel(
    dx: int,
    dy: int,
    x: int,
    y: int,
    n: int,
    sx: int,
    sy: int,
)
    requires
        0x1_0000 <= n <= 0x10_0000,
        is_share(dx, x, n),
        is_share(dy, y, n),
        -2 * n <= x <= 2 * n,
        -2 * n <= y <= 2 * n,
        sx == fixed::toward_zero(dx * 92681, 0x1_0000),
        sy == fixed::toward_zero(dy * 92681, 0x1_0000),
    ensures
        -300 * n <= sx * y - sy * x <= 300 * n,
{
    let ex = dx * n - x * 65536;
    let ey = dy * n - y * 65536;
    let turn = dx * y - dy * x;
    assert(turn * n == ex * y - ey * x) by (nonlinear_arith)
        requires
            turn == dx * y - dy * x,
            ex == dx * n - x * 65536,
            ey == dy * n - y * 65536,
    ;
    lemma_bounded_product(ex, y, 34 * n, 2 * n);
    lemma_bounded_product(ey, x, 34 * n, 2 * n);
    let limit = (34 * n) * (2 * n);
    assert(limit == 68 * n * n) by (nonlinear_arith)
        requires
            limit == (34 * n) * (2 * n),
    ;
    assert(-136 * n <= turn <= 136 * n) by (nonlinear_arith)
        requires
            -2 * limit <= turn * n <= 2 * limit,
            limit == 68 * n * n,
            n > 0,
    ;
    let cx = sx * 65536 - dx * 92681;
    let cy = sy * 65536 - dy * 92681;
    let bend = sx * y - sy * x;
    assert(bend * 65536 == 92681 * turn + cx * y - cy * x) by (nonlinear_arith)
        requires
            bend == sx * y - sy * x,
            turn == dx * y - dy * x,
            cx == sx * 65536 - dx * 92681,
            cy == sy * 65536 - dy * 92681,
    ;
    lemma_bounded_product(cx, y, 65536, 2 * n);
    lemma_bounded_product(cy, x, 65536, 2 * n);
}

proof fn lemma_bounded_product(a: int, b: int, p: int, q: int)
    requires
        -p <= a <= p,
        -q <= b <= q,
    ensures
        -(p * q) <= a * b <= p * q,
{
    assert(-(p * q) <= a * b <= p * q) by (nonlinear_arith)
        requires
            -p <= a <= p,
            -q <= b <= q,
    ;
}

proof fn lemma_stride_length()
    ensures
        crate::erosion::stride::<Fixed>().raw == 92681,
{
    let n = 2 * 0x1_0000_0000int;
    assert(Fixed::ratio_of(2, 1).raw == 131072);
    assert(fixed::is_whole_root(n, 92681));
    assert(fixed::is_whole_root(n, fixed::whole_root(n)));
    fixed::lemma_whole_root_is_unique(n, fixed::whole_root(n), 92681);
}

proof fn lemma_unit_length(dx: int, dy: int, x: int, y: int, n: int)
    requires
        0x1_0000 <= n <= 0x10_0000,
        is_share(dx, x, n),
        is_share(dy, y, n),
        -2 * n <= x <= 2 * n,
        -2 * n <= y <= 2 * n,
        n * n <= x * x + y * y <= n * n + 5 * n,
    ensures
        -300 * 0x1_0000 <= dx * dx + dy * dy - 0x1_0000_0000 <= 300 * 0x1_0000,
{
    let e = 34 * n;
    let b = 2 * n * 65536;
    lemma_square_close(dx * n, x * 65536, e, b);
    lemma_square_close(dy * n, y * 65536, e, b);
    let bound = e * (2 * b + e);
    let s = n * n;
    assert(bound == (136 * 65536 + 1156) * s) by (nonlinear_arith)
        requires
            e == 34 * n,
            b == 2 * n * 65536,
            bound == e * (2 * b + e),
            s == n * n,
    ;
    assert((dx * n) * (dx * n) == dx * dx * s) by (nonlinear_arith)
        requires
            s == n * n,
    ;
    assert((dy * n) * (dy * n) == dy * dy * s) by (nonlinear_arith)
        requires
            s == n * n,
    ;
    assert((x * 65536) * (x * 65536) == x * x * 0x1_0000_0000) by (nonlinear_arith);
    assert((y * 65536) * (y * 65536) == y * y * 0x1_0000_0000) by (nonlinear_arith);
    let sum = dx * dx + dy * dy;
    assert(dx * dx * s + dy * dy * s == sum * s) by (nonlinear_arith)
        requires
            sum == dx * dx + dy * dy,
    ;
    assert(65536 * n <= s) by (nonlinear_arith)
        requires
            s == n * n,
            65536 <= n,
    ;
    assert(sum * s <= 0x1_0000_0000 * (s + 5 * n) + 2 * bound);
    assert(sum * s >= 0x1_0000_0000 * s - 2 * bound);
    let high = 0x1_0000_0000 + 300 * 65536;
    let low = 0x1_0000_0000 - 300 * 65536;
    assert(sum * s <= high * s) by (nonlinear_arith)
        requires
            sum * s <= 0x1_0000_0000 * (s + 5 * n) + 2 * bound,
            bound == (136 * 65536 + 1156) * s,
            0x1_0000 * n <= s,
            high == 0x1_0000_0000 + 300 * 65536,
            s > 0,
    ;
    assert(sum * s >= low * s) by (nonlinear_arith)
        requires
            sum * s >= 0x1_0000_0000 * s - 2 * bound,
            bound == (136 * 65536 + 1156) * s,
            low == 0x1_0000_0000 - 300 * 65536,
            s > 0,
    ;
    assert(low <= sum <= high) by (nonlinear_arith)
        requires
            low * s <= sum * s <= high * s,
            s > 0,
    ;
}

proof fn lemma_stride_of_unit(dx: int, dy: int, x: int, y: int)
    requires
        -2 * 0x1_0000 <= dx <= 2 * 0x1_0000,
        -2 * 0x1_0000 <= dy <= 2 * 0x1_0000,
        -300 * 0x1_0000 <= dx * dx + dy * dy - 0x1_0000_0000 <= 300 * 0x1_0000,
        x == fixed::toward_zero(dx * 92681, 0x1_0000),
        y == fixed::toward_zero(dy * 92681, 0x1_0000),
    ensures
        -700 * 0x1_0000 <= x * x + y * y - 2 * 0x1_0000_0000 <= 700 * 0x1_0000,
{
    lemma_square_close(x * 65536, dx * 92681, 65536, 12147884032);
    lemma_square_close(y * 65536, dy * 92681, 65536, 12147884032);
    assert((x * 65536) * (x * 65536) == x * x * 0x1_0000_0000) by (nonlinear_arith);
    assert((y * 65536) * (y * 65536) == y * y * 0x1_0000_0000) by (nonlinear_arith);
    assert((dx * 92681) * (dx * 92681) == dx * dx * 8589767761) by (nonlinear_arith);
    assert((dy * 92681) * (dy * 92681) == dy * dy * 8589767761) by (nonlinear_arith);
}

// ---- how hard a current pushes ----

/// Where the water weighs one and all momentum is passed on, a current pushes a drop by itself
/// times the cosine between it and the drop's speed: fully along the speed, not at all across
/// it. The lengths of both lie between one and sixteen; the push is exact to a step and half a
/// hundredth of the current.
pub proof fn currents_push_by_the_cosine(
    drop: Drop<Fixed>,
    speed: Vec2<Fixed>,
    cell: Cell<Fixed>,
    params: ErosionParams<Fixed>,
)
    requires
        drop.volume.add(cell.discharge).raw == UNIT,
        params.momentum_transfer.raw == UNIT,
        UNIT <= speed.norm().raw <= 0x10_0000,
        UNIT <= (Vec2 { x: cell.momentum_x, y: cell.momentum_y }).norm().raw <= 0x10_0000,
    ensures
        ({
            let current = Vec2 { x: cell.momentum_x, y: cell.momentum_y };
            let pushed = drop.pushed(speed, cell, params);
            let lengths = current.norm().raw * speed.norm().raw;
            let together = current.x.raw * speed.x.raw + current.y.raw * speed.y.raw;
            &&& is_push(pushed.x.sub(speed.x).raw as int, current.x.raw as int, together, lengths)
            &&& is_push(pushed.y.sub(speed.y).raw as int, current.y.raw as int, together, lengths)
        }),
{
    let current = Vec2 { x: cell.momentum_x, y: cell.momentum_y };
    assert(scalar::zero::<Fixed>().raw == 0);
    lemma_direction_is_close(current);
    lemma_direction_is_close(speed);
    lemma_direction(current);
    lemma_direction(speed);
    let c = current.direction();
    let s = speed.direction();
    let n = current.norm().raw as int;
    let m = speed.norm().raw as int;
    lemma_cosine_part(
        c.x,
        s.x,
        current.x.raw as int,
        speed.x.raw as int,
        n,
        m,
    );
    lemma_cosine_part(
        c.y,
        s.y,
        current.y.raw as int,
        speed.y.raw as int,
        n,
        m,
    );
    let along = c.inner(s);
    lemma_product_of_two(c.x, s.x);
    lemma_product_of_two(c.y, s.y);
    let lengths = n * m;
    assert(lengths > 0) by (nonlinear_arith)
        requires
            lengths == n * m,
            n > 0,
            m > 0,
    ;
    let px = c.x.mul(s.x).raw as int;
    let py = c.y.mul(s.y).raw as int;
    assert(along.raw == px + py);
    let tx = current.x.raw * speed.x.raw;
    let ty = current.y.raw * speed.y.raw;
    let together = tx + ty;
    assert(px * lengths + py * lengths == (px + py) * lengths) by (nonlinear_arith);
    assert(-280 * lengths <= along.raw * lengths - together * 65536 <= 280 * lengths);
    let weight = drop.volume.add(cell.discharge);
    let k = along.div(weight);
    let a = along.raw as int;
    assert(fixed::toward_zero(a * 65536, 65536) == a);
    assert(k.raw == along.raw);
    assert(params.momentum_transfer == (Fixed { raw: UNIT }));
    lemma_push_size(speed.x, current.x, k, params.momentum_transfer, together, lengths);
    lemma_push_size(speed.y, current.y, k, params.momentum_transfer, together, lengths);
}

/// Whether `push` is, closely, `current` times the cosine that `together` over `lengths` is.
pub open spec fn is_push(push: int, current: int, together: int, lengths: int) -> bool {
    let off = 200 * (push * lengths - current * together);
    let limit = lengths * (balance::absolute(current) + 200);
    -limit <= off <= limit
}

proof fn lemma_cosine_part(c: Fixed, s: Fixed, x: int, y: int, n: int, m: int)
    requires
        0x1_0000 <= n <= 0x10_0000,
        0x1_0000 <= m <= 0x10_0000,
        is_share(c.raw as int, x, n),
        is_share(s.raw as int, y, m),
        -2 * n <= x <= 2 * n,
        -2 * m <= y <= 2 * m,
        -2 * UNIT <= c.raw <= 2 * UNIT,
        -2 * UNIT <= s.raw <= 2 * UNIT,
    ensures
        -140 * (n * m) <= c.mul(s).raw * (n * m) - (x * y) * 65536 <= 140 * (n * m),
{
    let cr = c.raw as int;
    let sr = s.raw as int;
    let p = c.mul(s).raw as int;
    lemma_bounded_product(cr, sr, 131072, 131072);
    let cut = cr * sr - p * 65536;
    lemma_product_cut(c, s);
    let e = cr * n - x * 65536;
    let f = sr * m - y * 65536;
    let lengths = n * m;
    assert(lengths > 0) by (nonlinear_arith)
        requires
            lengths == n * m,
            n > 0,
            m > 0,
    ;
    let off = p * lengths - (x * y) * 65536;
    let xf = x * f;
    let ey = e * y;
    let ef = e * f;
    let cl = cut * lengths;
    let a = cr * n;
    let b = sr * m;
    let both = cr * sr;
    assert(a * b == both * lengths) by (nonlinear_arith)
        requires
            a == cr * n,
            b == sr * m,
            both == cr * sr,
            lengths == n * m,
    ;
    assert(both * lengths == 65536 * (p * lengths) + cl) by (nonlinear_arith)
        requires
            both == p * 65536 + cut,
            cl == cut * lengths,
    ;
    assert(a * b == 0x1_0000_0000 * (x * y) + 65536 * xf + 65536 * ey + ef) by (nonlinear_arith)
        requires
            a == x * 65536 + e,
            b == y * 65536 + f,
            xf == x * f,
            ey == e * y,
            ef == e * f,
    ;
    assert(65536 * off == 65536 * xf + 65536 * ey + ef - cl);
    lemma_bounded_product(x, f, 2 * n, 34 * m);
    lemma_bounded_product(e, y, 34 * n, 2 * m);
    lemma_bounded_product(e, f, 34 * n, 34 * m);
    assert((2 * n) * (34 * m) == 68 * lengths) by (nonlinear_arith)
        requires
            lengths == n * m,
    ;
    assert((34 * n) * (2 * m) == 68 * lengths) by (nonlinear_arith)
        requires
            lengths == n * m,
    ;
    assert((34 * n) * (34 * m) == 1156 * lengths) by (nonlinear_arith)
        requires
            lengths == n * m,
    ;
    assert(-65536 * lengths <= cl <= 65536 * lengths) by (nonlinear_arith)
        requires
            cl == cut * lengths,
            -65536 < cut < 65536,
            lengths > 0,
    ;
    assert(-140 * lengths <= off <= 140 * lengths);
}

proof fn lemma_product_cut(a: Fixed, b: Fixed)
    requires
        -0x1000_0000_0000_0000 <= a.raw * b.raw <= 0x1000_0000_0000_0000,
    ensures
        -UNIT < a.raw * b.raw - a.mul(b).raw * UNIT < UNIT,
        -0x1000_0000_0000_0000 <= a.mul(b).raw <= 0x1000_0000_0000_0000,
{
    let n = a.raw * b.raw;
}

proof fn lemma_push_size(
    speed: Fixed,
    current: Fixed,
    k: Fixed,
    transfer: Fixed,
    together: int,
    lengths: int,
)
    requires
        transfer == (Fixed { raw: UNIT }),
        lengths > 0,
        -0x20_0000 <= current.raw <= 0x20_0000,
        -8 * UNIT <= k.raw <= 8 * UNIT,
        -280 * lengths <= k.raw * lengths - together * 65536 <= 280 * lengths,
    ensures
        is_push(
            speed.add(current.mul(k).mul(transfer)).sub(speed).raw as int,
            current.raw as int,
            together,
            lengths,
        ),
{
    lemma_push(speed, current, k, transfer);
    let c = current.raw as int;
    let a = k.raw as int;
    lemma_bounded_product(c, a, 0x20_0000, 0x8_0000);
    let once = current.mul(k);
    slopes::lemma_unit_products(once);
    let push = once.raw as int;
    let cut = c * a - push * 65536;
    lemma_product_cut(current, k);
    let e = a * lengths - together * 65536;
    let off = push * lengths - c * together;
    let ce = c * e;
    let cl = cut * lengths;
    assert(65536 * off == ce - cl) by (nonlinear_arith)
        requires
            off == push * lengths - c * together,
            ce == c * e,
            cl == cut * lengths,
            cut == c * a - push * 65536,
            e == a * lengths - together * 65536,
    ;
    let size = balance::absolute(c);
    lemma_bounded_product(c, e, size, 280 * lengths);
    let sl = size * lengths;
    assert(size * (280 * lengths) == 280 * sl) by (nonlinear_arith)
        requires
            sl == size * lengths,
    ;
    assert(-65536 * lengths <= cl <= 65536 * lengths) by (nonlinear_arith)
        requires
            cl == cut * lengths,
            -65536 < cut < 65536,
            lengths > 0,
    ;
    assert(lengths * (size + 200) == sl + 200 * lengths) by (nonlinear_arith)
        requires
            sl == size * lengths,
    ;
    assert(sl >= 0) by (nonlinear_arith)
        requires
            sl == size * lengths,
            size >= 0,
            lengths > 0,
    ;
}

/// What is passed on scales the push: it is the share `momentum_transfer` of what all of it
/// would be.
pub proof fn transfer_scales_the_push(
    drop: Drop<Fixed>,
    speed: Vec2<Fixed>,
    cell: Cell<Fixed>,
    params: ErosionParams<Fixed>,
    full: ErosionParams<Fixed>,
)
    requires
        params.momentum_transfer.raw >= 0,
        full.momentum_transfer.raw == UNIT,
        balance::absolute(drop.pushed(speed, cell, full).x.sub(speed.x).raw as int)
            <= 0x1000_0000_0000,
    ensures
        drop.pushed(speed, cell, params).x.sub(speed.x) == drop.pushed(speed, cell, full).x.sub(
            speed.x,
        ).mul(params.momentum_transfer),
{
    let current = Vec2 { x: cell.momentum_x, y: cell.momentum_y };
    assert(speed.x.sub(speed.x).raw == 0);
    let weight = drop.volume.add(cell.discharge);
    if current.is_long() && speed.is_long() {
        let k = current.direction().inner(speed.direction()).div(weight);
        lemma_push(speed.x, current.x, k, params.momentum_transfer);
        lemma_push(speed.x, current.x, k, full.momentum_transfer);
        let once = current.x.mul(k);
        assert(full.momentum_transfer == (Fixed { raw: UNIT }));
        let n = once.raw as int;
        assert(fixed::toward_zero(n * 65536, 65536) == n);
        assert(once.mul(full.momentum_transfer) == once);
    } else {
        assert(0 * params.momentum_transfer.raw == 0);
    }
}

// ---- downhill ----

/// A fresh drop on ground that leans along one axis, in a current that runs the way the ground
/// leans, steps that way and not across.
pub proof fn fresh_drops_step_downhill(
    drop: Drop<Fixed>,
    slope: Vec3<Fixed>,
    cell: Cell<Fixed>,
    params: ErosionParams<Fixed>,
)
    requires
        drop == Drop::<Fixed>::fresh(drop.pos),
        UNIT <= params.gravity.raw <= 0x10_0000,
        0 <= params.momentum_transfer.raw <= 0x4_0000,
        0 <= cell.discharge.raw <= 0x1000_0000_0000_0000,
        slope.z.raw == 0,
        256 <= balance::absolute(slope.x.raw as int) <= 2 * UNIT,
        cell.momentum_y.raw == 0,
        -0x10_0000 <= cell.momentum_x.raw <= 0x10_0000,
        one_side(cell.momentum_x, slope.x),
    ensures
        slope.x.raw > 0 ==> drop.step_from(slope, cell, params).x.raw > 0,
        slope.x.raw < 0 ==> drop.step_from(slope, cell, params).x.raw < 0,
        drop.step_from(slope, cell, params).y.raw == 0,
{
    assert(scalar::zero::<Fixed>().raw == 0);
    assert(scalar::one::<Fixed>().raw == 65536);
    let pulled = drop.pulled(slope, params);
    let current = Vec2 { x: cell.momentum_x, y: cell.momentum_y };
    gravity_pulls_downhill(drop, slope, params);
    lemma_strong_pull(slope.x, params.gravity);
    assert(pulled.y.raw == 0) by {
        assert(0 * params.gravity.raw == 0);
        assert(slope.z.mul(params.gravity).raw == 0);
        assert(fixed::toward_zero(0, 65536) == 0);
    }
    currents_push_their_way(drop, pulled, cell, params);
    let speed = drop.pushed(pulled, cell, params);
    let push = speed.x.sub(pulled.x);
    assert(balance::absolute(push.raw as int) <= 0x1000_0000) by {
        assert(pulled.x.sub(pulled.x).raw == 0);
        if current.is_long() && pulled.is_long() {
            lemma_along(current, pulled);
            let along = current.direction().inner(pulled.direction());
            let weight = drop.volume.add(cell.discharge);
            let k = along.div(weight);
            lemma_quotient_sign(along, weight);
            let a = along.raw as int;
            let w = weight.raw as int;
            assert(0 <= a * 65536 && (a * 65536) / w <= a) by (nonlinear_arith)
                requires
                    w >= 65536,
                    0 <= a,
            ;
            assert(0 <= k.raw <= 8 * UNIT);
            lemma_push(pulled.x, current.x, k, params.momentum_transfer);
            let c = current.x.raw as int;
            lemma_bounded_product(c, k.raw as int, 0x10_0000, 0x8_0000);
            let once = current.x.mul(k);
            assert(-0x80_0000 <= once.raw <= 0x80_0000);
            lemma_bounded_product(
                once.raw as int,
                params.momentum_transfer.raw as int,
                0x80_0000,
                0x4_0000,
            );
        }
    }
    assert(speed.x.raw == pulled.x.raw + push.raw);
    assert(speed.y.raw == 0) by {
        if current.is_long() && pulled.is_long() {
            let along = current.direction().inner(pulled.direction());
            let k = along.div(drop.volume.add(cell.discharge));
            assert(0 * k.raw == 0);
            assert(current.y.mul(k).raw == 0);
            assert(0 * params.momentum_transfer.raw == 0);
            assert(current.y.mul(k).mul(params.momentum_transfer).raw == 0);
        }
    }
    lemma_axis_step(speed);
    lemma_stride_length();
    assert(drop.step_from(slope, cell, params) == speed.direction().scale(
        crate::erosion::stride(),
    ));
}

proof fn lemma_strong_pull(slope: Fixed, gravity: Fixed)
    requires
        UNIT <= gravity.raw <= 0x10_0000,
        256 <= balance::absolute(slope.raw as int) <= 2 * UNIT,
    ensures
        ({
            let gain = Fixed { raw: 0 }.add(slope.mul(gravity).div(Fixed { raw: UNIT }));
            &&& 256 <= balance::absolute(gain.raw as int) <= 0x20_0000
            &&& slope.raw > 0 ==> gain.raw > 0
            &&& slope.raw < 0 ==> gain.raw < 0
        }),
{
    let x = slope.raw as int;
    let size = balance::absolute(x);
    let g = gravity.raw as int;
    assert(256 * 65536 <= size * g <= 2 * 65536 * 0x10_0000) by (nonlinear_arith)
        requires
            256 <= size <= 2 * 65536,
            65536 <= g <= 0x10_0000,
    ;
    lemma_size_of_product(x, g);
    let force = slope.mul(gravity);
    let n = force.raw as int;
    assert(fixed::toward_zero(n * 65536, 65536) == n);
}

/// A speed along the first axis leads to a step along it.
proof fn lemma_axis_step(speed: Vec2<Fixed>)
    requires
        256 <= balance::absolute(speed.x.raw as int) <= 0x4000_0000,
        speed.y.raw == 0,
    ensures
        speed.is_long(),
        speed.x.raw > 0 ==> speed.direction().x.mul(Fixed { raw: 92681 }).raw > 0,
        speed.x.raw < 0 ==> speed.direction().x.mul(Fixed { raw: 92681 }).raw < 0,
        speed.direction().y.mul(Fixed { raw: 92681 }).raw == 0,
{
    assert(scalar::zero::<Fixed>().raw == 0);
    assert(scalar::one::<Fixed>().raw == 65536);
    let x = speed.x.raw as int;
    let size = balance::absolute(x);
    assert(x * x == size * size) by (nonlinear_arith)
        requires
            size == x || size == -x,
    ;
    assert(65536 <= size * size <= 0x1000_0000_0000_0000) by (nonlinear_arith)
        requires
            256 <= size <= 0x4000_0000,
    ;
    let inner = speed.inner(speed);
    assert(0 * 0 == 0);
    assert(inner.raw == (x * x) / 65536);
    let n = inner.raw * 65536;
    let root = lemma_root_exists(n);
    assert(fixed::is_whole_root(n, fixed::whole_root(n)));
    let norm = fixed::whole_root(n);
    assert(0 < norm <= size) by (nonlinear_arith)
        requires
            0 <= norm,
            norm * norm <= n < (norm + 1) * (norm + 1),
            n <= size * size,
            n >= 65536,
            size >= 256,
    ;
    assert(speed.norm().raw == norm);
    let recip = scalar::one::<Fixed>().div(speed.norm());
    let r = recip.raw as int;
    assert(r == 0x1_0000_0000int / norm && 4 <= r <= 0x1_0000_0000) by {
        assert(4 <= 0x1_0000_0000int / norm <= 0x1_0000_0000) by (nonlinear_arith)
            requires
                0 < norm <= 0x4000_0000,
        ;
    }
    assert(size * r >= 0x8000_0000) by (nonlinear_arith)
        requires
            r == 0x1_0000_0000int / norm,
            0 < norm <= size,
            norm <= 0x4000_0000,
            r >= 4,
    ;
    lemma_size_of_product(x, r);
    lemma_direction(speed);
    let d = speed.direction().x;
    assert(balance::absolute(d.raw as int) >= 1) by {
        assert((size * r) / 65536 >= 0x8000);
    }
    assert(balance::absolute(d.raw as int) >= 0x8000);
    assert(0 * r == 0);
    assert(speed.direction().y.raw == 0);
    assert(0int * 92681 == 0);
}

} // verus!
