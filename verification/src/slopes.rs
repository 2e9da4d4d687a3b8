//! What normals, slides and averages do, in steps of fixed-point numbers.

use crate::balance;
use crate::cell::Cell;
use crate::config;
use crate::config::ErosionParams;
use crate::fixed;
use crate::fixed::{Fixed, UNIT};
use crate::neighbors;
use crate::neighbors::NEIGHBORS;
use crate::scalar;
use crate::scalar::Scalar;
use crate::terrain_data;
use crate::terrain_data::TerrainModel;
use vstd::prelude::*;

verus! {

// ---- products ----

/// Products with one, minus one and zero.
pub proof fn lemma_unit_products(a: Fixed)
    requires
        -0x1000_0000_0000_0000 <= a.raw <= 0x1000_0000_0000_0000,
    ensures
        a.mul(Fixed { raw: UNIT }) == a,
        (Fixed { raw: UNIT }).mul(a) == a,
        a.mul(Fixed { raw: (-UNIT) as i64 }).raw == -a.raw,
        (Fixed { raw: (-UNIT) as i64 }).mul(a).raw == -a.raw,
        a.mul(Fixed { raw: 0 }).raw == 0,
        (Fixed { raw: 0 }).mul(a).raw == 0,
{
    let n = a.raw as int;
    assert(fixed::toward_zero(n * 65536, 65536) == n);
    assert(fixed::toward_zero(65536 * n, 65536) == n);
    assert(fixed::toward_zero(n * -65536, 65536) == -n);
    assert(fixed::toward_zero(-65536 * n, 65536) == -n);
    assert(n * 0 == 0 && 0 * n == 0);
}

// ---- normals ----

proof fn lemma_edge(dx: i64, rise: Fixed, dz: i64)
    requires
        -1 <= dx <= 1,
        -1 <= dz <= 1,
        -0x10_0000_0000_0000 <= rise.raw <= 0x10_0000_0000_0000,
    ensures
        terrain_data::edge(dx, rise, dz).x.raw == dx * UNIT,
        terrain_data::edge(dx, rise, dz).y.raw == 80 * rise.raw,
        terrain_data::edge(dx, rise, dz).z.raw == dz * UNIT,
{
    assert(Fixed::ratio_of(dx, 1).raw == dx * 65536);
    assert(Fixed::ratio_of(dz, 1).raw == dz * 65536);
    assert(config::height_stretch::<Fixed>().raw == 80 * 65536);
    assert(scalar::one::<Fixed>().raw == 65536);
    lemma_unit_products(Fixed::ratio_of(dx, 1));
    lemma_unit_products(Fixed::ratio_of(dz, 1));
    let n = rise.raw as int;
    assert(fixed::toward_zero(n * (80 * 65536), 65536) == 80 * n);
}

/// The plane through a point, one of its neighbours along `z` and one along `x`, taken in
/// either order so that its normal points up.
proof fn lemma_plane(along_x: i64, rise_x: Fixed, along_z: i64, rise_z: Fixed)
    requires
        along_x == 1 || along_x == -1,
        along_z == 1 || along_z == -1,
        -0x10_0000_0000_0000 <= rise_x.raw <= 0x10_0000_0000_0000,
        -0x10_0000_0000_0000 <= rise_z.raw <= 0x10_0000_0000_0000,
    ensures
        ({
            let ex = terrain_data::edge(along_x, rise_x, 0);
            let ez = terrain_data::edge(0, rise_z, along_z);
            let n = if along_x == along_z {
                ez.outer(ex)
            } else {
                ex.outer(ez)
            };
            &&& n.x.raw == if along_x == 1 { -80 * rise_x.raw } else { 80 * rise_x.raw }
            &&& n.y.raw == UNIT
            &&& n.z.raw == if along_z == 1 { -80 * rise_z.raw } else { 80 * rise_z.raw }
        }),
{
    lemma_edge(along_x, rise_x, 0);
    lemma_edge(0, rise_z, along_z);
    let ex = terrain_data::edge(along_x, rise_x, 0);
    let ez = terrain_data::edge(0, rise_z, along_z);
    lemma_unit_products(ex.x);
    lemma_unit_products(ex.y);
    lemma_unit_products(ex.z);
    lemma_unit_products(ez.x);
    lemma_unit_products(ez.y);
    lemma_unit_products(ez.z);
}

/// The height of a point, in steps; off the grid, that of `(x0, z0)`.
pub open spec fn steps_up(t: TerrainModel<Fixed>, x0: int, z0: int, x: int, z: int) -> int {
    if t.outside(x, z) {
        t.at(x0, z0).height.raw as int
    } else {
        t.at(x, z).height.raw as int
    }
}

/// The summed normal faces downhill. Along each axis it leans away from the higher neighbour
/// and towards the lower, eighty for each step of height, once for each of the planes that
/// lie on the grid; and it points up by as much as there are planes.
pub proof fn normals_face_downhill(t: TerrainModel<Fixed>, x: int, z: int)
    requires
        t.wf(),
        !t.outside(x, z),
        forall|i: int|
            0 <= i < t.cells.len() ==> -0x8_0000_0000_0000 <= (
            #[trigger] t.cells[i]).height.raw <= 0x8_0000_0000_0000,
    ensures
        ({
            let n = t.summed_normal(x, z);
            let right = if x + 1 < t.size { 1int } else { 0 };
            let left = if x > 0 { 1int } else { 0 };
            let below = if z + 1 < t.size { 1int } else { 0 };
            let above = if z > 0 { 1int } else { 0 };
            &&& n.x.raw == 80 * (below + above) * (steps_up(t, x, z, x - 1, z) - steps_up(
                t,
                x,
                z,
                x + 1,
                z,
            ))
            &&& n.y.raw == (right + left) * (below + above) * UNIT
            &&& n.z.raw == 80 * (right + left) * (steps_up(t, x, z, x, z - 1) - steps_up(
                t,
                x,
                z,
                x,
                z + 1,
            ))
        }),
{
    broadcast use terrain_data::lemma_inside_reaches;

    let here = t.at(x, z).height;
    assert(t.reaches(x, z));
    assert(-0x8_0000_0000_0000 <= t.cells[t.position(x, z)].height.raw <= 0x8_0000_0000_0000);
    assert(scalar::zero::<Fixed>().raw == 0);
    let r = t.rise(x, z, x + 1, z);
    let l = t.rise(x, z, x - 1, z);
    let a = t.rise(x, z, x, z - 1);
    let b = t.rise(x, z, x, z + 1);
    let right = x + 1 < t.size;
    let left = x > 0;
    let below = z + 1 < t.size;
    let above = z > 0;
    if right {
        assert(!t.outside(x + 1, z));
        assert(-0x8_0000_0000_0000 <= t.cells[t.position(x + 1, z)].height.raw
            <= 0x8_0000_0000_0000);
        assert(r.raw == t.at(x + 1, z).height.raw - here.raw);
    }
    if left {
        assert(!t.outside(x - 1, z));
        assert(-0x8_0000_0000_0000 <= t.cells[t.position(x - 1, z)].height.raw
            <= 0x8_0000_0000_0000);
        assert(l.raw == t.at(x - 1, z).height.raw - here.raw);
    }
    if above {
        assert(!t.outside(x, z - 1));
        assert(-0x8_0000_0000_0000 <= t.cells[t.position(x, z - 1)].height.raw
            <= 0x8_0000_0000_0000);
        assert(a.raw == t.at(x, z - 1).height.raw - here.raw);
    }
    if below {
        assert(!t.outside(x, z + 1));
        assert(-0x8_0000_0000_0000 <= t.cells[t.position(x, z + 1)].height.raw
            <= 0x8_0000_0000_0000);
        assert(b.raw == t.at(x, z + 1).height.raw - here.raw);
    }
    assert(right && below <==> !t.outside(x + 1, z + 1));
    if right && below {
        lemma_plane(1, r, 1, b);
    }
    if left && above {
        lemma_plane((-1) as i64, l, (-1) as i64, a);
    }
    if right && above {
        lemma_plane(1, r, (-1) as i64, a);
    }
    if left && below {
        lemma_plane((-1) as i64, l, 1, b);
    }
    let columns: int = (if right { 1int } else { 0 }) + (if left { 1int } else { 0 });
    let rows: int = (if below { 1int } else { 0 }) + (if above { 1int } else { 0 });
    let across = steps_up(t, x, z, x - 1, z) - steps_up(t, x, z, x + 1, z);
    let along = steps_up(t, x, z, x, z - 1) - steps_up(t, x, z, x, z + 1);
    lemma_up_to_twice(rows, 80, across);
    lemma_up_to_twice(columns, 80, along);
    lemma_up_to_twice(columns, 1, rows);
    lemma_up_to_twice(rows, 1, columns);
    let n = t.summed_normal(x, z);
    assert(n.x.raw == 80 * rows * across);
    assert(n.z.raw == 80 * columns * along);
    assert(n.y.raw == columns * rows * UNIT);
}

proof fn lemma_up_to_twice(n: int, k: int, d: int)
    requires
        0 <= n <= 2,
    ensures
        n == 0 ==> k * n * d == 0 && n * d == 0,
        n == 1 ==> k * n * d == k * d && n * d == d,
        n == 2 ==> k * n * d == 2 * (k * d) && n * d == 2 * d,
{
    assert(n == 0 ==> k * n * d == 0 && n * d == 0) by (nonlinear_arith);
    assert(n == 1 ==> k * n * d == k * d) by (nonlinear_arith);
    assert(n == 2 ==> k * n * d == 2 * (k * d)) by (nonlinear_arith);
}

// ---- slides ----

proof fn lemma_neighbor_is_found<S: Scalar>(
    t: TerrainModel<S>,
    x: int,
    z: int,
    j: int,
    k: nat,
) -> (m: int)
    requires
        t.wf(),
        0 <= j < k,
        !t.outside(x + neighbors::neighbor_step(j).0, z + neighbors::neighbor_step(j).1),
    ensures
        0 <= m < neighbors::neighbors_on_grid(t, x, z, k).len(),
        ({
            let (dx, dz) = neighbors::neighbor_step(j);
            let n = neighbors::neighbors_on_grid(t, x, z, k)[m];
            &&& n.x == x + dx
            &&& n.z == z + dz
            &&& n.height == t.at(x + dx, z + dz).height
            &&& n.distance == neighbors::step_length::<S>(dx, dz)
        }),
    decreases k,
{
    if j == k - 1 {
        neighbors::neighbors_on_grid(t, x, z, k).len() - 1
    } else {
        lemma_neighbor_is_found(t, x, z, j, (k - 1) as nat)
    }
}

/// Every other point of the grid within one step is among the neighbours, with its height.
pub proof fn every_neighbor_is_found<S: Scalar>(
    t: TerrainModel<S>,
    x: int,
    z: int,
    nx: int,
    nz: int,
) -> (m: int)
    requires
        t.wf(),
        !t.outside(nx, nz),
        -1 <= nx - x <= 1,
        -1 <= nz - z <= 1,
        nx != x || nz != z,
    ensures
        0 <= m < neighbors::neighbors_on_grid(t, x, z, NEIGHBORS as nat).len(),
        ({
            let n = neighbors::neighbors_on_grid(t, x, z, NEIGHBORS as nat)[m];
            &&& n.x == nx
            &&& n.z == nz
            &&& n.height == t.at(nx, nz).height
            &&& n.distance == neighbors::step_length::<S>(nx - x, nz - z)
        }),
{
    let dx = nx - x;
    let dz = nz - z;
    let j = if dx == -1 {
        dz + 1
    } else if dx == 0 {
        if dz == -1 {
            3
        } else {
            4
        }
    } else {
        dz + 6
    };
    assert(neighbors::neighbor_step(j) == (dx, dz));
    lemma_neighbor_is_found(t, x, z, j, NEIGHBORS as nat)
}

/// How far apart two points within a step are, in steps of the numbers: one, or the root of
/// two across a corner.
pub open spec fn distance_in_steps(dx: int, dz: int) -> int {
    if dx == 0 || dz == 0 {
        0x1_0000
    } else {
        92681
    }
}

/// Neighbours are one apart, or the root of two across a corner.
pub proof fn neighbor_distances(dx: int, dz: int)
    requires
        -1 <= dx <= 1,
        -1 <= dz <= 1,
        dx != 0 || dz != 0,
    ensures
        neighbors::step_length::<Fixed>(dx, dz).raw == distance_in_steps(dx, dz),
{
    let a = Fixed::ratio_of(dx as i64, 1);
    let b = Fixed::ratio_of(dz as i64, 1);
    assert(a.raw == dx * 65536);
    assert(b.raw == dz * 65536);
    lemma_unit_products(a);
    lemma_unit_products(b);
    let sum = a.mul(a).add(b.mul(b));
    let n = sum.raw * UNIT;
    let root = distance_in_steps(dx, dz);
    assert(fixed::is_whole_root(n, root));
    assert(fixed::is_whole_root(n, fixed::whole_root(n)));
    fixed::lemma_whole_root_is_unique(n, fixed::whole_root(n), root);
}

/// What is too much of the difference in height between a point and a neighbour, in steps:
/// what exceeds the difference that holds over the distance; all of it, where the neighbour
/// is down at the base.
pub open spec fn too_much(
    here: int,
    there: int,
    dx: int,
    dz: int,
    params: ErosionParams<Fixed>,
) -> int {
    let gap = balance::absolute(here - there);
    if there > UNIT / 10 {
        gap - (distance_in_steps(dx, dz) * params.max_diff.raw) / UNIT as int
    } else {
        gap
    }
}

/// A slope that is too steep settles, whichever end is higher: the lower neighbour rises, and
/// the higher falls, by half the settling share of what is too much. Any other neighbour
/// keeps its height.
pub proof fn steep_slopes_settle(
    t: TerrainModel<Fixed>,
    x: int,
    z: int,
    nx: int,
    nz: int,
    params: ErosionParams<Fixed>,
)
    requires
        t.wf(),
        !t.outside(x, z),
        !t.outside(nx, nz),
        -1 <= nx - x <= 1,
        -1 <= nz - z <= 1,
        nx != x || nz != z,
        -0x100_0000_0000_0000 <= t.at(x, z).height.raw <= 0x100_0000_0000_0000,
        -0x100_0000_0000_0000 <= t.at(nx, nz).height.raw <= 0x100_0000_0000_0000,
        0 <= params.max_diff.raw <= 0x100_0000_0000,
        0 <= params.settling_rate.raw <= UNIT,
    ensures
        ({
            let here = t.at(x, z).height.raw as int;
            let there = t.at(nx, nz).height.raw as int;
            let after = t.settled(x, z, params).at(nx, nz).height.raw as int;
            let excess = too_much(here, there, nx - x, nz - z, params);
            let share = (params.settling_rate.raw * excess) / (2 * UNIT);
            &&& excess <= 0 ==> after == there
            &&& excess > 0 && there < here ==> after == there + share
            &&& excess > 0 && there > here ==> after == there - share
            &&& excess > 0 && params.settling_rate.raw * excess >= 2 * UNIT ==> share > 0
            &&& excess > 0 ==> 2 * share <= excess
        }),
{
    let m = every_neighbor_is_found(t, x, z, nx, nz);
    let n = neighbors::neighbors_on_grid(t, x, z, NEIGHBORS as nat)[m];
    balance::settling_treats_neighbors_apart(t, x, z, params, m);
    neighbor_distances(nx - x, nz - z);
    let here = t.at(x, z).height;
    let there = n.height;
    let diff = here.sub(there);
    assert(diff.raw == here.raw - there.raw);
    assert(Fixed::ratio_of(1, 10).raw == 6553);
    assert(Fixed::ratio_of(2, 1).raw == 2 * 65536);
    assert(scalar::zero::<Fixed>().raw == 0);
    let gap = scalar::magnitude_of(diff);
    assert(gap.raw == balance::absolute(here.raw - there.raw));
    let d = n.distance.raw as int;
    let q = params.max_diff.raw as int;
    assert(0 <= d * q <= 92681 * 0x100_0000_0000) by (nonlinear_arith)
        requires
            0 <= d <= 92681,
            0 <= q <= 0x100_0000_0000,
    ;
    let held = n.distance.mul(params.max_diff);
    assert(held.raw == (d * q) / 65536);
    let excess = crate::erosion::excess_over(here, n, params);
    let e = too_much(here.raw as int, there.raw as int, nx - x, nz - z, params);
    assert(excess.raw == if e > 0 { e } else { 0 });
    if e > 0 {
        let rate = params.settling_rate.raw as int;
        assert(0 <= rate * e <= 65536 * e) by (nonlinear_arith)
            requires
                0 <= rate <= 65536,
                0 < e,
        ;
        let part = params.settling_rate.mul(excess);
        assert(part.raw == (rate * e) / 65536);
        let amount = crate::erosion::sliding(here, n, params);
        let p = part.raw as int;
        assert(amount.raw == (p * 65536) / 131072);
        assert((p * 65536) / 131072 == p / 2);
        assert(((rate * e) / 65536) / 2 == (rate * e) / 131072);
    }
}

// ---- averages ----

/// Merging moves each average to within two steps of the weighted mean of what it was and
/// what was tracked. At rate zero it stays, and at rate one it becomes what was tracked.
pub proof fn merging_takes_the_mean(cell: Cell<Fixed>, rate: Fixed)
    requires
        0 <= rate.raw <= UNIT,
        -0x1_0000_0000_0000 <= cell.discharge.raw <= 0x1_0000_0000_0000,
        -0x1_0000_0000_0000 <= cell.discharge_track.raw <= 0x1_0000_0000_0000,
        -0x1_0000_0000_0000 <= cell.momentum_x.raw <= 0x1_0000_0000_0000,
        -0x1_0000_0000_0000 <= cell.momentum_x_track.raw <= 0x1_0000_0000_0000,
        -0x1_0000_0000_0000 <= cell.momentum_y.raw <= 0x1_0000_0000_0000,
        -0x1_0000_0000_0000 <= cell.momentum_y_track.raw <= 0x1_0000_0000_0000,
    ensures
        is_mean(cell.discharge, cell.discharge_track, rate, cell.merged(rate).discharge),
        is_mean(cell.momentum_x, cell.momentum_x_track, rate, cell.merged(rate).momentum_x),
        is_mean(cell.momentum_y, cell.momentum_y_track, rate, cell.merged(rate).momentum_y),
        cell.merged(rate).height == cell.height,
        cell.merged(rate).root_density == cell.root_density,
        cell.merged(rate).discharge_track == cell.discharge_track,
        cell.merged(rate).momentum_x_track == cell.momentum_x_track,
        cell.merged(rate).momentum_y_track == cell.momentum_y_track,
{
    lemma_mean(cell.discharge, cell.discharge_track, rate);
    lemma_mean(cell.momentum_x, cell.momentum_x_track, rate);
    lemma_mean(cell.momentum_y, cell.momentum_y_track, rate);
}

/// Whether `new` is, within two steps, the mean of two numbers in which the second weighs
/// `rate`; and just the first or the second where that is zero or one.
pub open spec fn is_mean(old_value: Fixed, seen: Fixed, rate: Fixed, new: Fixed) -> bool {
    let exact = (UNIT - rate.raw) * old_value.raw + rate.raw * seen.raw;
    &&& -2 * UNIT < UNIT * new.raw - exact < 2 * UNIT
    &&& rate.raw == 0 ==> new == old_value
    &&& rate.raw == UNIT ==> new == seen
}

proof fn lemma_part_of(r: Fixed, a: Fixed)
    requires
        0 <= r.raw <= UNIT,
        -0x1_0000_0000_0000 <= a.raw <= 0x1_0000_0000_0000,
    ensures
        -UNIT < UNIT * r.mul(a).raw - r.raw * a.raw < UNIT,
        balance::absolute(r.mul(a).raw as int) <= balance::absolute(a.raw as int),
{
    let n = r.raw * a.raw;
    let size = balance::absolute(a.raw as int);
    assert(balance::absolute(n) <= 65536 * size) by (nonlinear_arith)
        requires
            n == r.raw * a.raw,
            0 <= r.raw <= 65536,
            size == balance::absolute(a.raw as int),
    ;
}

proof fn lemma_mean(old_value: Fixed, seen: Fixed, rate: Fixed)
    requires
        0 <= rate.raw <= UNIT,
        -0x1_0000_0000_0000 <= old_value.raw <= 0x1_0000_0000_0000,
        -0x1_0000_0000_0000 <= seen.raw <= 0x1_0000_0000_0000,
    ensures
        is_mean(
            old_value,
            seen,
            rate,
            scalar::one::<Fixed>().sub(rate).mul(old_value).add(rate.mul(seen)),
        ),
{
    assert(scalar::one::<Fixed>().raw == 65536);
    let rest = scalar::one::<Fixed>().sub(rate);
    assert(rest.raw == 65536 - rate.raw);
    lemma_part_of(rest, old_value);
    lemma_part_of(rate, seen);
    lemma_unit_products(old_value);
    lemma_unit_products(seen);
    if rate.raw == 0 {
        assert(rest == (Fixed { raw: UNIT }));
        assert(rate == (Fixed { raw: 0 }));
    }
    if rate.raw == UNIT {
        assert(rest == (Fixed { raw: 0 }));
        assert(rate == (Fixed { raw: UNIT }));
    }
}

} // verus!
