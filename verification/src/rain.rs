//! What drops take, leave and track, and where they fall.

use crate::balance;
use crate::cell::Cell;
use crate::config::ErosionParams;
use crate::erosion;
use crate::erosion::Drop;
use crate::fixed;
use crate::fixed::{Fixed, UNIT};
use crate::random;
use crate::scalar;
use crate::scalar::Scalar;
use crate::slopes;
use crate::steps;
use crate::terrain_data;
use crate::terrain_data::TerrainModel;
use crate::vector::Vec2;
use vstd::prelude::*;

verus! {

// ---- the exchange with the ground ----

/// Whether the numbers of an exchange are of a size that leaves room for their products.
pub open spec fn exchange_fits(
    drop: Drop<Fixed>,
    cell: Cell<Fixed>,
    landing: Fixed,
    flow: Fixed,
    params: ErosionParams<Fixed>,
) -> bool {
    &&& -0x100_0000_0000 <= cell.height.raw <= 0x100_0000_0000
    &&& -0x100_0000_0000 <= landing.raw <= 0x100_0000_0000
    &&& -0x100_0000_0000 <= drop.sediment.raw <= 0x100_0000_0000
    &&& 0 <= params.entrainment.raw <= 0x4000_0000
    &&& -UNIT <= flow.raw <= UNIT
    &&& 0 <= params.deposition_rate.raw <= UNIT
    &&& 0 <= cell.root_density.raw <= 0x100_0000_0000
}

/// How much a drop could carry, in steps.
spec fn capacity(
    cell: Cell<Fixed>,
    landing: Fixed,
    flow: Fixed,
    params: ErosionParams<Fixed>,
) -> Fixed {
    scalar::larger_of(
        scalar::one::<Fixed>().add(params.entrainment.mul(flow)).mul(cell.height.sub(landing)),
        scalar::zero(),
    )
}

proof fn lemma_bounded(a: int, b: int, p: int, q: int)
    requires
        -p <= a <= p,
        -q <= b <= q,
    ensures
        -(p * q) <= a * b <= p * q,
{
    assert(-(p * q) <= a * b <= p * q) by (nonlinear_arith)
        requires
            -p <= a <= p,
            -q <= b <= q,
    ;
}

proof fn lemma_capacity(
    drop: Drop<Fixed>,
    cell: Cell<Fixed>,
    landing: Fixed,
    flow: Fixed,
    params: ErosionParams<Fixed>,
)
    requires
        exchange_fits(drop, cell, landing, flow, params),
    ensures
        0 <= capacity(cell, landing, flow, params).raw <= 0x100_0000_0000_0000,
        params.entrainment.mul(flow).raw == fixed::toward_zero(
            params.entrainment.raw * flow.raw,
            UNIT as int,
        ),
        ({
            let gain = UNIT + params.entrainment.mul(flow).raw;
            let fall = cell.height.raw - landing.raw;
            capacity(cell, landing, flow, params).raw == if gain * fall > 0 {
                (gain * fall) / UNIT as int
            } else {
                0
            }
        }),
{
    assert(scalar::one::<Fixed>().raw == 65536);
    assert(scalar::zero::<Fixed>().raw == 0);
    let e = params.entrainment.raw as int;
    let f = flow.raw as int;
    lemma_bounded(e, f, 0x4000_0000, 65536);
    let help = params.entrainment.mul(flow);
    assert(-0x4000_0000 <= help.raw <= 0x4000_0000);
    let gain = scalar::one::<Fixed>().add(help);
    assert(gain.raw == 65536 + help.raw);
    let fall = cell.height.sub(landing);
    assert(fall.raw == cell.height.raw - landing.raw);
    lemma_bounded(gain.raw as int, fall.raw as int, 0x4001_0000, 0x200_0000_0000);
    let n = gain.raw * fall.raw;
    assert(gain.mul(fall).raw == fixed::toward_zero(n, 65536));
}

proof fn lemma_uptake(
    drop: Drop<Fixed>,
    cell: Cell<Fixed>,
    landing: Fixed,
    flow: Fixed,
    params: ErosionParams<Fixed>,
)
    requires
        exchange_fits(drop, cell, landing, flow, params),
    ensures
        ({
            let rate = params.deposition_rate.mul(
                Fixed {
                    raw: if cell.root_density.raw < UNIT {
                        (UNIT - cell.root_density.raw) as i64
                    } else {
                        0
                    },
                },
            );
            let wanted = capacity(cell, landing, flow, params).raw - drop.sediment.raw;
            &&& 0 <= rate.raw <= UNIT
            &&& -0x200_0000_0000_0000 <= wanted <= 0x200_0000_0000_0000
            &&& drop.uptake(cell, landing, flow, params) == rate.mul(Fixed { raw: wanted as i64 })
        }),
{
    assert(scalar::one::<Fixed>().raw == 65536);
    assert(scalar::zero::<Fixed>().raw == 0);
    lemma_capacity(drop, cell, landing, flow, params);
    let bare = scalar::larger_of(
        scalar::one::<Fixed>().sub(cell.root_density),
        scalar::zero(),
    );
    assert(bare.raw == if cell.root_density.raw < UNIT {
        UNIT - cell.root_density.raw
    } else {
        0
    });
    let p = params.deposition_rate.raw as int;
    let q = bare.raw as int;
    assert(0 <= p * q <= 65536 * 65536) by (nonlinear_arith)
        requires
            0 <= p <= 65536,
            0 <= q <= 65536,
    ;
}

/// Where roots fill the ground, nothing is exchanged.
pub proof fn full_roots_stop_the_exchange(
    drop: Drop<Fixed>,
    cell: Cell<Fixed>,
    landing: Fixed,
    flow: Fixed,
    params: ErosionParams<Fixed>,
)
    requires
        exchange_fits(drop, cell, landing, flow, params),
        cell.root_density.raw >= UNIT,
    ensures
        drop.uptake(cell, landing, flow, params).raw == 0,
{
    lemma_uptake(drop, cell, landing, flow, params);
    let wanted = capacity(cell, landing, flow, params).raw - drop.sediment.raw;
    assert(params.deposition_rate.raw * 0 == 0);
    assert(0 * wanted == 0);
}

/// A full exchange on bare ground loads a drop with just what it can carry. Without flow, that
/// is the height by which it falls; with full flow, that and the share `entrainment` more;
/// and nothing where it does not fall.
pub proof fn full_exchange_loads_the_fall(
    drop: Drop<Fixed>,
    cell: Cell<Fixed>,
    landing: Fixed,
    flow: Fixed,
    params: ErosionParams<Fixed>,
)
    requires
        exchange_fits(drop, cell, landing, flow, params),
        params.deposition_rate.raw == UNIT,
        cell.root_density.raw == 0,
        flow.raw == 0 || flow.raw == UNIT,
    ensures
        ({
            let loaded = drop.sediment.raw + drop.uptake(cell, landing, flow, params).raw;
            let fall = cell.height.raw - landing.raw;
            &&& fall <= 0 ==> loaded == 0
            &&& fall > 0 && flow.raw == 0 ==> loaded == fall
            &&& fall > 0 && flow.raw == UNIT ==> loaded == fall + (params.entrainment.raw * fall)
                / UNIT as int
        }),
{
    lemma_uptake(drop, cell, landing, flow, params);
    lemma_capacity(drop, cell, landing, flow, params);
    let wanted = capacity(cell, landing, flow, params).raw - drop.sediment.raw;
    let bare = Fixed { raw: UNIT };
    slopes::lemma_unit_products(bare);
    assert(params.deposition_rate == bare);
    slopes::lemma_unit_products(Fixed { raw: wanted as i64 });
    let e = params.entrainment.raw as int;
    let fall = cell.height.raw - landing.raw;
    let help = params.entrainment.mul(flow).raw as int;
    if flow.raw == 0 {
        assert(e * 0 == 0);
        assert(help == 0);
        assert((65536 * fall) / 65536 == fall);
    } else {
        assert(fixed::toward_zero(e * 65536, 65536) == e);
        assert(help == e);
        assert((65536 + e) * fall == 65536 * fall + e * fall) by (nonlinear_arith);
        assert((65536 * fall + e * fall) / 65536 == fall + (e * fall) / 65536);
    }
    let gain = 65536 + help;
    assert(gain > 0);
    assert(fall > 0 ==> gain * fall > 0) by (nonlinear_arith)
        requires
            gain > 0,
    ;
    assert(fall <= 0 ==> gain * fall <= 0) by (nonlinear_arith)
        requires
            gain > 0,
    ;
}

/// The deposition rate is the share of a full exchange that takes place in a step, and roots
/// leave the share of it that they leave bare.
pub proof fn exchanges_are_shares(
    drop: Drop<Fixed>,
    cell: Cell<Fixed>,
    landing: Fixed,
    flow: Fixed,
    params: ErosionParams<Fixed>,
    full: ErosionParams<Fixed>,
)
    requires
        exchange_fits(drop, cell, landing, flow, params),
        full == (ErosionParams { deposition_rate: full.deposition_rate, ..params }),
        full.deposition_rate.raw == UNIT,
    ensures
        ({
            let bare = Cell { root_density: Fixed { raw: 0 }, ..cell };
            let most = drop.uptake(bare, landing, flow, full);
            &&& cell.root_density.raw == 0 ==> drop.uptake(cell, landing, flow, params)
                == params.deposition_rate.mul(most)
            &&& cell.root_density.raw <= UNIT ==> drop.uptake(cell, landing, flow, full) == (
            Fixed { raw: (UNIT - cell.root_density.raw) as i64 }).mul(most)
        }),
{
    let bare = Cell { root_density: Fixed { raw: 0 }, ..cell };
    let one = Fixed { raw: UNIT };
    assert(full.deposition_rate == one);
    lemma_uptake(drop, bare, landing, flow, full);
    lemma_uptake(drop, cell, landing, flow, params);
    lemma_uptake(drop, cell, landing, flow, full);
    let wanted = capacity(cell, landing, flow, params).raw - drop.sediment.raw;
    slopes::lemma_unit_products(Fixed { raw: wanted as i64 });
    slopes::lemma_unit_products(one);
    slopes::lemma_unit_products(params.deposition_rate);
    if cell.root_density.raw <= UNIT {
        slopes::lemma_unit_products(Fixed { raw: (UNIT - cell.root_density.raw) as i64 });
    }
}

/// The more water flows where ground falls, the more a drop takes up.
pub proof fn flow_takes_more(
    drop: Drop<Fixed>,
    cell: Cell<Fixed>,
    landing: Fixed,
    flow: Fixed,
    stronger: Fixed,
    params: ErosionParams<Fixed>,
)
    requires
        exchange_fits(drop, cell, landing, flow, params),
        exchange_fits(drop, cell, landing, stronger, params),
        0 <= flow.raw <= stronger.raw,
        landing.raw <= cell.height.raw,
    ensures
        drop.uptake(cell, landing, flow, params).raw <= drop.uptake(
            cell,
            landing,
            stronger,
            params,
        ).raw,
{
    lemma_uptake(drop, cell, landing, flow, params);
    lemma_uptake(drop, cell, landing, stronger, params);
    lemma_capacity(drop, cell, landing, flow, params);
    lemma_capacity(drop, cell, landing, stronger, params);
    let e = params.entrainment.raw as int;
    let f = flow.raw as int;
    let g = stronger.raw as int;
    assert(0 <= e * f <= e * g) by (nonlinear_arith)
        requires
            0 <= e,
            0 <= f <= g,
    ;
    assert((e * f) / 65536 <= (e * g) / 65536);
    let low = 65536 + params.entrainment.mul(flow).raw;
    let high = 65536 + params.entrainment.mul(stronger).raw;
    let fall = cell.height.raw - landing.raw;
    assert(0 <= low * fall <= high * fall) by (nonlinear_arith)
        requires
            0 <= low <= high,
            0 <= fall,
    ;
    assert((low * fall) / 65536 <= (high * fall) / 65536);
    let rate = params.deposition_rate.mul(
        Fixed {
            raw: if cell.root_density.raw < UNIT {
                (UNIT - cell.root_density.raw) as i64
            } else {
                0
            },
        },
    );
    lemma_share_grows(
        rate,
        capacity(cell, landing, flow, params).raw - drop.sediment.raw,
        capacity(cell, landing, stronger, params).raw - drop.sediment.raw,
    );
}

proof fn lemma_share_grows(rate: Fixed, a: int, b: int)
    requires
        0 <= rate.raw <= UNIT,
        -0x200_0000_0000_0000 <= a <= b <= 0x200_0000_0000_0000,
    ensures
        rate.mul(Fixed { raw: a as i64 }).raw <= rate.mul(Fixed { raw: b as i64 }).raw,
{
    let r = rate.raw as int;
    assert(r * a <= r * b) by (nonlinear_arith)
        requires
            0 <= r,
            a <= b,
    ;
    lemma_bounded(r, a, 65536, 0x200_0000_0000_0000);
    lemma_bounded(r, b, 65536, 0x200_0000_0000_0000);
    let p = r * a;
    let q = r * b;
    assert(fixed::toward_zero(p, 65536) <= fixed::toward_zero(q, 65536));
}

// ---- where a drop is ----

/// Whether a position lies over the point `(x, z)`: past it by less than a step of the grid.
pub open spec fn lies_over(pos: Vec2<Fixed>, x: int, z: int) -> bool {
    &&& x * UNIT <= pos.x.raw < (x + 1) * UNIT
    &&& z * UNIT <= pos.y.raw < (z + 1) * UNIT
}

/// A drop is over the point that its position lies over, the first part along `x` and the
/// second along `z`.
pub proof fn drops_are_over_their_point(drop: Drop<Fixed>, x: int, z: int)
    requires
        0 <= x <= i32::MAX,
        0 <= z <= i32::MAX,
        lies_over(drop.pos, x, z),
    ensures
        drop.over_x() == x,
        drop.over_z() == z,
{
    assert(drop.pos.x.raw / 65536 == x);
    assert(drop.pos.y.raw / 65536 == z);
}

/// A drop lands at the height of the point that it comes down over.
pub proof fn drops_land_on_the_ground(
    t: TerrainModel<Fixed>,
    pos: Vec2<Fixed>,
    from: Fixed,
    x: int,
    z: int,
)
    requires
        t.wf(),
        !t.outside(x, z),
        lies_over(pos, x, z),
    ensures
        Drop::<Fixed>::landing_height(t, pos, from) == t.at(x, z).height,
{
    assert(pos.x.raw / 65536 == x);
    assert(pos.y.raw / 65536 == z);
}

/// Off the grid a drop lands a little lower than where it comes from.
pub proof fn drops_leave_downhill(t: TerrainModel<Fixed>, pos: Vec2<Fixed>, from: Fixed)
    requires
        t.wf(),
        pos.x.raw <= -UNIT || pos.y.raw <= -UNIT || pos.x.raw >= t.size * UNIT || pos.y.raw
            >= t.size * UNIT,
        from.raw >= i64::MIN + 131,
    ensures
        Drop::<Fixed>::landing_height(t, pos, from).raw == from.raw - 131,
{
    assert(Fixed::ratio_of(2, 1000).raw == 131);
    lemma_whole(pos.x);
    lemma_whole(pos.y);
}

proof fn lemma_whole(a: Fixed)
    ensures
        a.raw <= -UNIT ==> a.whole_i32() < 0,
        forall|n: int|
            #![trigger n * UNIT]
            0 <= n <= i32::MAX && a.raw >= n * UNIT ==> a.whole_i32() >= n,
{
    let n = a.raw as int;
    if n <= -65536 {
        assert((-n) / 65536 >= 1);
    }
    assert forall|k: int|
        #![trigger k * UNIT]
        0 <= k <= i32::MAX && a.raw >= k * UNIT implies a.whole_i32() >= k by {
        assert(n / 65536 >= k);
    }
}

// ---- the end of a drop ----

/// A drop over the grid that is older than the greatest age, or smaller than the least volume,
/// ends where it is: its point rises by the sediment that it carries, and no other changes.
pub proof fn old_and_small_drops_end<S: Scalar>(
    drop: Drop<S>,
    t: TerrainModel<S>,
    params: ErosionParams<S>,
    x2: int,
    z2: int,
)
    requires
        t.wf(),
        !t.outside(drop.pos.x.whole_i32() as int, drop.pos.y.whole_i32() as int),
        !t.outside(x2, z2),
        drop.age > params.max_age || drop.volume.lt(params.min_volume),
    ensures
        ({
            let x = drop.pos.x.whole_i32() as int;
            let z = drop.pos.y.whole_i32() as int;
            let (next, eroded, goes_on) = drop.descended(t, params);
            &&& !goes_on
            &&& next == drop
            &&& eroded.at(x, z) == (Cell {
                height: t.at(x, z).height.add(drop.sediment),
                ..t.at(x, z)
            })
            &&& x2 != x || z2 != z ==> eroded.at(x2, z2) == t.at(x2, z2)
        }),
{
    let x = drop.over_x();
    let z = drop.over_z();
    terrain_data::lemma_inside_reaches(t, x, z);
    terrain_data::lemma_inside_reaches(t, x2, z2);
    terrain_data::positions_are_distinct(t, x, z, x2, z2);
}

/// A drop off the grid is gone: it has no volume left, and changes nothing.
pub proof fn drops_off_the_grid_are_gone<S: Scalar>(
    drop: Drop<S>,
    t: TerrainModel<S>,
    params: ErosionParams<S>,
)
    requires
        t.outside(drop.pos.x.whole_i32() as int, drop.pos.y.whole_i32() as int),
    ensures
        drop.descended(t, params).0.volume == scalar::zero::<S>(),
        drop.descended(t, params).1 == t,
        !drop.descended(t, params).2,
{
}

// ---- what a step records ----

/// A step of a drop that is neither gone nor spent goes by the drop's new speed. The cell that
/// it starts from tracks the drop's volume, and that volume times the new speed; and the drop
/// goes on with what has not evaporated.
pub proof fn steps_are_recorded<S: Scalar>(
    drop: Drop<S>,
    t: TerrainModel<S>,
    params: ErosionParams<S>,
)
    requires
        t.wf(),
        !t.outside(drop.pos.x.whole_i32() as int, drop.pos.y.whole_i32() as int),
        drop.age <= params.max_age,
        !drop.volume.lt(params.min_volume),
    ensures
        ({
            let (next, eroded, goes_on) = drop.descended(t, params);
            let was = t.at(drop.over_x(), drop.over_z());
            let is = eroded.at(drop.over_x(), drop.over_z());
            &&& next.pos == drop.pos.add(next.speed)
            &&& is.discharge_track == was.discharge_track.add(drop.volume)
            &&& is.momentum_x_track == was.momentum_x_track.add(drop.volume.mul(next.speed.x))
            &&& is.momentum_y_track == was.momentum_y_track.add(drop.volume.mul(next.speed.y))
            &&& goes_on ==> next.volume == drop.volume.mul(
                scalar::one::<S>().sub(params.evaporation_rate),
            )
            &&& !goes_on ==> next.volume == scalar::zero::<S>() && next.has_left(t)
        }),
{
    let x = drop.over_x();
    let z = drop.over_z();
    terrain_data::lemma_inside_reaches(t, x, z);
    let eroded = drop.moved(t, params).1;
    assert(eroded.wf());
    balance::settling_changes_heights_only(eroded, x, z, params);
    let settled = eroded.settled(x, z, params);
    assert(settled.cells[t.position(x, z)].same_but_height(eroded.cells[t.position(x, z)]));
}

/// What a drop takes up on its way comes from the point that it starts from, before the slope
/// there settles: that point falls by as much as the drop gains, and no other point changes.
pub proof fn drops_take_from_their_point<S: Scalar>(
    drop: Drop<S>,
    t: TerrainModel<S>,
    params: ErosionParams<S>,
    x2: int,
    z2: int,
)
    requires
        t.wf(),
        !drop.has_left(t),
        !t.outside(x2, z2),
    ensures
        ({
            let x = drop.over_x();
            let z = drop.over_z();
            let (next, eroded) = drop.moved(t, params);
            let gained = drop.exchanged(t, params);
            &&& eroded.at(x, z).height == t.at(x, z).height.sub(gained)
            &&& next.sediment == drop.sediment.add(gained).div(
                scalar::one::<S>().sub(params.evaporation_rate),
            )
            &&& x2 != x || z2 != z ==> eroded.at(x2, z2) == t.at(x2, z2)
        }),
{
    let x = drop.over_x();
    let z = drop.over_z();
    terrain_data::lemma_inside_reaches(t, x, z);
    terrain_data::lemma_inside_reaches(t, x2, z2);
    terrain_data::positions_are_distinct(t, x, z, x2, z2);
}

/// A drop that goes on leaves its old point to settle: the grid after its step is that which it
/// passed, settled around that point.
pub proof fn passed_points_settle<S: Scalar>(
    drop: Drop<S>,
    t: TerrainModel<S>,
    params: ErosionParams<S>,
)
    requires
        drop.descended(t, params).2,
    ensures
        drop.descended(t, params).1 == drop.moved(t, params).1.settled(
            drop.pos.x.whole_i32() as int,
            drop.pos.y.whole_i32() as int,
            params,
        ),
{
}

/// A step changes nothing beyond one step of the point that it starts from. A drop that leaves
/// the grid, or is spent, changes that point alone; one that had left changes nothing.
pub proof fn steps_are_local<S: Scalar>(
    drop: Drop<S>,
    t: TerrainModel<S>,
    params: ErosionParams<S>,
    x2: int,
    z2: int,
)
    requires
        t.wf(),
        !t.outside(x2, z2),
    ensures
        ({
            let x = drop.over_x();
            let z = drop.over_z();
            let (next, eroded, goes_on) = drop.descended(t, params);
            let far = x2 < x - 1 || x2 > x + 1 || z2 < z - 1 || z2 > z + 1;
            let elsewhere = x2 != x || z2 != z;
            &&& far ==> eroded.at(x2, z2) == t.at(x2, z2)
            &&& elsewhere && !goes_on ==> eroded.at(x2, z2) == t.at(x2, z2)
            &&& drop.has_left(t) ==> eroded == t
        }),
{
    let x = drop.over_x();
    let z = drop.over_z();
    terrain_data::lemma_inside_reaches(t, x2, z2);
    if !drop.has_left(t) {
        terrain_data::lemma_inside_reaches(t, x, z);
        terrain_data::positions_are_distinct(t, x, z, x2, z2);
        let eroded = drop.moved(t, params).1;
        assert(eroded.wf());
        if x2 < x - 1 || x2 > x + 1 || z2 < z - 1 || z2 > z + 1 {
            balance::settling_is_local(eroded, x, z, params, x2, z2);
        }
    }
}

// ---- what a drop feels ----

/// Whether two grids agree at a point and at its neighbours along both axes.
pub open spec fn agree_around<S: Scalar>(
    t: TerrainModel<S>,
    other: TerrainModel<S>,
    x: int,
    z: int,
) -> bool {
    &&& t.size == other.size
    &&& agree_at(t, other, x, z)
    &&& agree_at(t, other, x - 1, z)
    &&& agree_at(t, other, x + 1, z)
    &&& agree_at(t, other, x, z - 1)
    &&& agree_at(t, other, x, z + 1)
}

/// Whether two grids agree at a point, if it lies on them.
pub open spec fn agree_at<S: Scalar>(
    t: TerrainModel<S>,
    other: TerrainModel<S>,
    x: int,
    z: int,
) -> bool {
    !t.outside(x, z) ==> t.at(x, z) == other.at(x, z)
}

/// A drop feels the ground below it and beside it, and no other: over grids that agree there it
/// takes the same step. Where they agree at the point that it comes down over too, it takes the
/// same sediment with it.
pub proof fn drops_feel_the_ground_near<S: Scalar>(
    drop: Drop<S>,
    t: TerrainModel<S>,
    other: TerrainModel<S>,
    params: ErosionParams<S>,
)
    requires
        t.wf(),
        other.wf(),
        !drop.has_left(t),
        agree_around(
            t,
            other,
            drop.pos.x.whole_i32() as int,
            drop.pos.y.whole_i32() as int,
        ),
    ensures
        ({
            let here = drop.moved(t, params).0;
            let there = drop.moved(other, params).0;
            &&& here.speed == there.speed
            &&& here.pos == there.pos
            &&& here.volume == there.volume
            &&& here.age == there.age
            &&& agree_at(
                t,
                other,
                here.pos.x.whole_usize() as int,
                here.pos.y.whole_usize() as int,
            ) ==> here.sediment == there.sediment
        }),
{
    broadcast use terrain_data::lemma_inside_reaches;

    let x = drop.over_x();
    let z = drop.over_z();
    assert(t.summed_normal(x, z) == other.summed_normal(x, z));
    let cell = t.at(x, z);
    let speed = drop.step_from(t.slope(x, z), cell, params);
    let pos = drop.pos.add(speed);
    let marked = cell.tracking(drop.volume, speed);
    let passed = t.with(x, z, marked);
    let other_passed = other.with(x, z, marked);
    assert(passed.flow(x, z) == other_passed.flow(x, z));
    let lx = pos.x.whole_usize() as int;
    let lz = pos.y.whole_usize() as int;
    if !t.outside(lx, lz) && t.at(lx, lz) == other.at(lx, lz) {
        terrain_data::positions_are_distinct(t, x, z, lx, lz);
        assert(passed.at(lx, lz).height == other_passed.at(lx, lz).height);
    }
}

/// A fresh drop on ground that falls along `x` and is level along `z` runs the way the ground
/// falls, and not across, in still water or in a current that runs that way.
pub proof fn fresh_drops_run_downhill(
    drop: Drop<Fixed>,
    t: TerrainModel<Fixed>,
    params: ErosionParams<Fixed>,
)
    requires
        t.wf(),
        !drop.has_left(t),
        drop == Drop::<Fixed>::fresh(drop.pos),
        forall|i: int|
            0 <= i < t.cells.len() ==> -0x8_0000_0000_0000 <= (
            #[trigger] t.cells[i]).height.raw <= 0x8_0000_0000_0000,
        UNIT <= params.gravity.raw <= 0x10_0000,
        0 <= params.momentum_transfer.raw <= 0x4_0000,
        ({
            let x = drop.pos.x.whole_i32() as int;
            let z = drop.pos.y.whole_i32() as int;
            let cell = t.at(x, z);
            &&& slopes::steps_up(t, x, z, x, z - 1) == slopes::steps_up(t, x, z, x, z + 1)
            &&& 256 <= balance::absolute(t.slope(x, z).x.raw as int) <= 2 * UNIT
            &&& 0 <= cell.discharge.raw <= 0x1000_0000_0000_0000
            &&& cell.momentum_y.raw == 0
            &&& -0x10_0000 <= cell.momentum_x.raw <= 0x10_0000
            &&& cell.momentum_x.raw > 0 ==> slopes::steps_up(t, x, z, x - 1, z)
                > slopes::steps_up(t, x, z, x + 1, z)
            &&& cell.momentum_x.raw < 0 ==> slopes::steps_up(t, x, z, x - 1, z)
                < slopes::steps_up(t, x, z, x + 1, z)
        }),
    ensures
        ({
            let x = drop.pos.x.whole_i32() as int;
            let z = drop.pos.y.whole_i32() as int;
            let left = slopes::steps_up(t, x, z, x - 1, z);
            let right = slopes::steps_up(t, x, z, x + 1, z);
            let speed = drop.moved(t, params).0.speed;
            &&& left > right ==> speed.x.raw > 0
            &&& left < right ==> speed.x.raw < 0
            &&& speed.y.raw == 0
        }),
{
    let x = drop.over_x();
    let z = drop.over_z();
    steps::slopes_lean_downhill(t, x, z);
    steps::fresh_drops_step_downhill(drop, t.slope(x, z), t.at(x, z), params);
}

// ---- where drops fall ----

/// Whether the numbers hold the coordinates of a point.
pub open spec fn indices_hold<S: Scalar>(x: int, z: int) -> bool {
    &&& S::of_index(x as usize).whole_i32() == x
    &&& S::of_index(z as usize).whole_i32() == z
}

/// Fixed-point numbers hold every coordinate.
pub proof fn fixed_indices_hold(x: int, z: int)
    requires
        0 <= x <= i32::MAX,
        0 <= z <= i32::MAX,
    ensures
        indices_hold::<Fixed>(x, z),
{
    assert((x * 65536) / 65536 == x);
    assert((z * 65536) / 65536 == z);
}

/// A drop falls on the point that it is sent to: where drops live for one step only, that
/// point tracks the volume of a fresh drop, one, and no other point tracks anything more.
pub proof fn drops_fall_where_they_are_sent<S: Scalar>(
    t: TerrainModel<S>,
    x: int,
    z: int,
    params: ErosionParams<S>,
    x2: int,
    z2: int,
)
    requires
        t.wf(),
        !t.outside(x, z),
        !t.outside(x2, z2),
        indices_hold::<S>(x, z),
        params.max_age == 0,
        !t.at(x, z).height.lt(S::ratio_of(1, 10)),
        !scalar::one::<S>().lt(params.min_volume),
    ensures
        t.rained_at(x, z, params).wf(),
        t.rained_at(x, z, params).size == t.size,
        t.rained_at(x, z, params).at(x, z).discharge_track == t.at(x, z).discharge_track.add(
            scalar::one(),
        ),
        x2 != x || z2 != z ==> t.rained_at(x, z, params).at(x2, z2).same_but_height(
            t.at(x2, z2),
        ),
{
    let pos = Vec2 { x: S::of_index(x as usize), y: S::of_index(z as usize) };
    let drop = Drop::<S>::fresh(pos);
    let (next, eroded, goes_on) = drop.descended(t, params);
    steps_are_recorded(drop, t, params);
    terrain_data::lemma_inside_reaches(t, x, z);
    terrain_data::lemma_inside_reaches(t, x2, z2);
    terrain_data::positions_are_distinct(t, x, z, x2, z2);
    balance::steps_track_one_cell(drop, t, params, t.position(x, z));
    balance::steps_track_one_cell(drop, t, params, t.position(x2, z2));
    reveal_with_fuel(Drop::descended_fully, 3);
    if goes_on {
        let (last, left, more) = next.descended(eroded, params);
        assert(next.age == 1);
        assert(!more);
        terrain_data::lemma_inside_reaches(eroded, next.over_x(), next.over_z());
        assert(left == eroded.raised(next.over_x(), next.over_z(), next.sediment));
    }
}

proof fn lemma_steps_add_track(drop: Drop<Fixed>, t: TerrainModel<Fixed>, params: ErosionParams<Fixed>, i: int)
    requires
        t.wf(),
        0 <= i < t.cells.len(),
        0 <= drop.volume.raw <= UNIT,
        0 <= params.evaporation_rate.raw <= UNIT,
        0 <= t.cells[i].discharge_track.raw <= 0x4000_0000_0000_0000,
    ensures
        ({
            let (next, eroded, goes_on) = drop.descended(t, params);
            let was = t.cells[i].discharge_track.raw;
            let is = eroded.cells[i].discharge_track.raw;
            &&& eroded.wf()
            &&& eroded.size == t.size
            &&& was <= is <= was + UNIT
            &&& goes_on ==> 0 <= next.volume.raw <= UNIT
        }),
{
    balance::steps_track_one_cell(drop, t, params, i);
    if !drop.has_left(t) && !drop.is_spent(params) {
        steps_are_recorded(drop, t, params);
        assert(scalar::one::<Fixed>().raw == 65536);
        let kept = scalar::one::<Fixed>().sub(params.evaporation_rate);
        let v = drop.volume.raw as int;
        let k = kept.raw as int;
        assert(0 <= v * k <= 65536 * 65536) by (nonlinear_arith)
            requires
                0 <= v <= 65536,
                0 <= k <= 65536,
        ;
    } else if !drop.has_left(t) {
        terrain_data::lemma_inside_reaches(t, drop.over_x(), drop.over_z());
    }
}

proof fn lemma_following_adds_track(
    drop: Drop<Fixed>,
    t: TerrainModel<Fixed>,
    params: ErosionParams<Fixed>,
    i: int,
)
    requires
        t.wf(),
        0 <= i < t.cells.len(),
        params.max_age < u32::MAX,
        0 <= drop.volume.raw <= UNIT,
        0 <= params.evaporation_rate.raw <= UNIT,
        drop.age <= params.max_age + 1,
        0 <= t.cells[i].discharge_track.raw <= 0x4000_0000_0000_0000 - (params.max_age + 2
            - drop.age) * UNIT,
    ensures
        t.cells[i].discharge_track.raw <= drop.descended_fully(
            t,
            params,
        ).1.cells[i].discharge_track.raw,
    decreases params.max_age + 1 - drop.age,
{
    lemma_steps_add_track(drop, t, params, i);
    let (next, eroded, goes_on) = drop.descended(t, params);
    if goes_on {
        balance::goers_stay_on_grid(drop, t, params);
        lemma_following_adds_track(next, eroded, params, i);
    }
}

/// However long drops live, the point that one is sent to tracks at least the volume of a
/// fresh drop, one; and no point tracks less than before.
pub proof fn drops_track_where_they_are_sent(
    t: TerrainModel<Fixed>,
    x: int,
    z: int,
    params: ErosionParams<Fixed>,
    i: int,
)
    requires
        t.wf(),
        !t.outside(x, z),
        0 <= i < t.cells.len(),
        params.max_age < u32::MAX,
        0 <= params.evaporation_rate.raw <= UNIT,
        params.min_volume.raw <= UNIT,
        t.at(x, z).height.raw >= Fixed::ratio_of(1, 10).raw,
        0 <= t.at(x, z).discharge_track.raw <= 0x1000_0000_0000_0000,
        0 <= t.cells[i].discharge_track.raw <= 0x1000_0000_0000_0000,
    ensures
        t.rained_at(x, z, params).cells[t.position(x, z)].discharge_track.raw >= t.at(
            x,
            z,
        ).discharge_track.raw + UNIT,
        t.rained_at(x, z, params).cells[i].discharge_track.raw >= t.cells[i].discharge_track.raw,
{
    let pos = Vec2 { x: Fixed::of_index(x as usize), y: Fixed::of_index(z as usize) };
    let drop = Drop::<Fixed>::fresh(pos);
    let p = t.position(x, z);
    terrain_data::lemma_inside_reaches(t, x, z);
    fixed_indices_hold(x, z);
    assert(scalar::one::<Fixed>().raw == 65536);
    steps_are_recorded(drop, t, params);
    lemma_steps_add_track(drop, t, params, p);
    lemma_following_adds_track(drop, t, params, i);
    let (next, eroded, goes_on) = drop.descended(t, params);
    assert(eroded.cells[p].discharge_track.raw == t.cells[p].discharge_track.raw + 65536);
    if goes_on {
        lemma_following_adds_track(next, eroded, params, p);
    }
}

/// No drop falls on a point down at the base.
pub proof fn base_points_get_no_drop<S: Scalar>(
    t: TerrainModel<S>,
    x: int,
    z: int,
    params: ErosionParams<S>,
)
    requires
        t.at(x, z).height.lt(S::ratio_of(1, 10)),
    ensures
        t.rained_at(x, z, params) == t,
{
}

/// The points where random drops start are drawn from the whole grid along both axes.
pub proof fn starts_come_from_the_whole_grid(starts: Seq<(usize, usize)>, size: i32, i: int)
    requires
        erosion::all_drawn(starts, size as int),
        0 <= i < starts.len(),
    ensures
        random::drawn(0, size, starts[i].0 as i32),
        random::drawn(0, size, starts[i].1 as i32),
{
    let start = starts[i];
    assert(random::drawn(0, size as int as i32, starts[i].0 as i32));
}

/// Drops fall one after the other.
pub proof fn rain_falls_in_turn<S: Scalar>(
    t: TerrainModel<S>,
    first: Seq<(usize, usize)>,
    then_on: Seq<(usize, usize)>,
    params: ErosionParams<S>,
)
    ensures
        t.rained_on(first + then_on, params) == t.rained_on(first, params).rained_on(
            then_on,
            params,
        ),
    decreases then_on.len(),
{
    if then_on.len() == 0 {
        assert(first + then_on =~= first);
    } else {
        let all = first + then_on;
        assert(all.drop_last() =~= first + then_on.drop_last());
        assert(all.last() == then_on.last());
        rain_falls_in_turn(t, first, then_on.drop_last(), params);
    }
}

/// A frame with one drop, that lives for one step only: the point where it starts tracks one,
/// and every other point tracks nothing.
pub proof fn frames_track_where_drops_start<S: Scalar>(
    t: TerrainModel<S>,
    x: usize,
    z: usize,
    params: ErosionParams<S>,
    x2: int,
    z2: int,
)
    requires
        t.wf(),
        !t.outside(x as int, z as int),
        !t.outside(x2, z2),
        indices_hold::<S>(x as int, z as int),
        params.max_age == 0,
        !t.at(x as int, z as int).height.lt(S::ratio_of(1, 10)),
        !scalar::one::<S>().lt(params.min_volume),
    ensures
        ({
            let after = t.after_frame(seq![(x, z)], params);
            &&& after.at(x as int, z as int).discharge_track == scalar::zero::<S>().add(
                scalar::one(),
            )
            &&& x2 != x || z2 != z ==> after.at(x2, z2).discharge_track == scalar::zero::<S>()
            &&& x2 != x || z2 != z ==> after.at(x2, z2).momentum_x_track == scalar::zero::<S>()
            &&& x2 != x || z2 != z ==> after.at(x2, z2).momentum_y_track == scalar::zero::<S>()
        }),
{
    let cleared = t.untracked();
    let starts = seq![(x, z)];
    terrain_data::lemma_inside_reaches(t, x as int, z as int);
    terrain_data::lemma_inside_reaches(t, x2, z2);
    drops_fall_where_they_are_sent(cleared, x as int, z as int, params, x2, z2);
    assert(starts.drop_last() =~= Seq::empty());
    assert(starts.last() == (x, z));
    assert(cleared.rained_on(starts.drop_last(), params) == cleared);
}

} // verus!
