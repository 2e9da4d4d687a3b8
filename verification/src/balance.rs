//! What slides, steps and frames leave as it was.

use crate::cell::Cell;
use crate::config::ErosionParams;
use crate::erosion;
use crate::erosion::Drop;
use crate::fixed::{Fixed, UNIT};
use crate::neighbors;
use crate::neighbors::{Neighbor, NEIGHBORS};
use crate::scalar;
use crate::scalar::Scalar;
use crate::terrain_data;
use crate::terrain_data::TerrainModel;
use vstd::prelude::*;

verus! {

// ---- sums ----

/// The heights of all cells, added up from the first on.
pub open spec fn total<S: Scalar>(cells: Seq<Cell<S>>) -> S
    decreases cells.len(),
{
    if cells.len() == 0 {
        scalar::zero()
    } else {
        total(cells.drop_last()).add(cells.last().height)
    }
}

proof fn lemma_total_after_update<S: Scalar>(cells: Seq<Cell<S>>, i: int, cell: Cell<S>)
    requires
        scalar::exact_sums::<S>(),
        0 <= i < cells.len(),
    ensures
        total(cells.update(i, cell)).add(cells[i].height) == total(cells).add(cell.height),
    decreases cells.len(),
{
    let after = cells.update(i, cell);
    let rest = cells.drop_last();
    let last = cells.last().height;
    if i == cells.len() - 1 {
        assert(after.drop_last() =~= rest);
        scalar::lemma_swap(total(rest), cell.height, last);
    } else {
        assert(after.drop_last() =~= rest.update(i, cell));
        lemma_total_after_update(rest, i, cell);
        let part = total(rest.update(i, cell));
        scalar::lemma_swap(part, last, cells[i].height);
        scalar::lemma_swap(total(rest), last, cell.height);
    }
}

/// Where sums are exact, raising a cell adds as much to the total.
pub proof fn raising_adds_to_total<S: Scalar>(t: TerrainModel<S>, x: int, z: int, amount: S)
    requires
        scalar::exact_sums::<S>(),
        t.reaches(x, z),
    ensures
        total(t.raised(x, z, amount).cells) == total(t.cells).add(amount),
{
    let h = t.at(x, z).height;
    lemma_total_after_update(t.cells, t.position(x, z), t.at(x, z).raised(amount));
    let before = total(t.cells);
    scalar::lemma_exact_sums(before, amount, h);
    scalar::lemma_exact_sums(before, h, amount);
    scalar::lemma_exact_sums(amount, h, h);
    scalar::lemma_cancel(total(t.raised(x, z, amount).cells), before.add(amount), h);
}

/// Where sums are exact, lowering a cell takes as much from the total.
pub proof fn lowering_takes_from_total<S: Scalar>(t: TerrainModel<S>, x: int, z: int, amount: S)
    requires
        scalar::exact_sums::<S>(),
        t.reaches(x, z),
    ensures
        total(t.lowered(x, z, amount).cells).add(amount) == total(t.cells),
{
    let h = t.at(x, z).height;
    lemma_total_after_update(t.cells, t.position(x, z), t.at(x, z).lowered(amount));
    let before = total(t.cells);
    let after = total(t.lowered(x, z, amount).cells);
    scalar::lemma_exact_sums(before, h.sub(amount), amount);
    scalar::lemma_exact_sums(h, amount, amount);
    scalar::lemma_swap(after, h, amount);
    scalar::lemma_cancel(after.add(amount), before, h);
}

// ---- slides ----

proof fn lemma_slid_conserves<S: Scalar>(
    t: TerrainModel<S>,
    x: int,
    z: int,
    here: S,
    n: Neighbor<S>,
    params: ErosionParams<S>,
)
    requires
        scalar::exact_sums::<S>(),
        t.reaches(x, z),
        t.reaches(n.x as int, n.z as int),
    ensures
        total(t.slid(x, z, here, n, params).cells) == total(t.cells),
{
    let amount = erosion::sliding(here, n, params);
    if erosion::slides(here, n, params) {
        if scalar::zero::<S>().lt(here.sub(n.height)) {
            lowering_takes_from_total(t, x, z, amount);
            raising_adds_to_total(t.lowered(x, z, amount), n.x as int, n.z as int, amount);
        } else {
            let high = t.raised(x, z, amount);
            raising_adds_to_total(t, x, z, amount);
            lowering_takes_from_total(high, n.x as int, n.z as int, amount);
            scalar::lemma_cancel(
                total(high.lowered(n.x as int, n.z as int, amount).cells),
                total(t.cells),
                amount,
            );
        }
    }
}

proof fn lemma_slid_to_all_conserves<S: Scalar>(
    t: TerrainModel<S>,
    x: int,
    z: int,
    here: S,
    ns: Seq<Neighbor<S>>,
    params: ErosionParams<S>,
)
    requires
        scalar::exact_sums::<S>(),
        t.wf(),
        t.reaches(x, z),
        neighbors::all_on_grid(t, ns),
    ensures
        total(t.slid_to_all(x, z, here, ns, params).cells) == total(t.cells),
    decreases ns.len(),
{
    if ns.len() > 0 {
        let rest = ns.drop_last();
        let n = ns.last();
        assert(neighbors::all_on_grid(t, rest));
        assert(!t.outside(ns[ns.len() - 1].x as int, ns[ns.len() - 1].z as int));
        terrain_data::lemma_inside_reaches(t, n.x as int, n.z as int);
        erosion::lemma_slid_keeps_shape(t, x, z, here, rest, params);
        lemma_slid_to_all_conserves(t, x, z, here, rest, params);
        lemma_slid_conserves(t.slid_to_all(x, z, here, rest, params), x, z, here, n, params);
    }
}

/// Where sums are exact, settling moves height about without making or losing any.
pub proof fn settling_conserves_height<S: Scalar>(
    t: TerrainModel<S>,
    x: int,
    z: int,
    params: ErosionParams<S>,
)
    requires
        scalar::exact_sums::<S>(),
        t.wf(),
        t.reaches(x, z),
    ensures
        total(t.settled(x, z, params).cells) == total(t.cells),
{
    neighbors::lemma_sorted_neighbors_are_on_grid(t, x, z);
    lemma_slid_to_all_conserves(
        t,
        x,
        z,
        t.at(x, z).height,
        neighbors::by_height(neighbors::neighbors_on_grid(t, x, z, NEIGHBORS as nat)),
        params,
    );
}

proof fn lemma_slid_to_all_keeps_rest<S: Scalar>(
    t: TerrainModel<S>,
    x: int,
    z: int,
    here: S,
    ns: Seq<Neighbor<S>>,
    params: ErosionParams<S>,
)
    requires
        t.wf(),
        t.reaches(x, z),
        neighbors::all_on_grid(t, ns),
    ensures
        t.slid_to_all(x, z, here, ns, params).same_but_heights(t),
    decreases ns.len(),
{
    if ns.len() > 0 {
        let n = ns.last();
        assert(neighbors::all_on_grid(t, ns.drop_last()));
        assert(!t.outside(ns[ns.len() - 1].x as int, ns[ns.len() - 1].z as int));
        terrain_data::lemma_inside_reaches(t, n.x as int, n.z as int);
        lemma_slid_to_all_keeps_rest(t, x, z, here, ns.drop_last(), params);
    }
}

/// Settling changes nothing but heights.
pub proof fn settling_changes_heights_only<S: Scalar>(
    t: TerrainModel<S>,
    x: int,
    z: int,
    params: ErosionParams<S>,
)
    requires
        t.wf(),
        t.reaches(x, z),
    ensures
        t.settled(x, z, params).wf(),
        t.settled(x, z, params).same_but_heights(t),
{
    neighbors::lemma_sorted_neighbors_are_on_grid(t, x, z);
    lemma_slid_to_all_keeps_rest(
        t,
        x,
        z,
        t.at(x, z).height,
        neighbors::by_height(neighbors::neighbors_on_grid(t, x, z, NEIGHBORS as nat)),
        params,
    );
}

proof fn lemma_slid_to_all_leaves<S: Scalar>(
    t: TerrainModel<S>,
    x: int,
    z: int,
    here: S,
    ns: Seq<Neighbor<S>>,
    params: ErosionParams<S>,
    x2: int,
    z2: int,
)
    requires
        t.wf(),
        !t.outside(x, z),
        !t.outside(x2, z2),
        neighbors::all_on_grid(t, ns),
        x2 != x || z2 != z,
        forall|i: int| 0 <= i < ns.len() ==> (#[trigger] ns[i]).x != x2 || ns[i].z != z2,
    ensures
        t.slid_to_all(x, z, here, ns, params).at(x2, z2) == t.at(x2, z2),
    decreases ns.len(),
{
    terrain_data::lemma_inside_reaches(t, x, z);
    terrain_data::lemma_inside_reaches(t, x2, z2);
    if ns.len() > 0 {
        let n = ns.last();
        let rest = ns.drop_last();
        assert(neighbors::all_on_grid(t, rest));
        assert(n == ns[ns.len() - 1]);
        assert(!t.outside(n.x as int, n.z as int));
        lemma_slid_to_all_leaves(t, x, z, here, rest, params, x2, z2);
        erosion::lemma_slid_keeps_shape(t, x, z, here, rest, params);
        let before = t.slid_to_all(x, z, here, rest, params);
        terrain_data::lemma_inside_reaches(t, n.x as int, n.z as int);
        terrain_data::positions_are_distinct(before, x, z, x2, z2);
        terrain_data::positions_are_distinct(before, n.x as int, n.z as int, x2, z2);
    }
}

/// Settling reaches no farther than one step.
pub proof fn settling_is_local<S: Scalar>(
    t: TerrainModel<S>,
    x: int,
    z: int,
    params: ErosionParams<S>,
    x2: int,
    z2: int,
)
    requires
        t.wf(),
        !t.outside(x, z),
        !t.outside(x2, z2),
        x2 < x - 1 || x2 > x + 1 || z2 < z - 1 || z2 > z + 1,
    ensures
        t.settled(x, z, params).at(x2, z2) == t.at(x2, z2),
{
    let ns = neighbors::by_height(neighbors::neighbors_on_grid(t, x, z, NEIGHBORS as nat));
    neighbors::lemma_sorted_neighbors_are_on_grid(t, x, z);
    neighbors::lemma_sorted_neighbors_are_near(t, x, z);
    assert forall|i: int| 0 <= i < ns.len() implies (#[trigger] ns[i]).x != x2 || ns[i].z
        != z2 by {
        assert(-1 <= ns[i].x - x <= 1 && -1 <= ns[i].z - z <= 1);
    }
    lemma_slid_to_all_leaves(t, x, z, t.at(x, z).height, ns, params, x2, z2);
}

/// What becomes of a neighbour's cell when the slope to it settles, from the point's own
/// height and that of the neighbour.
pub open spec fn settled_neighbor<S: Scalar>(
    cell: Cell<S>,
    here: S,
    n: Neighbor<S>,
    params: ErosionParams<S>,
) -> Cell<S> {
    if !erosion::slides(here, n, params) {
        cell
    } else if scalar::zero::<S>().lt(here.sub(n.height)) {
        cell.raised(erosion::sliding(here, n, params))
    } else {
        cell.lowered(erosion::sliding(here, n, params))
    }
}

proof fn lemma_slid_to_all_treats_apart<S: Scalar>(
    t: TerrainModel<S>,
    x: int,
    z: int,
    here: S,
    ns: Seq<Neighbor<S>>,
    params: ErosionParams<S>,
    m: int,
)
    requires
        t.wf(),
        !t.outside(x, z),
        neighbors::all_on_grid(t, ns),
        neighbors::all_apart(x, z, ns),
        0 <= m < ns.len(),
    ensures
        t.slid_to_all(x, z, here, ns, params).at(ns[m].x as int, ns[m].z as int)
            == settled_neighbor(t.at(ns[m].x as int, ns[m].z as int), here, ns[m], params),
    decreases ns.len(),
{
    let n = ns.last();
    let rest = ns.drop_last();
    let nx = n.x as int;
    let nz = n.z as int;
    let mx = ns[m].x as int;
    let mz = ns[m].z as int;
    assert(n == ns[ns.len() - 1]);
    assert(!t.outside(nx, nz) && !t.outside(mx, mz));
    assert(neighbors::all_on_grid(t, rest));
    assert forall|i: int| 0 <= i < rest.len() implies (#[trigger] rest[i]).x != nx || rest[i].z
        != nz by {
        assert(rest[i] == ns[i]);
    }
    terrain_data::lemma_inside_reaches(t, x, z);
    terrain_data::lemma_inside_reaches(t, nx, nz);
    terrain_data::lemma_inside_reaches(t, mx, mz);
    erosion::lemma_slid_keeps_shape(t, x, z, here, rest, params);
    let before = t.slid_to_all(x, z, here, rest, params);
    terrain_data::positions_are_distinct(before, x, z, nx, nz);
    if m == ns.len() - 1 {
        lemma_slid_to_all_leaves(t, x, z, here, rest, params, nx, nz);
    } else {
        neighbors::lemma_rest_is_apart(x, z, ns);
        assert(rest[m] == ns[m]);
        lemma_slid_to_all_treats_apart(t, x, z, here, rest, params, m);
        terrain_data::positions_are_distinct(before, x, z, mx, mz);
        terrain_data::positions_are_distinct(before, nx, nz, mx, mz);
    }
}

/// What settling does to a neighbour depends on the point and on that neighbour, and on no
/// other.
pub proof fn settling_treats_neighbors_apart<S: Scalar>(
    t: TerrainModel<S>,
    x: int,
    z: int,
    params: ErosionParams<S>,
    m: int,
)
    requires
        t.wf(),
        !t.outside(x, z),
        0 <= m < neighbors::neighbors_on_grid(t, x, z, NEIGHBORS as nat).len(),
    ensures
        ({
            let n = neighbors::neighbors_on_grid(t, x, z, NEIGHBORS as nat)[m];
            t.settled(x, z, params).at(n.x as int, n.z as int) == settled_neighbor(
                t.at(n.x as int, n.z as int),
                t.at(x, z).height,
                n,
                params,
            )
        }),
{
    let found = neighbors::neighbors_on_grid(t, x, z, NEIGHBORS as nat);
    let ns = neighbors::by_height(found);
    neighbors::lemma_sorted_neighbors_are_on_grid(t, x, z);
    neighbors::lemma_sorted_neighbors_are_apart(t, x, z);
    neighbors::lemma_sorted_hold_input(found, m);
    let k = choose|k: int| 0 <= k < ns.len() && ns[k] == found[m];
    lemma_slid_to_all_treats_apart(t, x, z, t.at(x, z).height, ns, params, k);
}

/// Whether a slope holds: the neighbour stands above the base and the difference in height
/// does not exceed what holds over the distance.
pub open spec fn holds<S: Scalar>(here: S, n: Neighbor<S>, params: ErosionParams<S>) -> bool {
    let gap = scalar::magnitude_of(here.sub(n.height));
    &&& S::ratio_of(1, 10).lt(n.height)
    &&& scalar::larger_of(gap.sub(n.distance.mul(params.max_diff)), scalar::zero()).le(
        scalar::zero(),
    )
}

proof fn lemma_nothing_slides<S: Scalar>(
    t: TerrainModel<S>,
    x: int,
    z: int,
    here: S,
    ns: Seq<Neighbor<S>>,
    params: ErosionParams<S>,
)
    requires
        forall|i: int| 0 <= i < ns.len() ==> holds(here, #[trigger] ns[i], params),
    ensures
        t.slid_to_all(x, z, here, ns, params) == t,
    decreases ns.len(),
{
    if ns.len() > 0 {
        assert(holds(here, ns[ns.len() - 1], params));
        assert forall|i: int| 0 <= i < ns.drop_last().len() implies holds(
            here,
            #[trigger] ns.drop_last()[i],
            params,
        ) by {
            assert(holds(here, ns[i], params));
        }
        lemma_nothing_slides(t, x, z, here, ns.drop_last(), params);
    }
}

/// Where the slopes to all neighbours hold, settling changes nothing.
pub proof fn gentle_slopes_hold<S: Scalar>(
    t: TerrainModel<S>,
    x: int,
    z: int,
    params: ErosionParams<S>,
)
    requires
        forall|i: int|
            #![trigger neighbors::neighbors_on_grid(t, x, z, NEIGHBORS as nat)[i]]
            0 <= i < neighbors::neighbors_on_grid(t, x, z, NEIGHBORS as nat).len() ==> holds(
                t.at(x, z).height,
                neighbors::neighbors_on_grid(t, x, z, NEIGHBORS as nat)[i],
                params,
            ),
    ensures
        t.settled(x, z, params) == t,
{
    let here = t.at(x, z).height;
    let ns = neighbors::neighbors_on_grid(t, x, z, NEIGHBORS as nat);
    let sorted = neighbors::by_height(ns);
    assert forall|i: int| 0 <= i < sorted.len() implies holds(here, #[trigger] sorted[i], params) by {
        neighbors::lemma_sorted_come_from_input(ns, i);
        let k = choose|k: int| 0 <= k < ns.len() && ns[k] == sorted[i];
        assert(holds(here, ns[k], params));
    }
    lemma_nothing_slides(t, x, z, here, sorted, params);
}

// ---- drops ----

/// A step of a drop keeps the shape of the grid and the averages and roots of every cell,
/// and tracks in no cell but the one that it starts from.
pub proof fn steps_track_one_cell<S: Scalar>(
    drop: Drop<S>,
    t: TerrainModel<S>,
    params: ErosionParams<S>,
    i: int,
)
    requires
        t.wf(),
        0 <= i < t.cells.len(),
    ensures
        drop.descended(t, params).1.wf(),
        drop.descended(t, params).1.size == t.size,
        drop.descended(t, params).1.cells[i].same_averages(t.cells[i]),
        drop.has_left(t) || i != t.position(drop.over_x(), drop.over_z())
            ==> drop.descended(t, params).1.cells[i].same_but_height(t.cells[i]),
{
    let x = drop.over_x();
    let z = drop.over_z();
    if !drop.has_left(t) {
        terrain_data::lemma_inside_reaches(t, x, z);
        let eroded = drop.moved(t, params).1;
        assert(eroded.wf());
        settling_changes_heights_only(eroded, x, z, params);
        let settled = eroded.settled(x, z, params);
        assert(settled.cells[i].same_but_height(eroded.cells[i]));
    }
}

/// A drop that goes on is over the grid, and one step older.
pub proof fn goers_stay_on_grid<S: Scalar>(
    drop: Drop<S>,
    t: TerrainModel<S>,
    params: ErosionParams<S>,
)
    requires
        drop.age < u32::MAX,
        drop.descended(t, params).2,
    ensures
        !drop.descended(t, params).0.has_left(t),
        drop.descended(t, params).0.age == drop.age + 1,
        drop.age <= params.max_age,
{
}

/// Followed to its end, a drop is too old, too small, or gone with no volume left.
pub proof fn drops_end<S: Scalar>(drop: Drop<S>, t: TerrainModel<S>, params: ErosionParams<S>)
    requires
        params.max_age < u32::MAX,
    ensures
        drop.descended_fully(t, params).0.is_spent(params)
            || drop.descended_fully(t, params).0.volume == scalar::zero::<S>(),
        drop.age <= params.max_age + 1 ==> drop.descended_fully(t, params).0.age <= params.max_age
            + 1,
    decreases params.max_age + 1 - drop.age,
{
    let (next, eroded, goes_on) = drop.descended(t, params);
    if goes_on {
        drops_end(next, eroded, params);
    }
}

/// Where sums are exact, a spent drop leaves all of its sediment on the grid.
pub proof fn spent_drops_deposit<S: Scalar>(
    drop: Drop<S>,
    t: TerrainModel<S>,
    params: ErosionParams<S>,
)
    requires
        scalar::exact_sums::<S>(),
        t.wf(),
        !drop.has_left(t),
        drop.is_spent(params),
    ensures
        total(drop.descended(t, params).1.cells) == total(t.cells).add(drop.sediment),
{
    terrain_data::lemma_inside_reaches(t, drop.over_x(), drop.over_z());
    raising_adds_to_total(t, drop.over_x(), drop.over_z(), drop.sediment);
}

/// Where sums are exact, a moving drop and the grid exchange sediment without making or
/// losing any: what the grid holds and what the drop carries, before any of its water
/// evaporates, add up to what they did.
pub proof fn moving_drops_exchange<S: Scalar>(
    drop: Drop<S>,
    t: TerrainModel<S>,
    params: ErosionParams<S>,
)
    requires
        scalar::exact_sums::<S>(),
        t.wf(),
        !drop.has_left(t),
    ensures
        total(drop.moved(t, params).1.cells).add(drop.loaded(t, params)) == total(t.cells).add(
            drop.sediment,
        ),
{
    let x = drop.over_x();
    let z = drop.over_z();
    terrain_data::lemma_inside_reaches(t, x, z);
    let cell = t.at(x, z);
    let speed = drop.step_from(t.slope(x, z), cell, params);
    let passed = t.with(x, z, cell.tracking(drop.volume, speed));
    let change = drop.exchanged(t, params);
    lemma_total_after_update(t.cells, t.position(x, z), cell.tracking(drop.volume, speed));
    scalar::lemma_cancel(total(passed.cells), total(t.cells), cell.height);
    lowering_takes_from_total(passed, x, z, change);
    let after = total(drop.moved(t, params).1.cells);
    assert(after.add(change) == total(t.cells));
    scalar::lemma_exact_sums(drop.sediment, change, change);
    scalar::lemma_exact_sums(after, change, drop.sediment);
}

/// Where sums are exact, a step of a drop that is neither gone nor spent conserves sediment:
/// the grid, settled, and what the drop was loaded with hold what grid and drop held before.
/// Where in addition nothing evaporates, the load is what the drop carries on.
pub proof fn steps_conserve<S: Scalar>(drop: Drop<S>, t: TerrainModel<S>, params: ErosionParams<S>)
    requires
        scalar::exact_sums::<S>(),
        t.wf(),
        !drop.has_left(t),
        !drop.is_spent(params),
    ensures
        total(drop.descended(t, params).1.cells).add(drop.loaded(t, params)) == total(t.cells).add(
            drop.sediment,
        ),
        drop.descended(t, params).0.sediment == drop.loaded(t, params).div(
            scalar::one::<S>().sub(params.evaporation_rate),
        ),
        drop.loaded(t, params).div(scalar::one::<S>().sub(params.evaporation_rate)) == drop.loaded(
            t,
            params,
        ) ==> total(drop.descended(t, params).1.cells).add(drop.descended(t, params).0.sediment)
            == total(t.cells).add(drop.sediment),
{
    let x = drop.over_x();
    let z = drop.over_z();
    terrain_data::lemma_inside_reaches(t, x, z);
    let eroded = drop.moved(t, params).1;
    assert(eroded.wf());
    moving_drops_exchange(drop, t, params);
    settling_conserves_height(eroded, x, z, params);
}

/// Whether a product keeps its value when one factor is divided by `k` and the other is
/// multiplied by it.
pub open spec fn shifts_between_factors<S: Scalar>(k: S) -> bool {
    forall|a: S, b: S| #[trigger] a.div(k).mul(b.mul(k)) == a.mul(b)
}

/// Evaporation keeps the sediment that a drop carries, as a concentration in its volume:
/// where products are exact enough for that, volume times concentration is what it was
/// after the exchange with the grid.
pub proof fn evaporation_keeps_sediment<S: Scalar>(
    drop: Drop<S>,
    t: TerrainModel<S>,
    params: ErosionParams<S>,
)
    requires
        shifts_between_factors(scalar::one::<S>().sub(params.evaporation_rate)),
    ensures
        drop.moved(t, params).0.sediment.mul(drop.moved(t, params).0.volume) == drop.loaded(
            t,
            params,
        ).mul(drop.volume),
{
}

/// What is cut from a quotient and from a product by one number leaves the product of both
/// short by no more than their sum.
proof fn lemma_cuts(l: int, v: int, k: int, s: int, w: int)
    requires
        0 <= l,
        0 <= v,
        0 < k,
        s == (l * 0x1_0000) / k,
        w == (v * k) / 0x1_0000,
    ensures
        0 <= s,
        0 <= w,
        s * w <= l * v <= s * w + s + w,
{
    let unit: int = 0x1_0000;
    let a = l * unit;
    let b = v * k;
    assert(b >= 0) by (nonlinear_arith)
        requires
            0 <= v,
            0 < k,
            b == v * k,
    ;
    vstd::arithmetic::div_mod::lemma_fundamental_div_mod(a, k);
    vstd::arithmetic::div_mod::lemma_mod_bound(a, k);
    assert(k * s <= a < k * s + k);
    assert(0 <= s) by (nonlinear_arith)
        requires
            0 <= a < k * s + k,
            0 < k,
    ;
    assert(unit * w <= b < unit * w + unit && 0 <= w);
    let whole = k * unit;
    assert(a * b == (l * v) * whole) by (nonlinear_arith)
        requires
            a == l * unit,
            b == v * k,
            whole == k * unit,
    ;
    assert((k * s) * (unit * w) == (s * w) * whole) by (nonlinear_arith)
        requires
            whole == k * unit,
    ;
    assert((k * s + k) * (unit * w + unit) == (s * w + s + w + 1) * whole) by (nonlinear_arith)
        requires
            whole == k * unit,
    ;
    let low = k * s;
    let high = k * s + k;
    let low2 = unit * w;
    let high2 = unit * w + unit;
    assert(0 <= low) by (nonlinear_arith)
        requires
            0 <= s,
            0 < k,
            low == k * s,
    ;
    assert(low * low2 <= a * b) by (nonlinear_arith)
        requires
            0 <= low <= a,
            0 <= low2 <= b,
    ;
    assert(a * b < high * high2) by (nonlinear_arith)
        requires
            0 <= a < high,
            0 <= b < high2,
    ;
    assert(s * w <= l * v && l * v < s * w + s + w + 1) by (nonlinear_arith)
        requires
            (s * w) * whole <= (l * v) * whole,
            (l * v) * whole < (s * w + s + w + 1) * whole,
            whole > 0,
    ;
}

pub open spec fn absolute(i: int) -> int {
    if i < 0 {
        -i
    } else {
        i
    }
}

/// In fixed-point numbers evaporation keeps the sediment of a drop as nearly as its steps
/// allow: volume times concentration, in steps of both, gets no larger, and falls short of
/// what it was by no more than the two numbers of steps together.
pub proof fn fixed_evaporation_keeps_sediment(
    drop: Drop<Fixed>,
    t: TerrainModel<Fixed>,
    params: ErosionParams<Fixed>,
)
    requires
        0 <= drop.volume.raw,
        0 < scalar::one::<Fixed>().sub(params.evaporation_rate).raw <= UNIT,
        absolute(drop.loaded(t, params).raw as int) * UNIT <= i64::MAX
            * scalar::one::<Fixed>().sub(params.evaporation_rate).raw,
    ensures
        ({
            let was = drop.loaded(t, params).raw * drop.volume.raw;
            let moved = drop.moved(t, params).0;
            let is = moved.sediment.raw * moved.volume.raw;
            &&& absolute(is) <= absolute(was)
            &&& absolute(was - is) <= absolute(moved.sediment.raw as int) + moved.volume.raw
        }),
{
    let kept = scalar::one::<Fixed>().sub(params.evaporation_rate);
    let k = kept.raw as int;
    let l = drop.loaded(t, params).raw as int;
    let v = drop.volume.raw as int;
    let size = absolute(l);
    let s = (size * 0x1_0000) / k;
    let w = (v * k) / 0x1_0000;
    lemma_cuts(size, v, k, s, w);
    assert(s <= i64::MAX) by (nonlinear_arith)
        requires
            s == (size * 0x1_0000) / k,
            size * 0x1_0000 <= 0x7fff_ffff_ffff_ffff * k,
            0 < k,
            0 <= size,
    ;
    assert(0 <= v * k <= v * 0x1_0000) by (nonlinear_arith)
        requires
            0 <= v,
            0 < k <= 0x1_0000,
    ;
    let moved = drop.moved(t, params).0;
    assert(moved.volume.raw == w);
    assert(moved.sediment.raw == if l >= 0 { s } else { -s });
    assert(s * w >= 0) by (nonlinear_arith)
        requires
            0 <= s,
            0 <= w,
    ;
    if l < 0 {
        assert(l * v == -(size * v)) by (nonlinear_arith)
            requires
                l == -size,
        ;
        assert((-s) * w == -(s * w)) by (nonlinear_arith);
    }
}

proof fn lemma_following_keeps_averages<S: Scalar>(
    drop: Drop<S>,
    t: TerrainModel<S>,
    params: ErosionParams<S>,
)
    requires
        t.wf(),
        params.max_age < u32::MAX,
    ensures
        drop.descended_fully(t, params).1.wf(),
        drop.descended_fully(t, params).1.same_averages(t),
    decreases params.max_age + 1 - drop.age,
{
    let (next, eroded, goes_on) = drop.descended(t, params);
    assert(eroded.wf() && eroded.same_averages(t)) by {
        assert forall|i: int| 0 <= i < t.cells.len() implies eroded.wf() && (
        #[trigger] eroded.cells[i]).same_averages(t.cells[i]) && eroded.size == t.size by {
            steps_track_one_cell(drop, t, params, i);
        }
        if t.cells.len() == 0 {
            let x = drop.over_x();
            let z = drop.over_z();
            if !drop.has_left(t) {
                terrain_data::lemma_inside_reaches(t, x, z);
            }
        } else {
            steps_track_one_cell(drop, t, params, 0);
        }
    }
    if goes_on {
        lemma_following_keeps_averages(next, eroded, params);
        let done = next.descended_fully(eroded, params).1;
        assert forall|i: int| 0 <= i < t.cells.len() implies (
        #[trigger] done.cells[i]).same_averages(t.cells[i]) by {
            assert(eroded.cells[i].same_averages(t.cells[i]));
        }
    }
}

// ---- frames ----

/// The drops of a frame keep the averages and the roots of every cell.
pub proof fn rain_keeps_averages<S: Scalar>(
    t: TerrainModel<S>,
    starts: Seq<(usize, usize)>,
    params: ErosionParams<S>,
)
    requires
        t.wf(),
        params.max_age < u32::MAX,
    ensures
        t.rained_on(starts, params).wf(),
        t.rained_on(starts, params).same_averages(t),
    decreases starts.len(),
{
    if starts.len() > 0 {
        let x = starts.last().0;
        let z = starts.last().1;
        let before = t.rained_on(starts.drop_last(), params);
        rain_keeps_averages(t, starts.drop_last(), params);
        let pos = crate::vector::Vec2 { x: S::of_index(x), y: S::of_index(z) };
        lemma_following_keeps_averages(Drop::<S>::fresh(pos), before, params);
        let after = before.rained_at(x as int, z as int, params);
        assert forall|i: int| 0 <= i < t.cells.len() implies (
        #[trigger] after.cells[i]).same_averages(t.cells[i]) by {
            assert(before.cells[i].same_averages(t.cells[i]));
        }
    }
}

/// A frame moves the averages of every cell from where they were towards what its drops
/// tracked there, and leaves the roots alone.
pub proof fn frames_move_averages<S: Scalar>(
    t: TerrainModel<S>,
    starts: Seq<(usize, usize)>,
    params: ErosionParams<S>,
    i: int,
)
    requires
        t.wf(),
        params.max_age < u32::MAX,
        0 <= i < t.cells.len(),
    ensures
        ({
            let was = t.cells[i];
            let is = t.after_frame(starts, params).cells[i];
            let rest = scalar::one::<S>().sub(params.learning_rate);
            let rate = params.learning_rate;
            &&& is.root_density == was.root_density
            &&& is.discharge == rest.mul(was.discharge).add(rate.mul(is.discharge_track))
            &&& is.momentum_x == rest.mul(was.momentum_x).add(rate.mul(is.momentum_x_track))
            &&& is.momentum_y == rest.mul(was.momentum_y).add(rate.mul(is.momentum_y_track))
        }),
{
    let cleared = t.untracked();
    let rained = cleared.rained_on(starts, params);
    rain_keeps_averages(cleared, starts, params);
    assert(rained.cells[i].same_averages(cleared.cells[i]));
}

} // verus!
