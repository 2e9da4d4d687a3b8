//! What holds of roots, of each plant's turn, and of whole frames.

use crate::fixed::Fixed;
use crate::random;
use crate::scalar;
use crate::scalar::Scalar;
use crate::slopes;
use crate::terrain_data;
use crate::terrain_data::TerrainModel;
use crate::vector::Vec2;
use crate::vegetation;
use crate::vegetation::{Garden, Luck, Plant, PlantParams};
use vstd::multiset::Multiset;
use vstd::prelude::*;

verus! {

// ---- roots ----

/// Whether an amount added with strength one is taken back with strength minus one.
pub open spec fn cancels<S: Scalar>(amount: S) -> bool {
    scalar::one::<S>().mul(amount).add(S::ratio_of((-1) as i64, 1).mul(amount)) == scalar::zero::<
        S,
    >()
}

/// Whether pulling roots out takes back what growing them added.
pub open spec fn roots_cancel<S: Scalar>() -> bool {
    forall|dx: int, dz: int| cancels::<S>(#[trigger] vegetation::root_weight::<S>(dx, dz))
}

/// Fixed-point roots cancel.
pub proof fn fixed_roots_cancel()
    ensures
        roots_cancel::<Fixed>(),
{
    let minus = Fixed::ratio_of((-1) as i64, 1);
    assert forall|dx: int, dz: int| cancels::<Fixed>(
        #[trigger] vegetation::root_weight::<Fixed>(dx, dz),
    ) by {
        assert(scalar::one::<Fixed>().raw == 65536);
        assert(minus.raw == -65536);
        assert(Fixed::ratio_of(6, 10).raw == 39321);
        assert(Fixed::ratio_of(4, 10).raw == 26214);
    }
}

/// Roots change no cell beyond one step, and no cell in anything but its root density.
pub proof fn roots_are_local<S: Scalar>(
    t: TerrainModel<S>,
    x: int,
    z: int,
    factor: S,
    x2: int,
    z2: int,
)
    requires
        t.wf(),
        !t.outside(x2, z2),
    ensures
        vegetation::roots_reach(x2 - x, z2 - z) ==> t.rooted(x, z, factor).at(x2, z2) == t.at(
            x2,
            z2,
        ).rooted(factor.mul(vegetation::root_weight(x2 - x, z2 - z))),
        !vegetation::roots_reach(x2 - x, z2 - z) ==> t.rooted(x, z, factor).at(x2, z2) == t.at(
            x2,
            z2,
        ),
{
    terrain_data::lemma_inside_reaches(t, x2, z2);
    vegetation::lemma_coordinates_of_position(t, x2, z2);
}

/// Where sums are exact, uprooting a plant leaves the grid as it was before the plant
/// rooted.
pub proof fn uprooting_reverses_rooting<S: Scalar>(t: TerrainModel<S>, x: int, z: int)
    requires
        scalar::exact_sums::<S>(),
        roots_cancel::<S>(),
    ensures
        t.rooted(x, z, scalar::one()).rooted(x, z, S::ratio_of((-1) as i64, 1)) == t,
{
    let minus = S::ratio_of((-1) as i64, 1);
    let back = t.rooted(x, z, scalar::one()).rooted(x, z, minus);
    assert forall|i: int| 0 <= i < t.cells.len() implies back.cells[i] == t.cells[i] by {
        let w = vegetation::root_weight::<S>(t.x_of(i) - x, t.z_of(i) - z);
        let d = t.cells[i].root_density;
        scalar::lemma_exact_sums(d, scalar::one::<S>().mul(w), minus.mul(w));
    }
    assert(back.cells =~= t.cells);
}

/// Roots spread alike in all directions: the weight over an offset is that over the offset
/// mirrored along either axis, or with its parts exchanged. It is one where the plant stands,
/// six tenths beside it, and four tenths across a corner.
pub proof fn roots_spread_alike<S: Scalar>(dx: int, dz: int)
    requires
        -1 <= dx <= 1,
        -1 <= dz <= 1,
    ensures
        vegetation::roots_reach(dx, dz),
        vegetation::root_weight::<S>(dx, dz) == vegetation::root_weight::<S>(-dx, dz),
        vegetation::root_weight::<S>(dx, dz) == vegetation::root_weight::<S>(dx, -dz),
        vegetation::root_weight::<S>(dx, dz) == vegetation::root_weight::<S>(dz, dx),
        dx == 0 && dz == 0 ==> vegetation::root_weight::<S>(dx, dz) == scalar::one::<S>(),
        (dx == 0) != (dz == 0) ==> vegetation::root_weight::<S>(dx, dz) == S::ratio_of(6, 10),
        dx != 0 && dz != 0 ==> vegetation::root_weight::<S>(dx, dz) == S::ratio_of(4, 10),
{
}

/// How much denser a plant's roots make the ground over an offset, in steps.
pub open spec fn density_in_steps(dx: int, dz: int) -> int {
    if dx < -1 || dx > 1 || dz < -1 || dz > 1 {
        0
    } else if dx == 0 && dz == 0 {
        0x1_0000
    } else if dx == 0 || dz == 0 {
        39321
    } else {
        26214
    }
}

/// A plant's roots make its point and every neighbour on the grid denser, and no other: by
/// one, six tenths or four tenths. Pulling them out makes each thinner by as much.
pub proof fn roots_hold_all_around(
    t: TerrainModel<Fixed>,
    x: int,
    z: int,
    x2: int,
    z2: int,
)
    requires
        t.wf(),
        !t.outside(x2, z2),
        -0x1000_0000_0000_0000 <= t.at(x2, z2).root_density.raw <= 0x1000_0000_0000_0000,
    ensures
        t.rooted(x, z, scalar::one()).at(x2, z2).root_density.raw == t.at(
            x2,
            z2,
        ).root_density.raw + density_in_steps(x2 - x, z2 - z),
        t.rooted(x, z, Fixed::ratio_of((-1) as i64, 1)).at(x2, z2).root_density.raw == t.at(
            x2,
            z2,
        ).root_density.raw - density_in_steps(x2 - x, z2 - z),
        -1 <= x2 - x <= 1 && -1 <= z2 - z <= 1 && t.at(x2, z2).root_density.raw == 0
            ==> t.rooted(x, z, scalar::one()).at(x2, z2).root_density.raw > 0,
{
    let minus = Fixed::ratio_of((-1) as i64, 1);
    roots_are_local(t, x, z, scalar::one(), x2, z2);
    roots_are_local(t, x, z, minus, x2, z2);
    assert(scalar::one::<Fixed>().raw == 65536);
    assert(minus.raw == -65536);
    assert(Fixed::ratio_of(6, 10).raw == 39321);
    assert(Fixed::ratio_of(4, 10).raw == 26214);
    slopes::lemma_unit_products(vegetation::root_weight::<Fixed>(x2 - x, z2 - z));
    assert(scalar::one::<Fixed>() == (Fixed { raw: 0x1_0000 }));
    assert(minus == (Fixed { raw: (-0x1_0000) as i64 }));
}

// ---- what plants share ----

/// Whether two grids agree cell by cell in all but root density.
pub open spec fn same_but_roots<S: Scalar>(t: TerrainModel<S>, other: TerrainModel<S>) -> bool {
    &&& t.size == other.size
    &&& t.cells.len() == other.cells.len()
    &&& forall|i: int|
        0 <= i < t.cells.len() ==> #[trigger] t.cells[i] == (crate::cell::Cell {
            root_density: t.cells[i].root_density,
            ..other.cells[i]
        })
}

/// What a plant at `pos` adds to the root density of cell `i` in a square of side `size`.
pub open spec fn share<S: Scalar>(size: int, i: int, pos: Vec2<S>) -> S {
    let dx = i % size - pos.x.whole_i32();
    let dz = i / size - pos.y.whole_i32();
    if vegetation::roots_reach(dx, dz) {
        scalar::one::<S>().mul(vegetation::root_weight(dx, dz))
    } else {
        scalar::zero()
    }
}

/// What all plants add to it.
pub open spec fn shares<S: Scalar>(size: int, i: int, plants: Seq<Plant<S>>) -> S
    decreases plants.len(),
{
    if plants.len() == 0 {
        scalar::zero()
    } else {
        shares(size, i, plants.drop_last()).add(share(size, i, plants.last().pos))
    }
}

/// Whether the roots are accounted for: the density of each cell is what `ground` gives,
/// and what the plants add to it.
pub open spec fn accounted<S: Scalar>(g: Garden<S>, ground: Seq<S>) -> bool {
    &&& g.terrain.cells.len() == ground.len()
    &&& forall|i: int|
        0 <= i < ground.len() ==> (#[trigger] g.terrain.cells[i]).root_density == ground[i].add(
            shares(g.terrain.size, i, g.plants),
        )
}

proof fn lemma_shares_after_update<S: Scalar>(
    size: int,
    i: int,
    plants: Seq<Plant<S>>,
    k: int,
    plant: Plant<S>,
)
    requires
        scalar::exact_sums::<S>(),
        0 <= k < plants.len(),
    ensures
        shares(size, i, plants.update(k, plant)).add(share(size, i, plants[k].pos)) == shares(
            size,
            i,
            plants,
        ).add(share(size, i, plant.pos)),
    decreases plants.len(),
{
    let after = plants.update(k, plant);
    let rest = plants.drop_last();
    let last = share(size, i, plants.last().pos);
    let new = share(size, i, plant.pos);
    if k == plants.len() - 1 {
        assert(after.drop_last() =~= rest);
        scalar::lemma_swap(shares(size, i, rest), new, last);
    } else {
        assert(after.drop_last() =~= rest.update(k, plant));
        lemma_shares_after_update(size, i, rest, k, plant);
        scalar::lemma_swap(
            shares(size, i, rest.update(k, plant)),
            last,
            share(size, i, plants[k].pos),
        );
        scalar::lemma_swap(shares(size, i, rest), last, new);
    }
}

proof fn lemma_planting_keeps_accounts<S: Scalar>(g: Garden<S>, pos: Vec2<S>, ground: Seq<S>)
    requires
        scalar::exact_sums::<S>(),
        accounted(g, ground),
    ensures
        accounted(g.planted(pos), ground),
{
    let h = g.planted(pos);
    assert forall|i: int| 0 <= i < ground.len() implies (
    #[trigger] h.terrain.cells[i]).root_density == ground[i].add(
        shares(h.terrain.size, i, h.plants),
    ) by {
        let before = shares(g.terrain.size, i, g.plants);
        let new = share(g.terrain.size, i, pos);
        assert(h.plants.drop_last() =~= g.plants);
        assert(g.terrain.cells[i].root_density == ground[i].add(before));
        scalar::lemma_exact_sums(ground[i], before, new);
        scalar::lemma_exact_sums(before, new, new);
    }
}

proof fn lemma_uprooting_keeps_accounts<S: Scalar>(g: Garden<S>, k: int, ground: Seq<S>)
    requires
        scalar::exact_sums::<S>(),
        roots_cancel::<S>(),
        0 <= k < g.plants.len(),
        accounted(g, ground),
    ensures
        accounted(g.uprooted(k), ground),
{
    let h = g.uprooted(k);
    let size = g.terrain.size;
    let swapped = g.plants.update(k, g.plants.last());
    let pos = g.plants[k].pos;
    assert(h.plants =~= swapped.drop_last());
    assert(swapped.last() == g.plants.last());
    assert forall|i: int| 0 <= i < ground.len() implies (
    #[trigger] h.terrain.cells[i]).root_density == ground[i].add(shares(size, i, h.plants)) by {
        let before = shares(size, i, g.plants);
        let after = shares(size, i, h.plants);
        let last = share(size, i, g.plants.last().pos);
        let gone = share(size, i, pos);
        lemma_shares_after_update(size, i, g.plants, k, g.plants.last());
        assert(shares(size, i, swapped) == after.add(last));
        scalar::lemma_swap(after, last, gone);
        scalar::lemma_cancel(after.add(gone), before, last);
        assert(g.terrain.cells[i].root_density == ground[i].add(before));
        let dx = i % size - pos.x.whole_i32();
        let dz = i / size - pos.y.whole_i32();
        if vegetation::roots_reach(dx, dz) {
            let w = vegetation::root_weight::<S>(dx, dz);
            let off = S::ratio_of((-1) as i64, 1).mul(w);
            assert(gone.add(off) == scalar::zero::<S>());
            scalar::lemma_exact_sums(ground[i], after, gone);
            scalar::lemma_exact_sums(ground[i].add(after), gone, off);
        } else {
            scalar::lemma_exact_sums(after, gone, gone);
        }
    }
}

proof fn lemma_growing_keeps_accounts<S: Scalar>(
    g: Garden<S>,
    k: int,
    params: PlantParams<S>,
    ground: Seq<S>,
)
    requires
        scalar::exact_sums::<S>(),
        0 <= k < g.plants.len(),
        accounted(g, ground),
    ensures
        accounted(g.grown(k, params), ground),
{
    let h = g.grown(k, params);
    assert forall|i: int| 0 <= i < ground.len() implies (
    #[trigger] h.terrain.cells[i]).root_density == ground[i].add(
        shares(h.terrain.size, i, h.plants),
    ) by {
        let size = g.terrain.size;
        lemma_shares_after_update(size, i, g.plants, k, g.plants[k].grown(params));
        scalar::lemma_cancel(
            shares(size, i, h.plants),
            shares(size, i, g.plants),
            share(size, i, g.plants[k].pos),
        );
        assert(g.terrain.cells[i].root_density == ground[i].add(shares(size, i, g.plants)));
    }
}

/// Where sums are exact, a plant's turn keeps the roots accounted for.
pub proof fn turns_keep_accounts<S: Scalar>(
    g: Garden<S>,
    k: int,
    params: PlantParams<S>,
    luck: Luck<S>,
    ground: Seq<S>,
)
    requires
        scalar::exact_sums::<S>(),
        roots_cancel::<S>(),
        0 <= k < g.plants.len(),
        accounted(g, ground),
    ensures
        accounted(g.tended(k, params, luck), ground),
{
    lemma_growing_keeps_accounts(g, k, params, ground);
    let h = g.grown(k, params);
    if h.dies(k, params, luck) {
        lemma_uprooting_keeps_accounts(h, k, ground);
    } else if let Some(pos) = h.terrain.child_of(h.plants[k].pos, params, luck) {
        lemma_planting_keeps_accounts(h, pos, ground);
    }
}

proof fn lemma_fixed_shares_are_never_negative(size: int, i: int, plants: Seq<Plant<Fixed>>)
    requires
        plants.len() * 0x1_0000 <= i64::MAX,
    ensures
        0 <= shares(size, i, plants).raw <= plants.len() * 0x1_0000,
    decreases plants.len(),
{
    if plants.len() > 0 {
        lemma_fixed_shares_are_never_negative(size, i, plants.drop_last());
        assert(scalar::zero::<Fixed>().raw == 0);
        assert(scalar::one::<Fixed>().raw == 65536);
        assert(Fixed::ratio_of(6, 10).raw == 39321);
        assert(Fixed::ratio_of(4, 10).raw == 26214);
        assert(0 <= share(size, i, plants.last().pos).raw <= 65536);
    } else {
        assert(scalar::zero::<Fixed>().raw == 0);
    }
}

/// In fixed-point numbers, where the roots are accounted for over bare ground, no density is
/// negative, however many plants, within the range of the numbers, there are.
pub proof fn fixed_roots_are_never_negative(g: Garden<Fixed>, ground: Seq<Fixed>, i: int)
    requires
        accounted(g, ground),
        0 <= i < ground.len(),
        ground[i] == scalar::zero::<Fixed>(),
        g.plants.len() * 0x1_0000 <= i64::MAX,
    ensures
        0 <= g.terrain.cells[i].root_density.raw,
{
    lemma_fixed_shares_are_never_negative(g.terrain.size, i, g.plants);
    assert(scalar::zero::<Fixed>().raw == 0);
}

// ---- frames ----

proof fn lemma_turns_are_counted<S: Scalar>(
    g: Garden<S>,
    lucks: Seq<Luck<S>>,
    params: PlantParams<S>,
)
    requires
        g.takes(lucks, params),
    ensures
        0 <= g.after_turns(lucks, params).1 <= g.after_turns(lucks, params).0.plants.len(),
    decreases lucks.len(),
{
    if lucks.len() > 0 {
        lemma_turns_are_counted(g, lucks.drop_last(), params);
    }
}

proof fn lemma_all_turns_keep_accounts<S: Scalar>(
    g: Garden<S>,
    lucks: Seq<Luck<S>>,
    params: PlantParams<S>,
    ground: Seq<S>,
)
    requires
        scalar::exact_sums::<S>(),
        roots_cancel::<S>(),
        g.takes(lucks, params),
        accounted(g, ground),
    ensures
        accounted(g.after_turns(lucks, params).0, ground),
    decreases lucks.len(),
{
    if lucks.len() > 0 {
        let rest = lucks.drop_last();
        let (h, i) = g.after_turns(rest, params);
        lemma_all_turns_keep_accounts(g, rest, params, ground);
        lemma_turns_are_counted(g, rest, params);
        turns_keep_accounts(h, i, params, lucks.last(), ground);
    }
}

/// Where sums are exact, a frame keeps the roots accounted for: the density of every cell
/// stays what the ground gives and what the living plants add, however many sprouted and
/// died.
pub proof fn frames_keep_accounts<S: Scalar>(
    g: Garden<S>,
    next: Garden<S>,
    params: PlantParams<S>,
    ground: Seq<S>,
)
    requires
        scalar::exact_sums::<S>(),
        roots_cancel::<S>(),
        g.may_become(next, params),
        accounted(g, ground),
    ensures
        accounted(next, ground),
{
    let (x, z, lucks) = choose|x: usize, z: usize, lucks: Seq<Luck<S>>| #[trigger]
        g.becomes(next, params, x, z, lucks);
    let pos = Vec2 { x: S::of_index(x), y: S::of_index(z) };
    if g.terrain.may_spawn(pos, params) {
        lemma_planting_keeps_accounts(g, pos, ground);
    }
    lemma_all_turns_keep_accounts(g.seeded(x, z, params), lucks, params, ground);
}

proof fn lemma_turns_change_roots_only<S: Scalar>(
    g: Garden<S>,
    lucks: Seq<Luck<S>>,
    params: PlantParams<S>,
)
    ensures
        same_but_roots(g.after_turns(lucks, params).0.terrain, g.terrain),
    decreases lucks.len(),
{
    if lucks.len() > 0 {
        lemma_turns_change_roots_only(g, lucks.drop_last(), params);
        let before = g.after_turns(lucks.drop_last(), params).0.terrain;
        let after = g.after_turns(lucks, params).0.terrain;
        assert forall|i: int| 0 <= i < after.cells.len() implies #[trigger] after.cells[i] == (
        crate::cell::Cell { root_density: after.cells[i].root_density, ..g.terrain.cells[i] }) by {
            assert(before.cells[i] == before.cells[i]);
        }
    }
}

/// A frame of vegetation changes nothing on the grid but root densities.
pub proof fn frames_change_roots_only<S: Scalar>(
    g: Garden<S>,
    next: Garden<S>,
    params: PlantParams<S>,
)
    requires
        g.may_become(next, params),
    ensures
        same_but_roots(next.terrain, g.terrain),
{
    let (x, z, lucks) = choose|x: usize, z: usize, lucks: Seq<Luck<S>>| #[trigger]
        g.becomes(next, params, x, z, lucks);
    let seeded = g.seeded(x, z, params);
    lemma_turns_change_roots_only(seeded, lucks, params);
    assert forall|i: int| 0 <= i < next.terrain.cells.len() implies #[trigger] next.terrain.cells[i]
        == (crate::cell::Cell {
        root_density: next.terrain.cells[i].root_density,
        ..g.terrain.cells[i]
    }) by {
        assert(seeded.terrain.cells[i] == seeded.terrain.cells[i]);
    }
}

/// Roots do not bear on where plants live.
pub proof fn roots_do_not_kill<S: Scalar>(
    t: TerrainModel<S>,
    other: TerrainModel<S>,
    pos: Vec2<S>,
    params: PlantParams<S>,
)
    requires
        t.wf(),
        same_but_roots(t, other),
    ensures
        t.kills(pos, params) == other.kills(pos, params),
{
    let x = pos.x.whole_usize() as int;
    let z = pos.y.whole_usize() as int;
    if !t.outside(x, z) {
        terrain_data::lemma_inside_reaches(t, x, z);
        assert(t.cells[t.position(x, z)] == t.cells[t.position(x, z)]);
    }
}

proof fn lemma_those_past_their_turn_live<S: Scalar>(
    g: Garden<S>,
    lucks: Seq<Luck<S>>,
    params: PlantParams<S>,
    k: int,
)
    requires
        g.terrain.wf(),
        g.takes(lucks, params),
        0 <= k < g.after_turns(lucks, params).1,
    ensures
        !g.terrain.kills(g.after_turns(lucks, params).0.plants[k].pos, params),
    decreases lucks.len(),
{
    if lucks.len() > 0 {
        let rest = lucks.drop_last();
        let luck = lucks.last();
        let (h, i) = g.after_turns(rest, params);
        lemma_turns_are_counted(g, rest, params);
        lemma_turns_change_roots_only(g, rest, params);
        if k < i {
            lemma_those_past_their_turn_live(g, rest, params, k);
        } else {
            roots_do_not_kill(h.terrain, g.terrain, h.plants[i].pos, params);
        }
    }
}

/// After a frame no plant stands where none lives: off the grid, in the water, or too high.
pub proof fn survivors_can_live<S: Scalar>(
    g: Garden<S>,
    next: Garden<S>,
    params: PlantParams<S>,
    k: int,
)
    requires
        g.terrain.wf(),
        g.may_become(next, params),
        0 <= k < next.plants.len(),
    ensures
        !next.terrain.kills(next.plants[k].pos, params),
{
    let (x, z, lucks) = choose|x: usize, z: usize, lucks: Seq<Luck<S>>| #[trigger]
        g.becomes(next, params, x, z, lucks);
    let seeded = g.seeded(x, z, params);
    lemma_turns_change_roots_only(seeded, lucks, params);
    lemma_those_past_their_turn_live(seeded, lucks, params, k);
    roots_do_not_kill(next.terrain, seeded.terrain, next.plants[k].pos, params);
}

/// Where a plant may sprout, it dies of nothing but old age.
pub proof fn sprouts_can_live<S: Scalar>(
    t: TerrainModel<S>,
    pos: Vec2<S>,
    params: PlantParams<S>,
)
    requires
        t.may_spawn(pos, params),
    ensures
        !t.kills(pos, params),
{
}

/// Where the numbers are ordered, no child takes root in a cell that is fully rooted.
pub proof fn dense_roots_leave_no_room<S: Scalar>(
    t: TerrainModel<S>,
    parent: Vec2<S>,
    params: PlantParams<S>,
    luck: Luck<S>,
)
    requires
        scalar::ordered::<S>(),
        luck.possible(),
    ensures
        match t.child_of(parent, params, luck) {
            Some(pos) => !scalar::one::<S>().le(
                t.at(pos.x.whole_i32() as int, pos.y.whole_i32() as int).root_density,
            ),
            None => true,
        },
{
}

/// Where a plant stands on the grid, water decides with height whether it lives, and steepness
/// besides whether one may sprout.
pub proof fn limits_decide_life<S: Scalar>(
    t: TerrainModel<S>,
    x: usize,
    z: usize,
    pos: Vec2<S>,
    params: PlantParams<S>,
)
    requires
        pos.x.whole_usize() == x,
        pos.y.whole_usize() == z,
    ensures
        x >= t.size || z >= t.size ==> t.kills(pos, params) && !t.may_spawn(pos, params),
        params.max_discharge.le(t.flow(x as int, z as int)) ==> t.kills(pos, params)
            && !t.may_spawn(pos, params),
        params.max_height.le(t.cells[z * t.size + x].height) ==> t.kills(pos, params)
            && !t.may_spawn(pos, params),
        t.slope(x as int, z as int).y.lt(params.max_steep) ==> !t.may_spawn(pos, params),
        x < t.size && z < t.size && !params.max_discharge.le(t.flow(x as int, z as int))
            && !params.max_height.le(t.cells[z * t.size + x].height) ==> !t.kills(pos, params) && (
        !t.slope(x as int, z as int).y.lt(params.max_steep) ==> t.may_spawn(pos, params)),
{
}

/// What chance holds for a plant is drawn in full: death out of a thousand, fertility out of
/// twenty, and four points each way.
pub proof fn luck_is_drawn_in_full<S: Scalar>(luck: Luck<S>)
    requires
        luck.possible(),
    ensures
        random::drawn(0, 1000, luck.death),
        random::drawn(0, 20, luck.fertility),
        random::drawn((-4) as i32, 5, luck.dx),
        random::drawn((-4) as i32, 5, luck.dz),
        0 <= luck.death < 1000,
        0 <= luck.fertility < 20,
        -4 <= luck.dx <= 4,
        -4 <= luck.dz <= 4,
        scalar::zero::<S>().le(luck.rooting) && luck.rooting.lt(scalar::one()),
{
    random::draws_lie_in_range(0, 1000, luck.death);
    random::draws_lie_in_range(0, 20, luck.fertility);
    random::draws_lie_in_range((-4) as i32, 5, luck.dx);
    random::draws_lie_in_range((-4) as i32, 5, luck.dz);
}

/// Milder limits spare more: where the numbers are ordered, what lives, sprouts or takes root
/// under some limits does so under limits that allow more water, height and steepness.
pub proof fn milder_limits_spare_more<S: Scalar>(
    t: TerrainModel<S>,
    pos: Vec2<S>,
    luck: Luck<S>,
    strict: PlantParams<S>,
    mild: PlantParams<S>,
)
    requires
        scalar::ordered::<S>(),
        strict.max_discharge.le(mild.max_discharge),
        strict.max_height.le(mild.max_height),
        mild.max_steep.le(strict.max_steep),
    ensures
        t.kills(pos, mild) ==> t.kills(pos, strict),
        t.may_spawn(pos, strict) ==> t.may_spawn(pos, mild),
        t.child_of(pos, strict, luck) is Some ==> t.child_of(pos, mild, luck) == t.child_of(
            pos,
            strict,
            luck,
        ),
{
    let x = pos.x.whole_usize() as int;
    let z = pos.y.whole_usize() as int;
    let flow = t.flow(x, z);
    let height = t.at(x, z).height;
    assert(mild.max_discharge.le(flow) ==> strict.max_discharge.le(flow));
    assert(mild.max_height.le(height) ==> strict.max_height.le(height));
    let up = t.slope(x, z).y;
    if up.lt(mild.max_steep) {
        assert(up.le(mild.max_steep));
        assert(up.le(strict.max_steep));
        assert(strict.max_steep.le(up) ==> mild.max_steep.le(up));
        assert(up.lt(strict.max_steep));
    }
    let child = pos.add(
        Vec2 { x: S::ratio_of(luck.dx as i64, 1), y: S::ratio_of(luck.dz as i64, 1) },
    );
    let cx = child.x.whole_i32() as int;
    let cz = child.y.whole_i32() as int;
    let stream = t.flow(cx, cz);
    let tilt = t.slope(cx, cz).y;
    assert(mild.max_discharge.le(stream) ==> strict.max_discharge.le(stream));
    assert(tilt.le(mild.max_steep) ==> tilt.le(strict.max_steep));
}

/// A child comes down off its parent by what chance holds along `x` and along `z`, on the grid,
/// and only of a fertile plant.
pub proof fn children_come_down_nearby(
    t: TerrainModel<Fixed>,
    parent: Vec2<Fixed>,
    params: PlantParams<Fixed>,
    luck: Luck<Fixed>,
)
    requires
        -4 <= luck.dx <= 4,
        -4 <= luck.dz <= 4,
        -0x1000_0000_0000_0000 <= parent.x.raw <= 0x1000_0000_0000_0000,
        -0x1000_0000_0000_0000 <= parent.y.raw <= 0x1000_0000_0000_0000,
    ensures
        match t.child_of(parent, params, luck) {
            Some(child) => {
                &&& luck.fertility == 0
                &&& child.x.raw == parent.x.raw + luck.dx * 0x1_0000
                &&& child.y.raw == parent.y.raw + luck.dz * 0x1_0000
                &&& !t.outside(child.x.whole_i32() as int, child.y.whole_i32() as int)
                &&& !luck.rooting.le(
                    t.at(child.x.whole_i32() as int, child.y.whole_i32() as int).root_density,
                )
                &&& !params.max_discharge.le(
                    t.flow(child.x.whole_i32() as int, child.y.whole_i32() as int),
                )
                &&& !t.slope(child.x.whole_i32() as int, child.y.whole_i32() as int).y.le(
                    params.max_steep,
                )
            },
            None => true,
        },
{
    assert(Fixed::ratio_of(luck.dx as i64, 1).raw == luck.dx * 65536);
    assert(Fixed::ratio_of(luck.dz as i64, 1).raw == luck.dz * 65536);
}

/// A fertile plant has a child wherever nothing forbids it: on the grid, out of the water, where
/// the roots leave room and the ground is not too steep.
pub proof fn fertile_plants_have_children<S: Scalar>(
    t: TerrainModel<S>,
    parent: Vec2<S>,
    params: PlantParams<S>,
    luck: Luck<S>,
    child: Vec2<S>,
)
    requires
        luck.fertility == 0,
        child.x == parent.x.add(S::ratio_of(luck.dx as i64, 1)),
        child.y == parent.y.add(S::ratio_of(luck.dz as i64, 1)),
        !t.outside(child.x.whole_i32() as int, child.y.whole_i32() as int),
        !params.max_discharge.le(
            t.flow(child.x.whole_i32() as int, child.y.whole_i32() as int),
        ),
        !luck.rooting.le(
            t.at(child.x.whole_i32() as int, child.y.whole_i32() as int).root_density,
        ),
        !t.slope(child.x.whole_i32() as int, child.y.whole_i32() as int).y.le(params.max_steep),
    ensures
        t.child_of(parent, params, luck) == Some(child),
{
}

/// A seed that may sprout becomes a plant of no size where it came down, rooted there with
/// strength one; any other leaves the garden as it was.
pub proof fn seeds_sprout_where_they_fall<S: Scalar>(
    g: Garden<S>,
    x: usize,
    z: usize,
    params: PlantParams<S>,
)
    requires
        S::of_index(x).whole_i32() == x,
        S::of_index(z).whole_i32() == z,
    ensures
        ({
            let next = g.seeded(x, z, params);
            let pos = Vec2 { x: S::of_index(x), y: S::of_index(z) };
            &&& g.terrain.may_spawn(pos, params) ==> {
                &&& next.plants.len() == g.plants.len() + 1
                &&& next.plants.last().pos == pos
                &&& next.plants.last().size == scalar::zero::<S>()
                &&& next.terrain == g.terrain.rooted(x as int, z as int, scalar::one())
            }
            &&& !g.terrain.may_spawn(pos, params) ==> next == g
        }),
{
}

/// In its turn a plant dies, and one plant is gone; or it lives, has grown, and there is one
/// more if it had a child. All others keep their place, but for the last, which takes that of
/// a plant that died.
pub proof fn turns_change_one_plant<S: Scalar>(
    g: Garden<S>,
    i: int,
    params: PlantParams<S>,
    luck: Luck<S>,
    k: int,
)
    requires
        0 <= i < g.plants.len(),
        0 <= k < g.plants.len(),
        k != i,
    ensures
        ({
            let next = g.tended(i, params, luck);
            let dead = g.terrain.kills(g.plants[i].pos, params) || luck.death == 0;
            let last = g.plants.len() - 1;
            let child = g.terrain.child_of(g.plants[i].pos, params, luck);
            &&& dead ==> next.plants.len() == last
            &&& dead && k < last ==> next.plants[k] == g.plants[k]
            &&& dead && i < last ==> next.plants[i] == g.plants[last]
            &&& !dead ==> next.plants[i] == g.plants[i].grown(params)
            &&& !dead ==> next.plants[k] == g.plants[k]
            &&& !dead && child is None ==> next.plants.len() == g.plants.len()
            &&& !dead && child is Some ==> next.plants.len() == g.plants.len() + 1
                && next.plants.last().pos == child->Some_0
        }),
{
}

/// Whether a share and the rest of it make up the whole.
pub open spec fn shares_add_up<S: Scalar>(rate: S) -> bool {
    forall|a: S|
        #[trigger] scalar::one::<S>().sub(rate).mul(a).add(rate.mul(a)) == a
}

/// Where sums are exact and shares add up, what a plant has left to its full size shrinks, in
/// a turn, to what the growth rate leaves of it; a plant of full size stays as it is.
pub proof fn growth_leaves_a_share<S: Scalar>(plant: Plant<S>, params: PlantParams<S>)
    requires
        scalar::exact_sums::<S>(),
        shares_add_up(params.grow_rate),
    ensures
        params.max_size.sub(plant.grown(params).size) == scalar::one::<S>().sub(
            params.grow_rate,
        ).mul(params.max_size.sub(plant.size)),
        plant.size == params.max_size && params.grow_rate.mul(scalar::zero()) == scalar::zero::<S>()
            ==> plant.grown(params) == plant,
{
    let full = params.max_size;
    let left = full.sub(plant.size);
    let gain = params.grow_rate.mul(left);
    let rest = scalar::one::<S>().sub(params.grow_rate).mul(left);
    let next = plant.size.add(gain);
    assert(rest.add(gain) == left);
    scalar::lemma_exact_sums(full, next, next);
    scalar::lemma_exact_sums(full, plant.size, next);
    scalar::lemma_exact_sums(rest, gain, plant.size);
    scalar::lemma_exact_sums(plant.size, gain, gain);
    scalar::lemma_cancel(full.sub(next), rest, next);
    if plant.size == full {
        let zero = scalar::zero::<S>();
        scalar::lemma_exact_sums(zero, full, full);
        scalar::lemma_exact_sums(full, zero, zero);
        scalar::lemma_cancel(left, zero, full);
    }
}

/// Where finite sums and shares keep their order, a plant that grows at a rate between zero
/// and one gets no smaller; and it does not outgrow its full size, unless adding what it has
/// left would already.
pub proof fn growth_keeps_order<S: Scalar>(plant: Plant<S>, params: PlantParams<S>)
    requires
        scalar::ordered::<S>(),
        scalar::finite_numbers_hold::<S>(),
        scalar::zero_vanishes::<S>(),
        scalar::sums_keep_order::<S>(),
        scalar::shares_keep_order::<S>(),
        scalar::zero::<S>().le(params.grow_rate) && params.grow_rate.le(scalar::one()),
        scalar::zero::<S>().le(params.max_size.sub(plant.size)),
        scalar::zero::<S>().finite() && plant.size.finite(),
        params.max_size.sub(plant.size).finite(),
    ensures
        plant.size.le(plant.grown(params).size),
        plant.size.add(params.max_size.sub(plant.size)).le(params.max_size)
            ==> plant.grown(params).size.le(params.max_size),
{
    let left = params.max_size.sub(plant.size);
    let gain = params.grow_rate.mul(left);
    assert(gain.finite());
    assert(plant.size.add(scalar::zero()).same(plant.size));
    assert(plant.size.add(scalar::zero()).le(plant.size.add(gain)));
    assert(plant.size.add(gain).le(plant.size.add(left)));
}

/// Where zero vanishes, a plant that has nothing left to its full size stays as large as it is,
/// at any finite rate.
pub proof fn full_plants_stay<S: Scalar>(plant: Plant<S>, params: PlantParams<S>)
    requires
        scalar::zero_vanishes::<S>(),
        params.grow_rate.finite(),
        plant.size.same(plant.size),
        scalar::is_zero(params.max_size.sub(plant.size)),
    ensures
        plant.grown(params).size.same(plant.size),
        plant.grown(params).pos == plant.pos,
{
    assert(scalar::is_zero(params.grow_rate.mul(params.max_size.sub(plant.size))));
}

/// A plant in fixed-point numbers that grows at a rate between zero and one gets no smaller
/// and does not outgrow its full size. What it has left to that size is, within a step, what
/// the rate leaves of what it had left; a plant of full size stays as it is.
pub proof fn growth_nears_full_size(plant: Plant<Fixed>, params: PlantParams<Fixed>)
    requires
        0 <= params.grow_rate.raw <= scalar::one::<Fixed>().raw,
        plant.size.raw <= params.max_size.raw,
        params.max_size.raw - plant.size.raw <= i64::MAX,
    ensures
        plant.size.raw <= plant.grown(params).size.raw <= params.max_size.raw,
        ({
            let share = scalar::one::<Fixed>().sub(params.grow_rate).mul(
                params.max_size.sub(plant.size),
            ).raw;
            share <= params.max_size.raw - plant.grown(params).size.raw <= share + 1
        }),
        plant.size == params.max_size ==> plant.grown(params) == plant,
{
    assert(scalar::one::<Fixed>().raw == 65536);
    let left = params.max_size.raw - plant.size.raw;
    let rate = params.grow_rate.raw as int;
    let rest = 65536 - rate;
    assert(0 <= rate * left <= 65536 * left) by (nonlinear_arith)
        requires
            0 <= rate <= 65536,
            0 <= left,
    ;
    assert(rest * left == 65536 * left - rate * left) by (nonlinear_arith)
        requires
            rest == 65536 - rate,
    ;
    assert(0 <= (rate * left) / 65536 <= left);
    assert(0 <= (rest * left) / 65536 <= left);
    assert(params.max_size.sub(plant.size).raw == left);
    assert(scalar::one::<Fixed>().sub(params.grow_rate).raw == rest);
    assert(left == 0 ==> rate * left == 0);
}

/// The plant after `n` turns of growth.
pub open spec fn grown_over<S: Scalar>(plant: Plant<S>, params: PlantParams<S>, n: nat) -> Plant<S>
    decreases n,
{
    if n == 0 {
        plant
    } else {
        grown_over(plant, params, (n - 1) as nat).grown(params)
    }
}

/// Over any number of turns, a plant in fixed-point numbers that grows at a rate between zero
/// and one gets no smaller and does not outgrow its full size.
pub proof fn growth_stays_below_full_size(
    plant: Plant<Fixed>,
    params: PlantParams<Fixed>,
    n: nat,
    m: nat,
)
    requires
        0 <= params.grow_rate.raw <= scalar::one::<Fixed>().raw,
        plant.size.raw <= params.max_size.raw,
        params.max_size.raw - plant.size.raw <= i64::MAX,
        n <= m,
    ensures
        plant.size.raw <= grown_over(plant, params, n).size.raw,
        grown_over(plant, params, n).size.raw <= grown_over(plant, params, m).size.raw,
        grown_over(plant, params, m).size.raw <= params.max_size.raw,
    decreases m,
{
    if m > 0 {
        let k = (m - 1) as nat;
        if n <= k {
            growth_stays_below_full_size(plant, params, n, k);
        } else {
            growth_stays_below_full_size(plant, params, k, k);
        }
        growth_nears_full_size(grown_over(plant, params, k), params);
    }
}

// ---- where plants come from ----

/// Whether a plant was there before the frame, or has sprouted in it, and has not had its
/// turn.
pub open spec fn waits<S: Scalar>(old_plants: Seq<Plant<S>>, plant: Plant<S>) -> bool {
    old_plants.contains(plant) || plant == Plant::seedling(plant.pos)
}

/// Whether a plant was there before the frame, or has sprouted in it, and has grown once
/// since.
pub open spec fn has_grown<S: Scalar>(
    old_plants: Seq<Plant<S>>,
    plant: Plant<S>,
    params: PlantParams<S>,
) -> bool {
    exists|was: Plant<S>| #[trigger]
        waits(old_plants, was) && plant == was.grown(params)
}

proof fn lemma_turns_grow_plants_once<S: Scalar>(
    g: Garden<S>,
    old_plants: Seq<Plant<S>>,
    lucks: Seq<Luck<S>>,
    params: PlantParams<S>,
    k: int,
)
    requires
        forall|j: int| 0 <= j < g.plants.len() ==> waits(old_plants, #[trigger] g.plants[j]),
        g.takes(lucks, params),
        0 <= k < g.after_turns(lucks, params).0.plants.len(),
    ensures
        ({
            let (h, i) = g.after_turns(lucks, params);
            &&& k < i ==> has_grown(old_plants, h.plants[k], params)
            &&& k >= i ==> waits(old_plants, h.plants[k])
        }),
    decreases lucks.len(),
{
    if lucks.len() > 0 {
        let rest = lucks.drop_last();
        let luck = lucks.last();
        let (h, i) = g.after_turns(rest, params);
        lemma_turns_are_counted(g, rest, params);
        lemma_turns_grow_plants_once(g, old_plants, rest, params, i);
        assert(waits(old_plants, h.plants[i]));
        let last = h.plants.len() - 1;
        lemma_turns_grow_plants_once(g, old_plants, rest, params, last);
        if k < h.plants.len() {
            lemma_turns_grow_plants_once(g, old_plants, rest, params, k);
        }
        let grown = h.grown(i, params);
        if !h.dies(i, params, luck) {
            if k == i {
                assert(h.tended(i, params, luck).plants[k] == h.plants[i].grown(params));
            }
        } else {
            assert(grown.dies(i, params, luck));
        }
    }
}

/// Every plant that is left after a frame was there before it, or sprouted in it, and has
/// grown exactly once since.
pub proof fn plants_grow_once_a_frame<S: Scalar>(
    g: Garden<S>,
    next: Garden<S>,
    params: PlantParams<S>,
    k: int,
)
    requires
        g.may_become(next, params),
        0 <= k < next.plants.len(),
    ensures
        has_grown(g.plants, next.plants[k], params),
{
    let (x, z, lucks) = choose|x: usize, z: usize, lucks: Seq<Luck<S>>| #[trigger]
        g.becomes(next, params, x, z, lucks);
    let seeded = g.seeded(x, z, params);
    assert forall|j: int| 0 <= j < seeded.plants.len() implies waits(
        g.plants,
        #[trigger] seeded.plants[j],
    ) by {
        if j < g.plants.len() {
            assert(seeded.plants[j] == g.plants[j]);
        }
    }
    lemma_turns_grow_plants_once(seeded, g.plants, lucks, params, k);
}

// ---- what happened to roots ----

/// A plant that came or went.
pub struct Change<S> {
    pub pos: Vec2<S>,
    pub came: bool,
}

/// The root density of cell `i` after `changes`, in their order: each plant that comes adds
/// its roots, and each that goes takes just those away.
pub open spec fn density_after<S: Scalar>(
    density: S,
    size: int,
    i: int,
    changes: Seq<Change<S>>,
) -> S
    decreases changes.len(),
{
    if changes.len() == 0 {
        density
    } else {
        let before = density_after(density, size, i, changes.drop_last());
        let change = changes.last();
        let dx = i % size - change.pos.x.whole_i32();
        let dz = i / size - change.pos.y.whole_i32();
        let factor = S::ratio_of(
            if change.came {
                1
            } else {
                (-1) as i64
            },
            1,
        );
        if vegetation::roots_reach(dx, dz) {
            before.add(factor.mul(vegetation::root_weight(dx, dz)))
        } else {
            before
        }
    }
}

/// Where the plants stand, each place as often as plants stand there.
pub open spec fn places<S>(plants: Seq<Plant<S>>) -> Multiset<Vec2<S>> {
    plants.map_values(|p: Plant<S>| p.pos).to_multiset()
}

/// The places after `changes`.
pub open spec fn places_after<S>(
    before: Multiset<Vec2<S>>,
    changes: Seq<Change<S>>,
) -> Multiset<Vec2<S>>
    decreases changes.len(),
{
    if changes.len() == 0 {
        before
    } else if changes.last().came {
        places_after(before, changes.drop_last()).insert(changes.last().pos)
    } else {
        places_after(before, changes.drop_last()).remove(changes.last().pos)
    }
}

/// Whether `changes` lead from one garden to another: they account for where the plants
/// stand, and for the root density of every cell.
pub open spec fn accounts_for<S: Scalar>(
    changes: Seq<Change<S>>,
    g: Garden<S>,
    next: Garden<S>,
) -> bool {
    &&& next.terrain.size == g.terrain.size
    &&& next.terrain.cells.len() == g.terrain.cells.len()
    &&& places(next.plants) == places_after(places(g.plants), changes)
    &&& forall|i: int|
        0 <= i < g.terrain.cells.len() ==> (
        #[trigger] next.terrain.cells[i]).root_density == density_after(
            g.terrain.cells[i].root_density,
            g.terrain.size,
            i,
            changes,
        )
}

proof fn lemma_planting_is_a_change<S: Scalar>(
    g: Garden<S>,
    h: Garden<S>,
    pos: Vec2<S>,
    changes: Seq<Change<S>>,
)
    requires
        accounts_for(changes, g, h),
    ensures
        accounts_for(changes.push(Change { pos, came: true }), g, h.planted(pos)),
{
    broadcast use vstd::seq_lib::group_to_multiset_ensures;

    let more = changes.push(Change { pos, came: true });
    let next = h.planted(pos);
    assert(more.drop_last() =~= changes);
    assert(next.plants.map_values(|p: Plant<S>| p.pos) =~= h.plants.map_values(
        |p: Plant<S>| p.pos,
    ).push(pos));
    assert forall|i: int| 0 <= i < g.terrain.cells.len() implies (
    #[trigger] next.terrain.cells[i]).root_density == density_after(
        g.terrain.cells[i].root_density,
        g.terrain.size,
        i,
        more,
    ) by {
        assert(h.terrain.cells[i].root_density == density_after(
            g.terrain.cells[i].root_density,
            g.terrain.size,
            i,
            changes,
        ));
    }
}

proof fn lemma_uprooting_is_a_change<S: Scalar>(
    g: Garden<S>,
    h: Garden<S>,
    k: int,
    changes: Seq<Change<S>>,
)
    requires
        accounts_for(changes, g, h),
        0 <= k < h.plants.len(),
    ensures
        accounts_for(
            changes.push(Change { pos: h.plants[k].pos, came: false }),
            g,
            h.uprooted(k),
        ),
{
    broadcast use vstd::seq_lib::group_to_multiset_ensures;

    let pos = h.plants[k].pos;
    let more = changes.push(Change { pos, came: false });
    let next = h.uprooted(k);
    assert(more.drop_last() =~= changes);
    let before = h.plants.map_values(|p: Plant<S>| p.pos);
    let after = next.plants.map_values(|p: Plant<S>| p.pos);
    let swapped = before.update(k, before.last());
    assert(after =~= swapped.drop_last());
    assert(swapped =~= after.push(before.last()));
    assert(swapped.to_multiset() == before.to_multiset().insert(before.last()).remove(pos));
    assert(after.to_multiset() =~= before.to_multiset().remove(pos)) by {
        assert(swapped.to_multiset() =~= after.to_multiset().insert(before.last()));
        assert(before.contains(pos)) by {
            assert(before[k] == pos);
        }
        assert(before.to_multiset().count(pos) > 0);
        assert forall|v: Vec2<S>| #[trigger]
            after.to_multiset().count(v) == before.to_multiset().remove(pos).count(v) by {
            assert(swapped.to_multiset().count(v) == after.to_multiset().insert(
                before.last(),
            ).count(v));
        }
    }
    assert forall|i: int| 0 <= i < g.terrain.cells.len() implies (
    #[trigger] next.terrain.cells[i]).root_density == density_after(
        g.terrain.cells[i].root_density,
        g.terrain.size,
        i,
        more,
    ) by {
        assert(h.terrain.cells[i].root_density == density_after(
            g.terrain.cells[i].root_density,
            g.terrain.size,
            i,
            changes,
        ));
    }
}

proof fn lemma_growing_is_no_change<S: Scalar>(
    g: Garden<S>,
    h: Garden<S>,
    k: int,
    params: PlantParams<S>,
    changes: Seq<Change<S>>,
)
    requires
        accounts_for(changes, g, h),
        0 <= k < h.plants.len(),
    ensures
        accounts_for(changes, g, h.grown(k, params)),
{
    assert(h.grown(k, params).plants.map_values(|p: Plant<S>| p.pos) =~= h.plants.map_values(
        |p: Plant<S>| p.pos,
    ));
}

proof fn lemma_turns_are_changes<S: Scalar>(
    g: Garden<S>,
    first: Garden<S>,
    lucks: Seq<Luck<S>>,
    params: PlantParams<S>,
    changes: Seq<Change<S>>,
) -> (all: Seq<Change<S>>)
    requires
        accounts_for(changes, g, first),
        first.takes(lucks, params),
    ensures
        accounts_for(all, g, first.after_turns(lucks, params).0),
    decreases lucks.len(),
{
    if lucks.len() == 0 {
        changes
    } else {
        let rest = lucks.drop_last();
        let luck = lucks.last();
        let (h, i) = first.after_turns(rest, params);
        let before = lemma_turns_are_changes(g, first, rest, params, changes);
        lemma_turns_are_counted(first, rest, params);
        lemma_growing_is_no_change(g, h, i, params, before);
        let grown = h.grown(i, params);
        let pos = grown.plants[i].pos;
        if grown.dies(i, params, luck) {
            lemma_uprooting_is_a_change(g, grown, i, before);
            before.push(Change { pos, came: false })
        } else {
            match grown.terrain.child_of(pos, params, luck) {
                Some(child) => {
                    lemma_planting_is_a_change(g, grown, child, before);
                    before.push(Change { pos: child, came: true })
                },
                None => before,
            }
        }
    }
}

/// Whatever the numbers, a frame is a series of plants that come and go, and nothing but
/// these moves a root density: each that comes adds its roots, and each that goes takes away
/// just what it would add.
pub proof fn frames_are_changes<S: Scalar>(
    g: Garden<S>,
    next: Garden<S>,
    params: PlantParams<S>,
)
    requires
        g.may_become(next, params),
    ensures
        exists|changes: Seq<Change<S>>| #[trigger] accounts_for(changes, g, next),
{
    let (x, z, lucks) = choose|x: usize, z: usize, lucks: Seq<Luck<S>>| #[trigger]
        g.becomes(next, params, x, z, lucks);
    let none: Seq<Change<S>> = Seq::empty();
    assert(accounts_for(none, g, g));
    let pos = Vec2 { x: S::of_index(x), y: S::of_index(z) };
    let sown = if g.terrain.may_spawn(pos, params) {
        lemma_planting_is_a_change(g, g, pos, none);
        none.push(Change { pos, came: true })
    } else {
        none
    };
    let all = lemma_turns_are_changes(g, g.seeded(x, z, params), lucks, params, sown);
    assert(accounts_for(all, g, next));
}

} // verus!
