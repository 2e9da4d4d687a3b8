//! Drops that carry sediment downhill, and the slides that follow them.

use crate::cell::Cell;
use crate::config::ErosionParams;
use crate::neighbors;
use crate::neighbors::{neighbors_of, sort_by_height, Neighbor, NEIGHBORS};
use crate::random;
use crate::random::draw;
use crate::scalar;
use crate::scalar::{larger, magnitude, Scalar};
use crate::terrain_data;
use crate::terrain_data::{TerrainModel, TerrainResource};
use crate::vector::{IVec2, Vec2, Vec3};
use vstd::prelude::*;

verus! {

// ---- slides ----

/// How much of the difference in height to a neighbour is too much. A neighbour down at
/// the base takes all of it.
pub open spec fn excess_over<S: Scalar>(here: S, n: Neighbor<S>, params: ErosionParams<S>) -> S {
    let gap = scalar::magnitude_of(here.sub(n.height));
    if S::ratio_of(1, 10).lt(n.height) {
        scalar::larger_of(gap.sub(n.distance.mul(params.max_diff)), scalar::zero())
    } else {
        gap
    }
}

/// Whether anything slides between a point of height `here` and a neighbour.
pub open spec fn slides<S: Scalar>(here: S, n: Neighbor<S>, params: ErosionParams<S>) -> bool {
    !here.sub(n.height).same(scalar::zero()) && !excess_over(here, n, params).le(scalar::zero())
}

/// How much slides then: a share of half the excess.
pub open spec fn sliding<S: Scalar>(here: S, n: Neighbor<S>, params: ErosionParams<S>) -> S {
    params.settling_rate.mul(excess_over(here, n, params)).div(S::ratio_of(2, 1))
}

impl<S: Scalar> TerrainModel<S> {
    pub open spec fn lowered(self, x: int, z: int, amount: S) -> Self {
        self.with(x, z, self.at(x, z).lowered(amount))
    }

    pub open spec fn raised(self, x: int, z: int, amount: S) -> Self {
        self.with(x, z, self.at(x, z).raised(amount))
    }

    /// The grid after `amount` slid between `(x, z)` and a neighbour, from the higher to
    /// the lower.
    pub open spec fn slid(
        self,
        x: int,
        z: int,
        here: S,
        n: Neighbor<S>,
        params: ErosionParams<S>,
    ) -> Self {
        let amount = sliding(here, n, params);
        if !slides(here, n, params) {
            self
        } else if scalar::zero::<S>().lt(here.sub(n.height)) {
            self.lowered(x, z, amount).raised(n.x as int, n.z as int, amount)
        } else {
            self.raised(x, z, amount).lowered(n.x as int, n.z as int, amount)
        }
    }

    /// The grid after slides between `(x, z)` and each of `ns` in turn, all measured from
    /// the height `here` that the point had at the start.
    pub open spec fn slid_to_all(
        self,
        x: int,
        z: int,
        here: S,
        ns: Seq<Neighbor<S>>,
        params: ErosionParams<S>,
    ) -> Self
        decreases ns.len(),
    {
        if ns.len() == 0 {
            self
        } else {
            self.slid_to_all(x, z, here, ns.drop_last(), params).slid(x, z, here, ns.last(), params)
        }
    }

    /// The grid after the slope around `(x, z)` settled.
    pub open spec fn settled(self, x: int, z: int, params: ErosionParams<S>) -> Self {
        self.slid_to_all(
            x,
            z,
            self.at(x, z).height,
            neighbors::by_height(neighbors::neighbors_on_grid(self, x, z, NEIGHBORS as nat)),
            params,
        )
    }
}

/// Slides keep the shape of the grid.
pub proof fn lemma_slid_keeps_shape<S: Scalar>(
    t: TerrainModel<S>,
    x: int,
    z: int,
    here: S,
    ns: Seq<Neighbor<S>>,
    params: ErosionParams<S>,
)
    requires
        t.wf(),
        t.reaches(x, z),
        neighbors::all_on_grid(t, ns),
    ensures
        t.slid_to_all(x, z, here, ns, params).size == t.size,
        t.slid_to_all(x, z, here, ns, params).cells.len() == t.cells.len(),
    decreases ns.len(),
{
    if ns.len() > 0 {
        assert(neighbors::all_on_grid(t, ns.drop_last()));
        assert(!t.outside(ns.last().x as int, ns.last().z as int));
        terrain_data::lemma_inside_reaches(t, ns.last().x as int, ns.last().z as int);
        lemma_slid_keeps_shape(t, x, z, here, ns.drop_last(), params);
    }
}

/// Slides the excess between a point of height `here` at the start and one neighbour.
fn slide<S: Scalar>(
    terrain: &mut TerrainResource<S>,
    params: &ErosionParams<S>,
    x: usize,
    z: usize,
    here: S,
    n: Neighbor<S>,
)
    requires
        old(terrain)@.reaches(x as int, z as int),
        old(terrain)@.reaches(n.x as int, n.z as int),
    ensures
        final(terrain)@ == old(terrain)@.slid(x as int, z as int, here, n, *params),
{
    let zero: S = S::ratio(0, 1);
    let diff: S = here.minus(n.height);
    if diff.equals(zero) {
        return ;
    }
    let gap: S = magnitude(diff);
    let excess: S = if S::ratio(1, 10).below(n.height) {
        larger(gap.minus(n.distance.times(params.max_diff)), zero)
    } else {
        gap
    };
    if excess.at_most(zero) {
        return ;
    }
    let amount: S = params.settling_rate.times(excess).over(S::ratio(2, 1));
    if zero.below(diff) {
        lower(terrain, x, z, amount);
        raise(terrain, n.x, n.z, amount);
    } else {
        raise(terrain, x, z, amount);
        lower(terrain, n.x, n.z, amount);
    }
}

fn raise<S: Scalar>(terrain: &mut TerrainResource<S>, x: usize, z: usize, amount: S)
    requires
        old(terrain)@.reaches(x as int, z as int),
    ensures
        final(terrain)@ == old(terrain)@.raised(x as int, z as int, amount),
{
    let cell: &mut Cell<S> = terrain.cell_mut(x, z);
    cell.height = cell.height.plus(amount);
}

fn lower<S: Scalar>(terrain: &mut TerrainResource<S>, x: usize, z: usize, amount: S)
    requires
        old(terrain)@.reaches(x as int, z as int),
    ensures
        final(terrain)@ == old(terrain)@.lowered(x as int, z as int, amount),
{
    let cell: &mut Cell<S> = terrain.cell_mut(x, z);
    cell.height = cell.height.minus(amount);
}

/// Lets the slope around `pos` settle: what is too steep between the point and its
/// neighbours, from the lowest to the highest, slides down.
pub fn cascade<S: Scalar>(
    terrain: &mut TerrainResource<S>,
    params: &ErosionParams<S>,
    pos: IVec2,
)
    requires
        old(terrain)@.wf(),
        0 <= pos.x < i32::MAX,
        0 <= pos.y < i32::MAX,
        old(terrain)@.reaches(pos.x as int, pos.y as int),
    ensures
        final(terrain)@ == old(terrain)@.settled(pos.x as int, pos.y as int, *params),
        final(terrain)@.wf(),
        final(terrain)@.size == old(terrain)@.size,
{
    let x: i32 = pos.x;
    let z: i32 = pos.y;
    let ghost t = terrain@;
    let found: Vec<Neighbor<S>> = neighbors_of(terrain, x, z);
    let ns: Vec<Neighbor<S>> = sort_by_height(&found);
    proof {
        neighbors::lemma_sorted_neighbors_are_on_grid(t, x as int, z as int);
    }
    let ix: usize = x as usize;
    let iz: usize = z as usize;
    let here: S = terrain.height_at(ix, iz);
    let mut i: usize = 0;
    assert(ns@.take(0) =~= Seq::empty());
    while i < ns.len()
        invariant
            i <= ns.len(),
            ix == x,
            iz == z,
            t.wf(),
            t.reaches(x as int, z as int),
            neighbors::all_on_grid(t, ns@),
            terrain@.size == t.size,
            terrain@.cells.len() == t.cells.len(),
            terrain@ == t.slid_to_all(x as int, z as int, here, ns@.take(i as int), *params),
        decreases ns.len() - i,
    {
        proof {
            assert(ns@.take(i + 1).drop_last() =~= ns@.take(i as int));
            assert(!t.outside(ns@[i as int].x as int, ns@[i as int].z as int));
            terrain_data::lemma_inside_reaches(t, ns@[i as int].x as int, ns@[i as int].z as int);
        }
        slide(terrain, params, ix, iz, here, ns[i]);
        i = i + 1;
    }
    assert(ns@.take(i as int) =~= ns@);
}

// ---- drops ----

/// A drop of water.
#[derive(Clone, Copy, Debug)]
pub struct Drop<S> {
    /// Where it is, in grid coordinates.
    pub pos: Vec2<S>,
    pub speed: Vec2<S>,
    pub volume: S,
    /// How much sediment it carries.
    pub sediment: S,
    /// How many steps it has taken.
    pub age: u32,
}

impl<S: Scalar> Cell<S> {
    /// The cell after a drop passed it.
    pub open spec fn tracking(self, volume: S, speed: Vec2<S>) -> Self {
        Cell {
            discharge_track: self.discharge_track.add(volume),
            momentum_x_track: self.momentum_x_track.add(volume.mul(speed.x)),
            momentum_y_track: self.momentum_y_track.add(volume.mul(speed.y)),
            ..self
        }
    }
}

/// The length of a drop's step.
pub open spec fn stride<S: Scalar>() -> S {
    S::ratio_of(2, 1).square_root()
}

/// How readily sediment is exchanged: less where roots hold the ground.
pub open spec fn exchange_rate<S: Scalar>(cell: Cell<S>, params: ErosionParams<S>) -> S {
    params.deposition_rate.mul(
        scalar::larger_of(scalar::one::<S>().sub(cell.root_density), scalar::zero()),
    )
}

impl<S: Scalar> Drop<S> {
    pub open spec fn fresh(pos: Vec2<S>) -> Self {
        Drop {
            pos,
            speed: Vec2::zeros(),
            volume: scalar::one(),
            sediment: scalar::zero(),
            age: 0,
        }
    }

    /// The point of the grid that the drop is over.
    pub open spec fn over_x(self) -> int {
        self.pos.x.whole_i32() as int
    }

    pub open spec fn over_z(self) -> int {
        self.pos.y.whole_i32() as int
    }

    pub open spec fn has_left(self, t: TerrainModel<S>) -> bool {
        t.outside(self.over_x(), self.over_z())
    }

    /// Whether the drop is too old or too small to go on.
    pub open spec fn is_spent(self, params: ErosionParams<S>) -> bool {
        self.age > params.max_age || self.volume.lt(params.min_volume)
    }

    /// The speed after gravity pulled along the slope.
    pub open spec fn pulled(self, slope: Vec3<S>, params: ErosionParams<S>) -> Vec2<S> {
        self.speed.add(
            Vec2 { x: slope.x, y: slope.z }.scale(params.gravity).shrink(self.volume),
        )
    }

    /// The speed after the current of the cell pushed, by as much as it runs along.
    pub open spec fn pushed(
        self,
        speed: Vec2<S>,
        cell: Cell<S>,
        params: ErosionParams<S>,
    ) -> Vec2<S> {
        let current = Vec2 { x: cell.momentum_x, y: cell.momentum_y };
        if current.is_long() && speed.is_long() {
            let along = current.direction().inner(speed.direction());
            speed.add(
                current.scale(along.div(self.volume.add(cell.discharge))).scale(
                    params.momentum_transfer,
                ),
            )
        } else {
            speed
        }
    }

    /// The step that the drop takes from the cell it is over.
    pub open spec fn step_from(
        self,
        slope: Vec3<S>,
        cell: Cell<S>,
        params: ErosionParams<S>,
    ) -> Vec2<S> {
        let speed = self.pushed(self.pulled(slope, params), cell, params);
        if speed.is_long() {
            speed.direction().scale(stride())
        } else {
            speed
        }
    }

    /// The height that the drop comes down to at `pos`, from a cell of height `from`: off
    /// the grid, a little lower.
    pub open spec fn landing_height(t: TerrainModel<S>, pos: Vec2<S>, from: S) -> S {
        let x = pos.x.whole_usize() as int;
        let z = pos.y.whole_usize() as int;
        if t.outside(pos.x.whole_i32() as int, pos.y.whole_i32() as int) || t.outside(x, z) {
            from.sub(S::ratio_of(2, 1000))
        } else {
            t.at(x, z).height
        }
    }

    /// How much sediment the drop takes up on its way from a cell that water passes at
    /// `flow` to one of height `landing`; negative where it leaves some behind.
    pub open spec fn uptake(
        self,
        cell: Cell<S>,
        landing: S,
        flow: S,
        params: ErosionParams<S>,
    ) -> S {
        let capacity = scalar::larger_of(
            scalar::one::<S>().add(params.entrainment.mul(flow)).mul(cell.height.sub(landing)),
            scalar::zero(),
        );
        exchange_rate(cell, params).mul(capacity.sub(self.sediment))
    }

    /// One step of the drop: the drop and the grid after it, and whether it goes on.
    pub open spec fn descended(self, t: TerrainModel<S>, params: ErosionParams<S>) -> (
        Drop<S>,
        TerrainModel<S>,
        bool,
    ) {
        let x = self.over_x();
        let z = self.over_z();
        if self.has_left(t) {
            (Drop { volume: scalar::zero(), ..self }, t, false)
        } else if self.is_spent(params) {
            (self, t.raised(x, z, self.sediment), false)
        } else {
            let (moved, eroded) = self.moved(t, params);
            if moved.has_left(t) {
                (Drop { volume: scalar::zero(), ..moved }, eroded, false)
            } else {
                (Drop { age: (self.age + 1) as u32, ..moved }, eroded.settled(x, z, params), true)
            }
        }
    }

    /// How much sediment the drop takes from the cell that it is over.
    pub open spec fn exchanged(self, t: TerrainModel<S>, params: ErosionParams<S>) -> S {
        let x = self.over_x();
        let z = self.over_z();
        let cell = t.at(x, z);
        let speed = self.step_from(t.slope(x, z), cell, params);
        let passed = t.with(x, z, cell.tracking(self.volume, speed));
        let landing = Self::landing_height(passed, self.pos.add(speed), cell.height);
        self.uptake(cell, landing, passed.flow(x, z), params)
    }

    /// What the drop carries then, before any of its water evaporates.
    pub open spec fn loaded(self, t: TerrainModel<S>, params: ErosionParams<S>) -> S {
        self.sediment.add(self.exchanged(t, params))
    }

    /// The drop moved on by a step, loaded and evaporated, and the grid that it passed.
    pub open spec fn moved(self, t: TerrainModel<S>, params: ErosionParams<S>) -> (
        Drop<S>,
        TerrainModel<S>,
    ) {
        let x = self.over_x();
        let z = self.over_z();
        let cell = t.at(x, z);
        let speed = self.step_from(t.slope(x, z), cell, params);
        let pos = self.pos.add(speed);
        let passed = t.with(x, z, cell.tracking(self.volume, speed));
        let change = self.exchanged(t, params);
        let kept = scalar::one::<S>().sub(params.evaporation_rate);
        (
            Drop {
                pos,
                speed,
                volume: self.volume.mul(kept),
                sediment: self.loaded(t, params).div(kept),
                age: self.age,
            },
            passed.lowered(x, z, change),
        )
    }

    /// All steps of the drop: the drop and the grid after the last.
    pub open spec fn descended_fully(self, t: TerrainModel<S>, params: ErosionParams<S>) -> (
        Drop<S>,
        TerrainModel<S>,
    )
        decreases params.max_age + 1 - self.age,
        when params.max_age < u32::MAX
    {
        let (drop, eroded, goes_on) = self.descended(t, params);
        if goes_on {
            drop.descended_fully(eroded, params)
        } else {
            (drop, eroded)
        }
    }

    /// A drop that starts at `pos`.
    pub fn new(pos: Vec2<S>) -> (r: Self)
        ensures
            r == Self::fresh(pos),
    {
        Drop {
            pos,
            speed: Vec2::zero(),
            volume: S::ratio(1, 1),
            sediment: S::ratio(0, 1),
            age: 0,
        }
    }

    fn step(&self, slope: Vec3<S>, cell: Cell<S>, params: &ErosionParams<S>) -> (r: Vec2<S>)
        ensures
            r == self.step_from(slope, cell, *params),
    {
        let mut speed: Vec2<S> = self.speed.plus(
            Vec2 { x: slope.x, y: slope.z }.scaled(params.gravity).shrunk(self.volume),
        );
        let current: Vec2<S> = Vec2 { x: cell.momentum_x, y: cell.momentum_y };
        if current.has_length() && speed.has_length() {
            let along: S = current.normalize().dot(speed.normalize());
            speed = speed.plus(
                current.scaled(along.over(self.volume.plus(cell.discharge))).scaled(
                    params.momentum_transfer,
                ),
            );
        }
        if speed.has_length() {
            speed.normalize().scaled(S::ratio(2, 1).sqrt())
        } else {
            speed
        }
    }

    fn height_ahead(terrain: &TerrainResource<S>, pos: Vec2<S>, from: S) -> (r: S)
        requires
            terrain@.wf(),
        ensures
            r == Self::landing_height(terrain@, pos, from),
    {
        let x: usize = pos.x.to_usize();
        let z: usize = pos.y.to_usize();
        if terrain.oob_i32(pos.x.to_i32(), pos.y.to_i32()) || terrain.oob(x, z) {
            from.minus(S::ratio(2, 1000))
        } else {
            proof {
                terrain_data::lemma_inside_reaches(terrain@, x as int, z as int);
            }
            terrain.height_at(x, z)
        }
    }

    fn load(&self, cell: Cell<S>, landing: S, flow: S, params: &ErosionParams<S>) -> (r: S)
        ensures
            r == self.uptake(cell, landing, flow, *params),
    {
        let zero: S = S::ratio(0, 1);
        let one: S = S::ratio(1, 1);
        let rate: S = params.deposition_rate.times(larger(one.minus(cell.root_density), zero));
        let capacity: S = larger(
            one.plus(params.entrainment.times(flow)).times(cell.height.minus(landing)),
            zero,
        );
        rate.times(capacity.minus(self.sediment))
    }

    /// Takes one step downhill. Returns whether the drop goes on.
    pub fn descend(&mut self, terrain: &mut TerrainResource<S>, params: &ErosionParams<S>) -> (r:
        bool)
        requires
            old(terrain)@.wf(),
            old(self).age < u32::MAX || !old(self).descended(old(terrain)@, *params).2,
        ensures
            (*final(self), final(terrain)@, r) == old(self).descended(old(terrain)@, *params),
            final(terrain)@.wf(),
            final(terrain)@.size == old(terrain)@.size,
    {
        let x: i32 = self.pos.x.to_i32();
        let z: i32 = self.pos.y.to_i32();
        if terrain.oob_i32(x, z) {
            self.volume = S::ratio(0, 1);
            return false;
        }
        let ix: usize = x as usize;
        let iz: usize = z as usize;
        proof {
            terrain_data::lemma_inside_reaches(terrain@, x as int, z as int);
        }
        let cell: Cell<S> = *terrain.cell(ix, iz);
        let slope: Vec3<S> = terrain.normal(ix, iz);
        if self.age > params.max_age || self.volume.below(params.min_volume) {
            raise(terrain, ix, iz, self.sediment);
            return false;
        }
        let speed: Vec2<S> = self.step(slope, cell, params);
        self.speed = speed;
        self.pos = self.pos.plus(speed);
        {
            let passed: &mut Cell<S> = terrain.cell_mut(ix, iz);
            passed.discharge_track = passed.discharge_track.plus(self.volume);
            passed.momentum_x_track = passed.momentum_x_track.plus(self.volume.times(speed.x));
            passed.momentum_y_track = passed.momentum_y_track.plus(self.volume.times(speed.y));
        }
        let landing: S = Self::height_ahead(terrain, self.pos, cell.height);
        let change: S = self.load(cell, landing, terrain.discharge_at(ix, iz), params);
        let kept: S = S::ratio(1, 1).minus(params.evaporation_rate);
        lower(terrain, ix, iz, change);
        self.sediment = self.sediment.plus(change).over(kept);
        self.volume = self.volume.times(kept);
        if terrain.oob_i32(self.pos.x.to_i32(), self.pos.y.to_i32()) {
            self.volume = S::ratio(0, 1);
            return false;
        }
        cascade(terrain, params, IVec2 { x, y: z });
        self.age = self.age + 1;
        true
    }
}

// ---- frames ----

impl<S: Scalar> TerrainModel<S> {
    /// The grid after a drop fell at `(x, z)`. None falls on a point down at the base.
    pub open spec fn rained_at(self, x: int, z: int, params: ErosionParams<S>) -> Self {
        if self.at(x, z).height.lt(S::ratio_of(1, 10)) {
            self
        } else {
            let pos = Vec2 { x: S::of_index(x as usize), y: S::of_index(z as usize) };
            Drop::fresh(pos).descended_fully(self, params).1
        }
    }

    /// The grid after drops fell at each of `starts` in turn.
    pub open spec fn rained_on(self, starts: Seq<(usize, usize)>, params: ErosionParams<S>) -> Self
        decreases starts.len(),
    {
        if starts.len() == 0 {
            self
        } else {
            self.rained_on(starts.drop_last(), params).rained_at(
                starts.last().0 as int,
                starts.last().1 as int,
                params,
            )
        }
    }

    /// The grid after a frame whose drops start at `starts`.
    pub open spec fn after_frame(
        self,
        starts: Seq<(usize, usize)>,
        params: ErosionParams<S>,
    ) -> Self {
        self.untracked().rained_on(starts, params).merged(params.learning_rate)
    }
}

/// Whether all of `starts` lie in a square of `size * size` points.
pub open spec fn all_in_square(starts: Seq<(usize, usize)>, size: int) -> bool {
    forall|i: int|
        0 <= i < starts.len() ==> (#[trigger] starts[i]).0 < size && starts[i].1 < size
}

/// Whether both coordinates of each of `starts` were drawn from all of a square's side.
pub open spec fn all_drawn(starts: Seq<(usize, usize)>, size: int) -> bool {
    forall|i: int|
        0 <= i < starts.len() ==> random::drawn(
            0,
            size as i32,
            (#[trigger] starts[i]).0 as i32,
        ) && random::drawn(0, size as i32, starts[i].1 as i32)
}

/// Lets a drop fall at `(x, z)` and follows it to its end.
fn rain_at<S: Scalar>(
    terrain: &mut TerrainResource<S>,
    params: &ErosionParams<S>,
    x: usize,
    z: usize,
)
    requires
        old(terrain)@.wf(),
        !old(terrain)@.outside(x as int, z as int),
        params.max_age < u32::MAX,
    ensures
        final(terrain)@ == old(terrain)@.rained_at(x as int, z as int, *params),
        final(terrain)@.wf(),
        final(terrain)@.size == old(terrain)@.size,
{
    let ghost t = terrain@;
    proof {
        terrain_data::lemma_inside_reaches(t, x as int, z as int);
    }
    if terrain.height_at(x, z).below(S::ratio(1, 10)) {
        return ;
    }
    let mut drop: Drop<S> = Drop::new(Vec2 { x: S::from_index(x), y: S::from_index(z) });
    let ghost first = drop;
    let mut goes_on: bool = true;
    while goes_on
        invariant
            terrain@.wf(),
            terrain@.size == t.size,
            params.max_age < u32::MAX,
            goes_on ==> drop.age <= params.max_age + 1,
            goes_on ==> first.descended_fully(t, *params) == drop.descended_fully(
                terrain@,
                *params,
            ),
            !goes_on ==> first.descended_fully(t, *params) == (drop, terrain@),
        decreases (if goes_on { 1int } else { 0int }), params.max_age + 1 - drop.age,
    {
        goes_on = drop.descend(terrain, params);
    }
}

/// One frame of erosion, its drops starting at `starts`: clears the tracking, follows each
/// drop to its end, and moves the averages towards what was tracked.
pub fn erode_from<S: Scalar>(
    terrain: &mut TerrainResource<S>,
    params: &ErosionParams<S>,
    starts: &Vec<(usize, usize)>,
)
    requires
        old(terrain)@.wf(),
        params.max_age < u32::MAX,
        all_in_square(starts@, old(terrain)@.size),
    ensures
        final(terrain)@ == old(terrain)@.after_frame(starts@, *params),
        final(terrain)@.wf(),
{
    terrain.clear_tracking();
    let ghost t = terrain@;
    let mut i: usize = 0;
    assert(starts@.take(0) =~= Seq::empty());
    while i < starts.len()
        invariant
            i <= starts.len(),
            terrain@.wf(),
            terrain@.size == t.size,
            params.max_age < u32::MAX,
            all_in_square(starts@, t.size),
            terrain@ == t.rained_on(starts@.take(i as int), *params),
        decreases starts.len() - i,
    {
        assert(starts@.take(i + 1).drop_last() =~= starts@.take(i as int));
        let (x, z): (usize, usize) = starts[i];
        rain_at(terrain, params, x, z);
        i = i + 1;
    }
    assert(starts@.take(i as int) =~= starts@);
    terrain.merge_tracking(params.learning_rate);
}

/// One frame of erosion: `cycles_per_frame` drops fall at random.
pub fn erode<S: Scalar>(terrain: &mut TerrainResource<S>, params: &ErosionParams<S>)
    requires
        old(terrain)@.wf(),
        params.max_age < u32::MAX,
        old(terrain)@.size > 0 || params.cycles_per_frame == 0,
    ensures
        exists|starts: Seq<(usize, usize)>|
            starts.len() == params.cycles_per_frame && all_in_square(
                starts,
                old(terrain)@.size,
            ) && all_drawn(starts, old(terrain)@.size) && final(terrain)@ == #[trigger] old(terrain)@.after_frame(starts, *params),
        final(terrain)@.wf(),
{
    let size: i32 = terrain.size as i32;
    terrain.clear_tracking();
    let ghost t = terrain@;
    let ghost mut starts: Seq<(usize, usize)> = Seq::empty();
    let mut fallen: usize = 0;
    while fallen < params.cycles_per_frame
        invariant
            fallen <= params.cycles_per_frame,
            starts.len() == fallen,
            size > 0 || params.cycles_per_frame == 0,
            t.size == size,
            all_in_square(starts, size as int),
            all_drawn(starts, size as int),
            params.max_age < u32::MAX,
            terrain@.wf(),
            terrain@.size == t.size,
            terrain@ == t.rained_on(starts, *params),
        decreases params.cycles_per_frame - fallen,
    {
        let x: usize = draw(0, size) as usize;
        let z: usize = draw(0, size) as usize;
        proof {
            assert(starts.push((x, z)).drop_last() =~= starts);
            starts = starts.push((x, z));
        }
        rain_at(terrain, params, x, z);
        fallen = fallen + 1;
    }
    terrain.merge_tracking(params.learning_rate);
    assert(terrain@ == old(terrain)@.after_frame(starts, *params));
}

} // verus!
