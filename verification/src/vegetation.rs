//! Plants, and the roots by which they hold the ground.

use crate::cell::Cell;
use crate::config;
use crate::random;
use crate::random::draw;
use crate::scalar;
use crate::scalar::{larger, Scalar};
use crate::terrain_data;
use crate::terrain_data::{TerrainModel, TerrainResource};
use crate::vector::{Vec2, Vec3};
use vstd::prelude::*;

verus! {

/// What governs the vegetation.
#[derive(Clone, Copy, Debug)]
pub struct PlantParams<S> {
    pub max_size: S,
    /// The share of what is left to `max_size` that a plant grows by in a frame.
    pub grow_rate: S,
    /// The upward part of the normal below which the ground is too steep.
    pub max_steep: S,
    /// The flow of water from which on no plant lives.
    pub max_discharge: S,
    /// The height from which on no plant lives.
    pub max_height: S,
}

impl<S: Scalar> PlantParams<S> {
    /// The parameters that a run starts with.
    pub open spec fn initial() -> Self {
        PlantParams {
            max_size: S::ratio_of(15, 10),
            grow_rate: S::ratio_of(5, 100),
            max_steep: S::ratio_of(8, 10),
            max_discharge: S::ratio_of(3, 10),
            max_height: S::ratio_of(8, 10),
        }
    }
}

impl<S: Scalar> Default for PlantParams<S> {
    fn default() -> (r: Self)
        ensures
            r == Self::initial(),
    {
        PlantParams {
            max_size: S::ratio(15, 10),
            grow_rate: S::ratio(5, 100),
            max_steep: S::ratio(8, 10),
            max_discharge: S::ratio(3, 10),
            max_height: S::ratio(8, 10),
        }
    }
}

/// A plant.
#[derive(Clone, Copy, Debug)]
pub struct Plant<S> {
    /// Where it stands, in grid coordinates.
    pub pos: Vec2<S>,
    pub size: S,
}

impl<S: Scalar> Plant<S> {
    /// A plant that has not grown yet.
    pub open spec fn seedling(pos: Vec2<S>) -> Self {
        Plant { pos, size: scalar::zero() }
    }

    pub open spec fn grown(self, params: PlantParams<S>) -> Self {
        Plant {
            size: self.size.add(params.grow_rate.mul(params.max_size.sub(self.size))),
            ..self
        }
    }

    /// Grows by a share of what is left to the full size.
    pub fn grow(&mut self, params: &PlantParams<S>)
        ensures
            *final(self) == old(self).grown(*params),
    {
        self.size = self.size.plus(params.grow_rate.times(params.max_size.minus(self.size)));
    }
}

/// The ball that a plant is drawn as.
#[derive(Clone, Copy, Debug)]
pub struct Marker<S> {
    pub center: Vec3<S>,
    pub radius: S,
}

impl<S: Scalar> Plant<S> {
    /// The ball over the plant's point, half way up the range of heights and higher the
    /// larger the plant is.
    pub open spec fn drawn(self) -> Marker<S> {
        let level = S::ratio_of(1, 2).mul(config::amplitude()).mul(config::drawn_stretch());
        Marker {
            center: Vec3 {
                x: self.pos.x.mul(config::cell_side()),
                y: level.add(self.size.mul(S::ratio_of(2, 1))),
                z: self.pos.y.mul(config::cell_side()),
            },
            radius: scalar::larger_of(self.size.mul(S::ratio_of(3, 1)), S::ratio_of(1, 2)),
        }
    }

    /// The ball that the plant is drawn as.
    pub fn marker(&self) -> (r: Marker<S>)
        ensures
            r == self.drawn(),
    {
        let level: S = S::ratio(1, 2).times(config::height_amp()).times(config::height_scale());
        Marker {
            center: Vec3 {
                x: self.pos.x.times(config::cell_size()),
                y: level.plus(self.size.times(S::ratio(2, 1))),
                z: self.pos.y.times(config::cell_size()),
            },
            radius: larger(self.size.times(S::ratio(3, 1)), S::ratio(1, 2)),
        }
    }
}

/// All plants.
#[derive(Debug)]
pub struct VegetationPlants<S> {
    pub plants: Vec<Plant<S>>,
}

impl<S> View for VegetationPlants<S> {
    type V = Seq<Plant<S>>;

    open spec fn view(&self) -> Seq<Plant<S>> {
        self.plants@
    }
}

impl<S: Scalar> Default for VegetationPlants<S> {
    fn default() -> (r: Self)
        ensures
            r@ == Seq::<Plant<S>>::empty(),
    {
        VegetationPlants { plants: Vec::new() }
    }
}

// ---- roots ----

/// Whether roots reach over an offset.
pub open spec fn roots_reach(dx: int, dz: int) -> bool {
    -1 <= dx <= 1 && -1 <= dz <= 1
}

/// How densely roots take hold over an offset that they reach: fully where the plant
/// stands, less beside it, least across a corner.
pub open spec fn root_weight<S: Scalar>(dx: int, dz: int) -> S {
    if dx == 0 && dz == 0 {
        scalar::one()
    } else if dx == 0 || dz == 0 {
        S::ratio_of(6, 10)
    } else {
        S::ratio_of(4, 10)
    }
}

impl<S: Scalar> Cell<S> {
    pub open spec fn rooted(self, amount: S) -> Self {
        Cell { root_density: self.root_density.add(amount), ..self }
    }
}

impl<S: Scalar> TerrainModel<S> {
    /// Where the cell at position `i` lies.
    pub open spec fn x_of(self, i: int) -> int {
        i % self.size
    }

    pub open spec fn z_of(self, i: int) -> int {
        i / self.size
    }

    /// The grid after a plant at `(x, z)` rooted with strength `factor`.
    pub open spec fn rooted(self, x: int, z: int, factor: S) -> Self {
        TerrainModel {
            cells: Seq::new(
                self.cells.len(),
                |i: int|
                    if roots_reach(self.x_of(i) - x, self.z_of(i) - z) {
                        self.cells[i].rooted(
                            factor.mul(root_weight(self.x_of(i) - x, self.z_of(i) - z)),
                        )
                    } else {
                        self.cells[i]
                    },
            ),
            ..self
        }
    }
}

/// Coordinates in the square are those of their position.
pub proof fn lemma_coordinates_of_position<S: Scalar>(t: TerrainModel<S>, x: int, z: int)
    requires
        !t.outside(x, z),
    ensures
        t.x_of(t.position(x, z)) == x,
        t.z_of(t.position(x, z)) == z,
{
    vstd::arithmetic::div_mod::lemma_fundamental_div_mod_converse(z * t.size + x, t.size, z, x);
}

/// Every position has coordinates in the square.
pub proof fn lemma_position_has_coordinates<S: Scalar>(t: TerrainModel<S>, i: int)
    requires
        t.wf(),
        0 <= i < t.cells.len(),
    ensures
        !t.outside(t.x_of(i), t.z_of(i)),
        t.position(t.x_of(i), t.z_of(i)) == i,
{
    let size = t.size;
    assert(size > 0) by (nonlinear_arith)
        requires
            0 <= size,
            0 < size * size,
    ;
    vstd::arithmetic::div_mod::lemma_fundamental_div_mod(i, size);
    vstd::arithmetic::div_mod::lemma_mod_bound(i, size);
    let z = i / size;
    let x = i % size;
    assert(0 <= z < size) by (nonlinear_arith)
        requires
            i == size * z + x,
            0 <= x < size,
            0 <= i < size * size,
    ;
    assert(z * size == size * z) by (nonlinear_arith);
}

/// When the roots come to an offset, counted from the plant's own point.
spec fn root_turn(dx: int, dz: int) -> int {
    if dx == 0 && dz == 0 {
        0
    } else if dz == 0 {
        if dx == 1 {
            1
        } else {
            2
        }
    } else if dx == 0 {
        if dz == 1 {
            3
        } else {
            4
        }
    } else if dz == -1 {
        if dx == -1 {
            5
        } else {
            6
        }
    } else {
        if dx == -1 {
            7
        } else {
            8
        }
    }
}

/// The offset whose turn it is, and how densely roots take hold there.
fn root_offset<S: Scalar>(turn: usize) -> (r: (i64, i64, S))
    requires
        turn < 9,
    ensures
        roots_reach(r.0 as int, r.1 as int),
        root_turn(r.0 as int, r.1 as int) == turn,
        r.2 == root_weight::<S>(r.0 as int, r.1 as int),
{
    let full: S = S::ratio(1, 1);
    let beside: S = S::ratio(6, 10);
    let across: S = S::ratio(4, 10);
    match turn {
        0 => (0, 0, full),
        1 => (1, 0, beside),
        2 => (-1, 0, beside),
        3 => (0, 1, beside),
        4 => (0, -1, beside),
        5 => (-1, -1, across),
        6 => (1, -1, across),
        7 => (-1, 1, across),
        _ => (1, 1, across),
    }
}

/// Roots a plant at `pos` with strength `factor`, or uproots it where that is negative: the
/// densities of its own cell and of the eight around it change, as far as they lie on the
/// grid.
pub fn root_apply<S: Scalar>(terrain: &mut TerrainResource<S>, pos: Vec2<S>, factor: S)
    requires
        old(terrain)@.wf(),
    ensures
        final(terrain)@ == old(terrain)@.rooted(
            pos.x.whole_i32() as int,
            pos.y.whole_i32() as int,
            factor,
        ),
        final(terrain)@.wf(),
{
    let ghost t = terrain@;
    let x: i64 = pos.x.to_i32() as i64;
    let z: i64 = pos.y.to_i32() as i64;
    let size: i64 = terrain.size as i64;
    let mut turn: usize = 0;
    while turn < 9
        invariant
            turn <= 9,
            t.wf(),
            x == pos.x.whole_i32(),
            z == pos.y.whole_i32(),
            size == t.size,
            terrain@.size == t.size,
            terrain@.cells.len() == t.cells.len(),
            forall|i: int|
                0 <= i < t.cells.len() ==> #[trigger] terrain@.cells[i] == if roots_reach(
                    t.x_of(i) - x,
                    t.z_of(i) - z,
                ) && root_turn(t.x_of(i) - x, t.z_of(i) - z) < turn {
                    t.rooted(x as int, z as int, factor).cells[i]
                } else {
                    t.cells[i]
                },
        decreases 9 - turn,
    {
        let (dx, dz, weight): (i64, i64, S) = root_offset(turn);
        let nx: i64 = x + dx;
        let nz: i64 = z + dz;
        let ghost before = terrain@;
        if 0 <= nx && nx < size && 0 <= nz && nz < size {
            proof {
                terrain_data::lemma_inside_reaches(t, nx as int, nz as int);
                lemma_coordinates_of_position(t, nx as int, nz as int);
            }
            let cell: &mut Cell<S> = terrain.cell_mut(nx as usize, nz as usize);
            cell.root_density = cell.root_density.plus(factor.times(weight));
        }
        proof {
            assert forall|i: int| 0 <= i < t.cells.len() implies #[trigger] terrain@.cells[i]
                == if roots_reach(t.x_of(i) - x, t.z_of(i) - z) && root_turn(
                t.x_of(i) - x,
                t.z_of(i) - z,
            ) < turn + 1 {
                t.rooted(x as int, z as int, factor).cells[i]
            } else {
                t.cells[i]
            } by {
                lemma_position_has_coordinates(t, i);
                assert(before.cells[i] == before.cells[i]);
                let ex = t.x_of(i) - x;
                let ez = t.z_of(i) - z;
                if roots_reach(ex, ez) && root_turn(ex, ez) == turn {
                    assert(ex == dx && ez == dz);
                } else if i == t.position(nx as int, nz as int) && !t.outside(
                    nx as int,
                    nz as int,
                ) {
                    assert(ex == dx && ez == dz);
                }
            }
        }
        turn = turn + 1;
    }
    assert(terrain@.cells =~= t.rooted(x as int, z as int, factor).cells);
}

// ---- life and death ----

impl<S: Scalar> TerrainModel<S> {
    /// Whether a plant may sprout at `pos`.
    pub open spec fn may_spawn(self, pos: Vec2<S>, params: PlantParams<S>) -> bool {
        let x = pos.x.whole_usize() as int;
        let z = pos.y.whole_usize() as int;
        &&& !self.outside(x, z)
        &&& !params.max_discharge.le(self.flow(x, z))
        &&& !self.slope(x, z).y.lt(params.max_steep)
        &&& !params.max_height.le(self.at(x, z).height)
    }

    /// Whether no plant lives at `pos`: off the grid, in the water, or too high.
    pub open spec fn kills(self, pos: Vec2<S>, params: PlantParams<S>) -> bool {
        let x = pos.x.whole_usize() as int;
        let z = pos.y.whole_usize() as int;
        ||| self.outside(x, z)
        ||| params.max_discharge.le(self.flow(x, z))
        ||| params.max_height.le(self.at(x, z).height)
    }

    /// Where a plant at `parent` puts a child, if it does.
    pub open spec fn child_of(
        self,
        parent: Vec2<S>,
        params: PlantParams<S>,
        luck: Luck<S>,
    ) -> Option<Vec2<S>> {
        let pos = parent.add(
            Vec2 { x: S::ratio_of(luck.dx as i64, 1), y: S::ratio_of(luck.dz as i64, 1) },
        );
        let x = pos.x.whole_i32() as int;
        let z = pos.y.whole_i32() as int;
        if luck.fertility == 0 && !self.outside(x, z) && !params.max_discharge.le(self.flow(x, z))
            && !luck.rooting.le(self.at(x, z).root_density) && !self.slope(x, z).y.le(
            params.max_steep,
        ) {
            Some(pos)
        } else {
            None
        }
    }
}

/// What chance holds for one plant in one frame.
#[derive(Clone, Copy, Debug)]
pub struct Luck<S> {
    /// The plant dies of old age at zero, out of a thousand.
    pub death: i32,
    /// The plant is fertile at zero, out of twenty.
    pub fertility: i32,
    /// How far off a child comes down, up to four points each way.
    pub dx: i32,
    pub dz: i32,
    /// A child takes root only where the roots are less dense than this.
    pub rooting: S,
}

impl<S: Scalar> Luck<S> {
    /// Whether chance can hold this: each part of it was drawn from all of its range.
    pub open spec fn possible(self) -> bool {
        &&& random::drawn(0, 1000, self.death)
        &&& random::drawn(0, 20, self.fertility)
        &&& random::drawn((-4) as i32, 5, self.dx)
        &&& random::drawn((-4) as i32, 5, self.dz)
        &&& scalar::zero::<S>().le(self.rooting)
        &&& self.rooting.lt(scalar::one())
    }

    /// Draws all of it at random.
    pub fn draw() -> (r: Self)
        ensures
            r.possible(),
            0 <= r.death < 1000,
            0 <= r.fertility < 20,
            -4 <= r.dx < 5,
            -4 <= r.dz < 5,
    {
        Luck {
            death: draw(0, 1000),
            fertility: draw(0, 20),
            dx: draw(-4, 5),
            dz: draw(-4, 5),
            rooting: S::random_unit(),
        }
    }
}

/// Whether a plant may sprout at `pos`: on the grid, out of the water, neither too steep
/// nor too high.
pub fn can_spawn<S: Scalar>(
    pos: Vec2<S>,
    terrain: &TerrainResource<S>,
    params: &PlantParams<S>,
) -> (r: bool)
    requires
        terrain@.wf(),
    ensures
        r == terrain@.may_spawn(pos, *params),
{
    let x: usize = pos.x.to_usize();
    let z: usize = pos.y.to_usize();
    if terrain.oob(x, z) {
        return false;
    }
    proof {
        terrain_data::lemma_inside_reaches(terrain@, x as int, z as int);
    }
    if params.max_discharge.at_most(terrain.discharge_at(x, z)) {
        return false;
    }
    let n: Vec3<S> = terrain.normal(x, z);
    if n.y.below(params.max_steep) {
        return false;
    }
    if params.max_height.at_most(terrain.height_at(x, z)) {
        return false;
    }
    true
}

/// Whether a plant at `pos` dies: where none lives, and of old age where `death` is zero.
pub fn should_die_with<S: Scalar>(
    pos: Vec2<S>,
    terrain: &TerrainResource<S>,
    params: &PlantParams<S>,
    death: i32,
) -> (r: bool)
    requires
        terrain@.wf(),
    ensures
        r == (terrain@.kills(pos, *params) || death == 0),
{
    let x: usize = pos.x.to_usize();
    let z: usize = pos.y.to_usize();
    if terrain.oob(x, z) {
        return true;
    }
    proof {
        terrain_data::lemma_inside_reaches(terrain@, x as int, z as int);
    }
    if params.max_discharge.at_most(terrain.discharge_at(x, z)) {
        return true;
    }
    if params.max_height.at_most(terrain.height_at(x, z)) {
        return true;
    }
    death == 0
}

/// Whether a plant at `pos` dies: surely where none lives. Elsewhere it dies of old age, once
/// in a thousand draws, which is left to chance; [`should_die_with`] says what each draw
/// leads to.
pub fn should_die<S: Scalar>(
    pos: Vec2<S>,
    terrain: &TerrainResource<S>,
    params: &PlantParams<S>,
) -> (r: bool)
    requires
        terrain@.wf(),
    ensures
        exists|death: i32| #[trigger]
            random::drawn(0, 1000, death) && r == (terrain@.kills(pos, *params) || death == 0),
{
    let death: i32 = draw(0, 1000);
    should_die_with(pos, terrain, params, death)
}

/// Where a plant at `parent` puts a child, given what chance holds: nowhere unless it is
/// fertile and the child comes down on the grid, out of the water, where roots leave room
/// and the ground is not too steep.
pub fn try_reproduce_with<S: Scalar>(
    parent: Vec2<S>,
    terrain: &TerrainResource<S>,
    params: &PlantParams<S>,
    luck: &Luck<S>,
) -> (r: Option<Vec2<S>>)
    requires
        terrain@.wf(),
    ensures
        r == terrain@.child_of(parent, *params, *luck),
{
    if luck.fertility != 0 {
        return None;
    }
    let pos: Vec2<S> = parent.plus(
        Vec2 { x: S::ratio(luck.dx as i64, 1), y: S::ratio(luck.dz as i64, 1) },
    );
    let nx: i32 = pos.x.to_i32();
    let nz: i32 = pos.y.to_i32();
    if terrain.oob_i32(nx, nz) {
        return None;
    }
    let x: usize = nx as usize;
    let z: usize = nz as usize;
    proof {
        terrain_data::lemma_inside_reaches(terrain@, x as int, z as int);
    }
    if params.max_discharge.at_most(terrain.discharge_at(x, z)) {
        return None;
    }
    let density: S = terrain.cell(x, z).root_density;
    if luck.rooting.at_most(density) {
        return None;
    }
    let n: Vec3<S> = terrain.normal(x, z);
    if n.y.at_most(params.max_steep) {
        return None;
    }
    Some(pos)
}

/// Where a plant at `parent` puts a child, as chance has it.
pub fn try_reproduce<S: Scalar>(
    parent: Vec2<S>,
    terrain: &TerrainResource<S>,
    params: &PlantParams<S>,
) -> (r: Option<Vec2<S>>)
    requires
        terrain@.wf(),
    ensures
        exists|luck: Luck<S>|
            luck.possible() && r == #[trigger] terrain@.child_of(parent, *params, luck),
{
    let luck: Luck<S> = Luck::draw();
    try_reproduce_with(parent, terrain, params, &luck)
}

// ---- frames ----

/// The grid and the plants on it.
#[verifier::ext_equal]
pub struct Garden<S> {
    pub terrain: TerrainModel<S>,
    pub plants: Seq<Plant<S>>,
}

impl<S: Scalar> Garden<S> {
    /// The garden with a new plant at `pos`.
    pub open spec fn planted(self, pos: Vec2<S>) -> Self {
        Garden {
            terrain: self.terrain.rooted(
                pos.x.whole_i32() as int,
                pos.y.whole_i32() as int,
                scalar::one(),
            ),
            plants: self.plants.push(Plant::seedling(pos)),
        }
    }

    /// The garden without plant `i`, whose place the last one takes.
    pub open spec fn uprooted(self, i: int) -> Self {
        let pos = self.plants[i].pos;
        Garden {
            terrain: self.terrain.rooted(
                pos.x.whole_i32() as int,
                pos.y.whole_i32() as int,
                S::ratio_of((-1) as i64, 1),
            ),
            plants: self.plants.update(i, self.plants.last()).drop_last(),
        }
    }

    /// The garden after a seed came down at `(x, z)`.
    pub open spec fn seeded(self, x: usize, z: usize, params: PlantParams<S>) -> Self {
        let pos = Vec2 { x: S::of_index(x), y: S::of_index(z) };
        if self.terrain.may_spawn(pos, params) {
            self.planted(pos)
        } else {
            self
        }
    }

    /// The garden with plant `i` grown.
    pub open spec fn grown(self, i: int, params: PlantParams<S>) -> Self {
        Garden { plants: self.plants.update(i, self.plants[i].grown(params)), ..self }
    }

    /// Whether plant `i` dies.
    pub open spec fn dies(self, i: int, params: PlantParams<S>, luck: Luck<S>) -> bool {
        self.terrain.kills(self.plants[i].pos, params) || luck.death == 0
    }

    /// The garden after the turn of plant `i`: it grows, and then dies or may have a child.
    pub open spec fn tended(self, i: int, params: PlantParams<S>, luck: Luck<S>) -> Self {
        let g = self.grown(i, params);
        if g.dies(i, params, luck) {
            g.uprooted(i)
        } else {
            match g.terrain.child_of(g.plants[i].pos, params, luck) {
                Some(pos) => g.planted(pos),
                None => g,
            }
        }
    }

    /// Whose turn comes after that of plant `i`: where it died, that of the plant that took
    /// its place.
    pub open spec fn turn_after(self, i: int, params: PlantParams<S>, luck: Luck<S>) -> int {
        if self.dies(i, params, luck) {
            i
        } else {
            i + 1
        }
    }

    /// The garden and the turn after plants had their turns, from the first on, one for
    /// each of `lucks`.
    pub open spec fn after_turns(self, lucks: Seq<Luck<S>>, params: PlantParams<S>) -> (Self, int)
        decreases lucks.len(),
    {
        if lucks.len() == 0 {
            (self, 0)
        } else {
            let (g, i) = self.after_turns(lucks.drop_last(), params);
            (g.tended(i, params, lucks.last()), g.turn_after(i, params, lucks.last()))
        }
    }

    /// Whether chance can hold `lucks` and each of them goes to a plant.
    pub open spec fn takes(self, lucks: Seq<Luck<S>>, params: PlantParams<S>) -> bool
        decreases lucks.len(),
    {
        lucks.len() == 0 || {
            let (g, i) = self.after_turns(lucks.drop_last(), params);
            &&& self.takes(lucks.drop_last(), params)
            &&& lucks.last().possible()
            &&& i < g.plants.len()
        }
    }

    /// Whether `self` becomes `next` in a frame in which a seed comes down at `(x, z)`, drawn
    /// from the whole grid, and each plant has its turn, with what chance holds for it.
    pub open spec fn becomes(
        self,
        next: Self,
        params: PlantParams<S>,
        x: usize,
        z: usize,
        lucks: Seq<Luck<S>>,
    ) -> bool {
        &&& !self.terrain.outside(x as int, z as int)
        &&& random::drawn(0, self.terrain.size as i32, x as i32)
        &&& random::drawn(0, self.terrain.size as i32, z as i32)
        &&& self.seeded(x, z, params).takes(lucks, params)
        &&& self.seeded(x, z, params).after_turns(lucks, params) == (
            next,
            next.plants.len() as int,
        )
    }

    /// Whether `self` becomes `next` in some frame.
    pub open spec fn may_become(self, next: Self, params: PlantParams<S>) -> bool {
        exists|x: usize, z: usize, lucks: Seq<Luck<S>>| #[trigger]
            self.becomes(next, params, x, z, lucks)
    }
}

/// Lets a seed come down at `(x, z)`: a plant sprouts there if it may.
pub fn seed_at<S: Scalar>(
    terrain: &mut TerrainResource<S>,
    plants: &mut VegetationPlants<S>,
    params: &PlantParams<S>,
    x: usize,
    z: usize,
)
    requires
        old(terrain)@.wf(),
    ensures
        (Garden { terrain: final(terrain)@, plants: final(plants)@ }) == (Garden {
            terrain: old(terrain)@,
            plants: old(plants)@,
        }).seeded(x, z, *params),
        final(terrain)@.wf(),
{
    let pos: Vec2<S> = Vec2 { x: S::from_index(x), y: S::from_index(z) };
    if can_spawn(pos, terrain, params) {
        plants.plants.push(Plant { pos, size: S::ratio(0, 1) });
        root_apply(terrain, pos, S::ratio(1, 1));
    }
}

/// Gives plant `i` its turn, given what chance holds for it: it grows, and then dies or may
/// have a child. Returns whose turn comes next.
pub fn tend<S: Scalar>(
    terrain: &mut TerrainResource<S>,
    plants: &mut VegetationPlants<S>,
    params: &PlantParams<S>,
    i: usize,
    luck: &Luck<S>,
) -> (r: usize)
    requires
        old(terrain)@.wf(),
        i < old(plants)@.len(),
    ensures
        (Garden { terrain: final(terrain)@, plants: final(plants)@ }) == (Garden {
            terrain: old(terrain)@,
            plants: old(plants)@,
        }).tended(i as int, *params, *luck),
        r == (Garden { terrain: old(terrain)@, plants: old(plants)@ }).turn_after(
            i as int,
            *params,
            *luck,
        ),
        final(terrain)@.wf(),
{
    assert(i < plants.plants.len() <= usize::MAX);
    plants.plants[i].grow(params);
    let pos: Vec2<S> = plants.plants[i].pos;
    if should_die_with(pos, terrain, params, luck.death) {
        root_apply(terrain, pos, S::ratio(-1, 1));
        plants.plants.swap_remove(i);
        return i;
    }
    if let Some(child) = try_reproduce_with(pos, terrain, params, luck) {
        plants.plants.push(Plant { pos: child, size: S::ratio(0, 1) });
        root_apply(terrain, child, S::ratio(1, 1));
    }
    i + 1
}

/// One frame of vegetation, unless paused: a seed comes down at random, and every plant has
/// its turn, those that sprout meanwhile too.
pub fn update_vegetation<S: Scalar>(
    terrain: &mut TerrainResource<S>,
    plants: &mut VegetationPlants<S>,
    params: &PlantParams<S>,
    paused: bool,
)
    requires
        old(terrain)@.wf(),
        old(terrain)@.size > 0 || paused,
    ensures
        paused ==> final(terrain)@ == old(terrain)@ && final(plants)@ == old(plants)@,
        !paused ==> (Garden { terrain: old(terrain)@, plants: old(plants)@ }).may_become(
            Garden { terrain: final(terrain)@, plants: final(plants)@ },
            *params,
        ),
        final(terrain)@.wf(),
{
    if paused {
        return ;
    }
    let ghost first = Garden { terrain: terrain@, plants: plants@ };
    let size: i32 = terrain.size as i32;
    let x: usize = draw(0, size) as usize;
    let z: usize = draw(0, size) as usize;
    seed_at(terrain, plants, params, x, z);
    let ghost seeded = first.seeded(x, z, *params);
    let ghost mut lucks: Seq<Luck<S>> = Seq::empty();
    let mut i: usize = 0;
    while i < plants.plants.len()
        invariant
            terrain@.wf(),
            i <= plants@.len(),
            seeded.takes(lucks, *params),
            seeded.after_turns(lucks, *params) == (
                (Garden { terrain: terrain@, plants: plants@ }),
                i as int,
            ),
        decreases usize::MAX - i, plants@.len(),
    {
        let luck: Luck<S> = Luck::draw();
        proof {
            assert(lucks.push(luck).drop_last() =~= lucks);
            lucks = lucks.push(luck);
        }
        i = tend(terrain, plants, params, i, &luck);
    }
    assert(first.becomes(
        Garden { terrain: terrain@, plants: plants@ },
        *params,
        x,
        z,
        lucks,
    ));
}

} // verus!
