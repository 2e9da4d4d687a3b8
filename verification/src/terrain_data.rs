//! The height grid.

use crate::cell::Cell;
use crate::config;
use crate::scalar;
use crate::scalar::{magnitude, Scalar};
use crate::vector::Vec3;
use vstd::prelude::*;

verus! {

/// The grid: `size * size` cells, row after row.
#[derive(Debug)]
pub struct TerrainResource<S> {
    /// The number of cells along a side.
    pub size: usize,
    /// The cell at `(x, z)` stands at `z * size + x`.
    pub cells: Vec<Cell<S>>,
}

/// What a [`TerrainResource`] holds.
#[verifier::ext_equal]
pub struct TerrainModel<S> {
    pub size: int,
    pub cells: Seq<Cell<S>>,
}

impl<S> View for TerrainResource<S> {
    type V = TerrainModel<S>;

    open spec fn view(&self) -> TerrainModel<S> {
        TerrainModel { size: self.size as int, cells: self.cells@ }
    }
}

impl<S: Scalar> TerrainModel<S> {
    /// One cell for each point of the square, whose coordinates all fit in an `i32`.
    pub open spec fn wf(self) -> bool {
        &&& 0 <= self.size <= i32::MAX
        &&& self.cells.len() == self.size * self.size
    }

    pub open spec fn position(self, x: int, z: int) -> int {
        z * self.size + x
    }

    /// Whether the coordinates lead to a cell.
    pub open spec fn reaches(self, x: int, z: int) -> bool {
        0 <= self.position(x, z) < self.cells.len()
    }

    pub open spec fn at(self, x: int, z: int) -> Cell<S> {
        self.cells[self.position(x, z)]
    }

    /// The grid with the cell at `(x, z)` replaced.
    pub open spec fn with(self, x: int, z: int, cell: Cell<S>) -> Self {
        TerrainModel { cells: self.cells.update(self.position(x, z), cell), ..self }
    }

    /// Whether the coordinates lie outside the square.
    pub open spec fn outside(self, x: int, z: int) -> bool {
        x < 0 || z < 0 || x >= self.size || z >= self.size
    }

    /// How much water passes, brought from `0..` to `0..1`.
    pub open spec fn flow(self, x: int, z: int) -> S {
        error_function(S::ratio_of(4, 10).mul(self.at(x, z).discharge))
    }

    /// The height of `(x, z)` over that of `(x0, z0)`.
    pub open spec fn rise(self, x0: int, z0: int, x: int, z: int) -> S {
        self.at(x, z).height.sub(self.at(x0, z0).height)
    }

    /// The sum of the normals of those of the four planes through `(x, z)` and a pair of
    /// its neighbours that lie on the grid.
    pub open spec fn summed_normal(self, x: int, z: int) -> Vec3<S> {
        let n0 = Vec3::zeros();
        let n1 = if !self.outside(x + 1, z + 1) {
            n0.add(
                edge(0, self.rise(x, z, x, z + 1), 1).outer(
                    edge(1, self.rise(x, z, x + 1, z), 0),
                ),
            )
        } else {
            n0
        };
        let n2 = if x > 0 && z > 0 {
            n1.add(
                edge(0, self.rise(x, z, x, z - 1), (-1) as i64).outer(
                    edge((-1) as i64, self.rise(x, z, x - 1, z), 0),
                ),
            )
        } else {
            n1
        };
        let n3 = if !self.outside(x + 1, z) && z > 0 {
            n2.add(
                edge(1, self.rise(x, z, x + 1, z), 0).outer(
                    edge(0, self.rise(x, z, x, z - 1), (-1) as i64),
                ),
            )
        } else {
            n2
        };
        if x > 0 && !self.outside(x, z + 1) {
            n3.add(
                edge((-1) as i64, self.rise(x, z, x - 1, z), 0).outer(
                    edge(0, self.rise(x, z, x, z + 1), 1),
                ),
            )
        } else {
            n3
        }
    }

    /// The normal at `(x, z)`: the summed normal, at length one unless it has none.
    pub open spec fn slope(self, x: int, z: int) -> Vec3<S> {
        let n = self.summed_normal(x, z);
        if scalar::zero::<S>().lt(n.norm()) {
            n.direction()
        } else {
            n
        }
    }

    /// The grid with nothing tracked yet.
    pub open spec fn untracked(self) -> Self {
        TerrainModel {
            cells: Seq::new(self.cells.len(), |i: int| self.cells[i].untracked()),
            ..self
        }
    }

    /// The grid with its averages moved by `rate` towards what was tracked.
    pub open spec fn merged(self, rate: S) -> Self {
        TerrainModel {
            cells: Seq::new(self.cells.len(), |i: int| self.cells[i].merged(rate)),
            ..self
        }
    }

    /// Whether two grids agree cell by cell in all but height and tracking.
    pub open spec fn same_averages(self, other: Self) -> bool {
        &&& self.size == other.size
        &&& self.cells.len() == other.cells.len()
        &&& forall|i: int|
            0 <= i < self.cells.len() ==> (#[trigger] self.cells[i]).same_averages(other.cells[i])
    }

    /// Whether two grids agree cell by cell in all but height.
    pub open spec fn same_but_heights(self, other: Self) -> bool {
        &&& self.size == other.size
        &&& self.cells.len() == other.cells.len()
        &&& forall|i: int|
            0 <= i < self.cells.len() ==> (#[trigger] self.cells[i]).same_but_height(
                other.cells[i],
            )
    }
}

/// The step to a neighbour, heights stretched.
pub open spec fn edge<S: Scalar>(dx: i64, rise: S, dz: i64) -> Vec3<S> {
    Vec3 { x: S::ratio_of(dx, 1), y: rise, z: S::ratio_of(dz, 1) }.mul(
        Vec3 { x: scalar::one(), y: config::height_stretch(), z: scalar::one() },
    )
}

/// What the error function takes of one for a number that is not negative.
pub open spec fn error_tail<S: Scalar>(a: S) -> S {
    let one = scalar::one::<S>();
    let t = one.div(one.add(S::ratio_of(3275911, 10000000).mul(a)));
    let polynomial = S::ratio_of(1061405429, 1000000000).mul(t).sub(
        S::ratio_of(1453152027, 1000000000),
    ).mul(t).add(S::ratio_of(1421413741, 1000000000)).mul(t).sub(
        S::ratio_of(284496736, 1000000000),
    ).mul(t).add(S::ratio_of(254829592, 1000000000));
    polynomial.mul(t).mul(a.neg().mul(a).exponential())
}

/// The error function, approximated by the rational formula 7.1.26 of Abramowitz and
/// Stegun.
pub open spec fn error_function<S: Scalar>(x: S) -> S {
    let one = scalar::one::<S>();
    let sign = if x.lt(scalar::zero()) {
        S::ratio_of((-1) as i64, 1)
    } else {
        one
    };
    sign.mul(one.sub(error_tail(scalar::magnitude_of(x))))
}

pub fn erf_approx<S: Scalar>(x: S) -> (r: S)
    ensures
        r == error_function(x),
{
    let one: S = S::ratio(1, 1);
    let sign: S = if x.below(S::ratio(0, 1)) {
        S::ratio(-1, 1)
    } else {
        one
    };
    let a: S = magnitude(x);
    let t: S = one.over(one.plus(S::ratio(3275911, 10000000).times(a)));
    let polynomial: S = S::ratio(1061405429, 1000000000).times(t).minus(
        S::ratio(1453152027, 1000000000),
    ).times(t).plus(S::ratio(1421413741, 1000000000)).times(t).minus(
        S::ratio(284496736, 1000000000),
    ).times(t).plus(S::ratio(254829592, 1000000000));
    sign.times(one.minus(polynomial.times(t).times(a.negated().times(a).exp())))
}

fn step_to<S: Scalar>(dx: i64, rise: S, dz: i64) -> (r: Vec3<S>)
    ensures
        r == edge(dx, rise, dz),
{
    Vec3 { x: S::ratio(dx, 1), y: rise, z: S::ratio(dz, 1) }.times(
        Vec3 { x: S::ratio(1, 1), y: config::map_scale(), z: S::ratio(1, 1) },
    )
}

/// Coordinates in the square lead to a cell.
pub broadcast proof fn lemma_inside_reaches<S: Scalar>(t: TerrainModel<S>, x: int, z: int)
    requires
        t.wf(),
        !#[trigger] t.outside(x, z),
    ensures
        t.reaches(x, z),
{
    let size = t.size;
    assert(0 <= z * size + x < size * size) by (nonlinear_arith)
        requires
            0 <= x < size,
            0 <= z < size,
    ;
}

/// Different coordinates in the square lead to different cells.
pub proof fn positions_are_distinct<S: Scalar>(
    t: TerrainModel<S>,
    x: int,
    z: int,
    x2: int,
    z2: int,
)
    requires
        t.wf(),
        !t.outside(x, z),
        !t.outside(x2, z2),
    ensures
        t.position(x, z) == t.position(x2, z2) <==> x == x2 && z == z2,
{
    let size = t.size;
    if z != z2 {
        assert(z * size + x != z2 * size + x2) by (nonlinear_arith)
            requires
                0 <= x < size,
                0 <= x2 < size,
                z != z2,
        ;
    }
}

/// A cell that was written is read back, and writing it leaves every other cell of the
/// square as it was.
pub proof fn reads_follow_writes<S: Scalar>(
    t: TerrainModel<S>,
    x: int,
    z: int,
    cell: Cell<S>,
    x2: int,
    z2: int,
)
    requires
        t.wf(),
        !t.outside(x, z),
        !t.outside(x2, z2),
    ensures
        t.with(x, z, cell).wf(),
        t.with(x, z, cell).at(x, z) == cell,
        !(x == x2 && z == z2) ==> t.with(x, z, cell).at(x2, z2) == t.at(x2, z2),
{
    lemma_inside_reaches(t, x, z);
    lemma_inside_reaches(t, x2, z2);
    positions_are_distinct(t, x, z, x2, z2);
}

/// Clearing the tracking of a cleared grid changes nothing.
pub proof fn clearing_twice_is_clearing_once<S: Scalar>(t: TerrainModel<S>)
    ensures
        t.untracked().untracked() == t.untracked(),
{
    assert(t.untracked().untracked().cells =~= t.untracked().cells);
}

proof fn lemma_lower_neighbours<S: Scalar>(t: TerrainModel<S>, x: int, z: int)
    requires
        t.wf(),
        t.reaches(x, z),
        0 <= x,
        0 <= z,
    ensures
        x > 0 ==> t.reaches(x - 1, z),
        z > 0 ==> t.reaches(x, z - 1),
        x < t.cells.len(),
        z < t.cells.len(),
{
    let size = t.size;
    assert(size > 0) by (nonlinear_arith)
        requires
            0 < size * size,
            0 <= size,
    ;
    assert(z * size >= z) by (nonlinear_arith)
        requires
            0 <= z,
            0 < size,
    ;
    if z > 0 {
        assert((z - 1) * size == z * size - size && (z - 1) * size >= 0) by (nonlinear_arith)
            requires
                0 < z,
                0 <= size,
        ;
    }
}

impl<S: Scalar> TerrainResource<S> {
    /// A square of `size * size` empty cells.
    pub fn new(size: usize) -> (r: Self)
        requires
            size <= i32::MAX,
            size * size <= usize::MAX,
        ensures
            r@.wf(),
            r@.size == size,
            forall|i: int| 0 <= i < size * size ==> r@.cells[i] == Cell::<S>::empty(),
    {
        let count: usize = size * size;
        let mut cells: Vec<Cell<S>> = Vec::with_capacity(count);
        while cells.len() < count
            invariant
                cells.len() <= count,
                forall|i: int| 0 <= i < cells.len() ==> cells[i] == Cell::<S>::empty(),
            decreases count - cells.len(),
        {
            cells.push(Cell::default());
        }
        TerrainResource { size, cells }
    }

    pub fn index(&self, x: usize, z: usize) -> (r: usize)
        requires
            self@.reaches(x as int, z as int),
        ensures
            r == self@.position(x as int, z as int),
    {
        let size: usize = self.size;
        assert(0 <= z * size) by (nonlinear_arith)
            requires
                0 <= z,
                0 <= size,
        ;
        assert(self@.position(x as int, z as int) < self.cells.len());
        z * size + x
    }

    pub fn cell(&self, x: usize, z: usize) -> (r: &Cell<S>)
        requires
            self@.reaches(x as int, z as int),
        ensures
            *r == self@.at(x as int, z as int),
    {
        &self.cells[self.index(x, z)]
    }

    pub fn height_at(&self, x: usize, z: usize) -> (r: S)
        requires
            self@.reaches(x as int, z as int),
        ensures
            r == self@.at(x as int, z as int).height,
    {
        self.cell(x, z).height
    }

    /// How much water passes, brought from `0..` to `0..1` by the error function.
    pub fn discharge_at(&self, x: usize, z: usize) -> (r: S)
        requires
            self@.reaches(x as int, z as int),
        ensures
            r == self@.flow(x as int, z as int),
    {
        let d: S = self.cell(x, z).discharge;
        erf_approx(S::ratio(4, 10).times(d))
    }

    pub fn cell_mut(&mut self, x: usize, z: usize) -> (r: &mut Cell<S>)
        requires
            old(self)@.reaches(x as int, z as int),
        ensures
            *r == old(self)@.at(x as int, z as int),
            final(self)@ == old(self)@.with(x as int, z as int, *final(r)),
    {
        let i: usize = self.index(x, z);
        &mut self.cells[i]
    }

    pub fn set_height(&mut self, x: usize, z: usize, h: S)
        requires
            old(self)@.reaches(x as int, z as int),
        ensures
            final(self)@ == old(self)@.with(
                x as int,
                z as int,
                (Cell { height: h, ..old(self)@.at(x as int, z as int) }),
            ),
    {
        self.cell_mut(x, z).height = h;
    }

    /// Whether coordinates that may be negative lie outside the square.
    pub fn oob_i32(&self, x: i32, z: i32) -> (r: bool)
        requires
            self.size <= i32::MAX,
        ensures
            r == self@.outside(x as int, z as int),
    {
        x < 0 || z < 0 || x >= self.size as i32 || z >= self.size as i32
    }

    /// Whether coordinates lie outside the square.
    pub fn oob(&self, x: usize, z: usize) -> (r: bool)
        ensures
            r == self@.outside(x as int, z as int),
    {
        x >= self.size || z >= self.size
    }

    /// The normal at `(x, z)`, averaged over the four planes that the point spans with its
    /// neighbours; planes that leave the grid are left out.
    pub fn normal(&self, x: usize, z: usize) -> (r: Vec3<S>)
        requires
            self@.wf(),
            self@.reaches(x as int, z as int),
        ensures
            r == self@.slope(x as int, z as int),
    {
        broadcast use lemma_inside_reaches;

        let ghost t = self@;
        proof {
            lemma_lower_neighbours(t, x as int, z as int);
            assert(t.cells.len() == self.cells.len());
        }
        let here: S = self.height_at(x, z);
        let mut n: Vec3<S> = Vec3::zero();
        if !self.oob(x + 1, z + 1) {
            assert(!t.outside(x as int, z + 1));
            assert(!t.outside(x + 1, z as int));
            let b: S = self.height_at(x, z + 1).minus(here);
            let r: S = self.height_at(x + 1, z).minus(here);
            n = n.plus(step_to(0, b, 1).cross(step_to(1, r, 0)));
        }
        if x > 0 && z > 0 {
            let a: S = self.height_at(x, z - 1).minus(here);
            let l: S = self.height_at(x - 1, z).minus(here);
            n = n.plus(step_to(0, a, -1).cross(step_to(-1, l, 0)));
        }
        if !self.oob(x + 1, z) && z > 0 {
            let r: S = self.height_at(x + 1, z).minus(here);
            let a: S = self.height_at(x, z - 1).minus(here);
            n = n.plus(step_to(1, r, 0).cross(step_to(0, a, -1)));
        }
        if x > 0 && !self.oob(x, z + 1) {
            let l: S = self.height_at(x - 1, z).minus(here);
            let b: S = self.height_at(x, z + 1).minus(here);
            n = n.plus(step_to(-1, l, 0).cross(step_to(0, b, 1)));
        }
        if S::ratio(0, 1).below(n.length()) {
            n.normalize()
        } else {
            n
        }
    }

    /// Clears what was tracked.
    pub fn clear_tracking(&mut self)
        ensures
            final(self)@ == old(self)@.untracked(),
    {
        let zero: S = S::ratio(0, 1);
        let mut i: usize = 0;
        while i < self.cells.len()
            invariant
                i <= self.cells.len(),
                self.size == old(self).size,
                self.cells.len() == old(self).cells.len(),
                zero == scalar::zero::<S>(),
                forall|j: int| 0 <= j < i ==> self.cells[j] == old(self).cells[j].untracked(),
                forall|j: int| i <= j < self.cells.len() ==> self.cells[j] == old(self).cells[j],
            decreases self.cells.len() - i,
        {
            let cell: &mut Cell<S> = &mut self.cells[i];
            cell.discharge_track = zero;
            cell.momentum_x_track = zero;
            cell.momentum_y_track = zero;
            i = i + 1;
        }
        assert(self@.cells =~= old(self)@.untracked().cells);
    }

    /// Moves the averages towards what was tracked.
    pub fn merge_tracking(&mut self, learning_rate: S)
        ensures
            final(self)@ == old(self)@.merged(learning_rate),
    {
        let rest: S = S::ratio(1, 1).minus(learning_rate);
        let mut i: usize = 0;
        while i < self.cells.len()
            invariant
                i <= self.cells.len(),
                self.size == old(self).size,
                self.cells.len() == old(self).cells.len(),
                rest == scalar::one::<S>().sub(learning_rate),
                forall|j: int|
                    0 <= j < i ==> self.cells[j] == old(self).cells[j].merged(learning_rate),
                forall|j: int| i <= j < self.cells.len() ==> self.cells[j] == old(self).cells[j],
            decreases self.cells.len() - i,
        {
            let cell: &mut Cell<S> = &mut self.cells[i];
            cell.discharge = rest.times(cell.discharge).plus(
                learning_rate.times(cell.discharge_track),
            );
            cell.momentum_x = rest.times(cell.momentum_x).plus(
                learning_rate.times(cell.momentum_x_track),
            );
            cell.momentum_y = rest.times(cell.momentum_y).plus(
                learning_rate.times(cell.momentum_y_track),
            );
            i = i + 1;
        }
        assert(self@.cells =~= old(self)@.merged(learning_rate).cells);
    }

    /// All cells, row after row, to be changed in place.
    pub fn cells_mut_iter(&mut self) -> (r: &mut [Cell<S>])
        ensures
            r@ == old(self)@.cells,
            final(self)@ == (TerrainModel { cells: final(r)@, ..old(self)@ }),
    {
        self.cells.as_mut_slice()
    }

    /// All cells, row after row.
    pub fn cells_iter(&self) -> (r: core::slice::Iter<'_, Cell<S>>)
        ensures
            vstd::std_specs::slice::into_iter_elts(r) == self@.cells,
    {
        self.cells.as_slice().iter()
    }
}

} // verus!
