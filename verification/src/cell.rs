//! A point of the height grid.

use crate::scalar;
use crate::scalar::Scalar;
use vstd::prelude::*;

verus! {

/// All that the simulation keeps of a grid point.
#[derive(Clone, Copy, Debug)]
pub struct Cell<S> {
    pub height: S,
    /// How much water passes, averaged over frames.
    pub discharge: S,
    /// Which way it passes, averaged over frames.
    pub momentum_x: S,
    pub momentum_y: S,
    /// What the drops of the current frame add up to, cleared when a frame starts.
    pub discharge_track: S,
    pub momentum_x_track: S,
    pub momentum_y_track: S,
    /// How densely the point is rooted. Roots slow erosion.
    pub root_density: S,
}

impl<S: Scalar> Cell<S> {
    /// The cell with nothing in it.
    pub open spec fn empty() -> Self {
        Cell {
            height: scalar::zero(),
            discharge: scalar::zero(),
            momentum_x: scalar::zero(),
            momentum_y: scalar::zero(),
            discharge_track: scalar::zero(),
            momentum_x_track: scalar::zero(),
            momentum_y_track: scalar::zero(),
            root_density: scalar::zero(),
        }
    }

    /// The cell with nothing tracked yet.
    pub open spec fn untracked(self) -> Self {
        Cell {
            discharge_track: scalar::zero(),
            momentum_x_track: scalar::zero(),
            momentum_y_track: scalar::zero(),
            ..self
        }
    }

    /// The cell with its averages moved by `rate` towards what was tracked.
    pub open spec fn merged(self, rate: S) -> Self {
        let rest = scalar::one::<S>().sub(rate);
        Cell {
            discharge: rest.mul(self.discharge).add(rate.mul(self.discharge_track)),
            momentum_x: rest.mul(self.momentum_x).add(rate.mul(self.momentum_x_track)),
            momentum_y: rest.mul(self.momentum_y).add(rate.mul(self.momentum_y_track)),
            ..self
        }
    }

    /// The cell raised by `amount`.
    pub open spec fn raised(self, amount: S) -> Self {
        Cell { height: self.height.add(amount), ..self }
    }

    /// The cell lowered by `amount`.
    pub open spec fn lowered(self, amount: S) -> Self {
        Cell { height: self.height.sub(amount), ..self }
    }

    /// Whether two cells agree in all but height and tracking.
    pub open spec fn same_averages(self, other: Self) -> bool {
        &&& self.discharge == other.discharge
        &&& self.momentum_x == other.momentum_x
        &&& self.momentum_y == other.momentum_y
        &&& self.root_density == other.root_density
    }

    /// Whether two cells agree in all but height.
    pub open spec fn same_but_height(self, other: Self) -> bool {
        self == (Cell { height: self.height, ..other })
    }
}

impl<S: Scalar> Default for Cell<S> {
    fn default() -> (r: Self)
        ensures
            r == Self::empty(),
    {
        let zero: S = S::ratio(0, 1);
        Cell {
            height: zero,
            discharge: zero,
            momentum_x: zero,
            momentum_y: zero,
            discharge_track: zero,
            momentum_x_track: zero,
            momentum_y_track: zero,
            root_density: zero,
        }
    }
}

} // verus!
