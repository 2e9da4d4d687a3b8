//! Constants and parameters.

use crate::scalar::Scalar;
use vstd::prelude::*;

verus! {

/// How many squares the grid has along a side; it has one vertex more.
pub const GRID_SIZE: usize = 512;

/// How many squares a tile has along a side. One tile covers the grid.
pub const TILE_SIZE: usize = 512;

/// How many octaves of noise make up a height.
pub const OCTAVES: usize = 6;

/// The side of a grid square in the mesh.
pub open spec fn cell_side<S: Scalar>() -> S {
    S::ratio_of(2, 1)
}

pub fn cell_size<S: Scalar>() -> (r: S)
    ensures
        r == cell_side::<S>(),
{
    S::ratio(2, 1)
}

/// By how much heights are stretched where a normal is computed.
pub open spec fn height_stretch<S: Scalar>() -> S {
    S::ratio_of(80, 1)
}

pub fn map_scale<S: Scalar>() -> (r: S)
    ensures
        r == height_stretch::<S>(),
{
    S::ratio(80, 1)
}

/// How finely the first octave of noise is sampled.
pub open spec fn noise_step<S: Scalar>() -> S {
    S::ratio_of(15, 1000)
}

pub fn noise_scale<S: Scalar>() -> (r: S)
    ensures
        r == noise_step::<S>(),
{
    S::ratio(15, 1000)
}

/// By how much a noise value is multiplied to give a height.
pub open spec fn amplitude<S: Scalar>() -> S {
    S::ratio_of(30, 1)
}

pub fn height_amp<S: Scalar>() -> (r: S)
    ensures
        r == amplitude::<S>(),
{
    S::ratio(30, 1)
}

/// By how much heights are stretched, beyond the amplitude, where they are drawn.
pub open spec fn drawn_stretch<S: Scalar>() -> S {
    S::ratio_of(3, 1)
}

pub fn height_scale<S: Scalar>() -> (r: S)
    ensures
        r == drawn_stretch::<S>(),
{
    S::ratio(3, 1)
}

/// By how much the sampling gets finer from one octave to the next.
pub open spec fn octave_gap<S: Scalar>() -> S {
    S::ratio_of(2, 1)
}

pub fn lacunarity<S: Scalar>() -> (r: S)
    ensures
        r == octave_gap::<S>(),
{
    S::ratio(2, 1)
}

/// By how much the weight shrinks from one octave to the next.
pub open spec fn octave_fade<S: Scalar>() -> S {
    S::ratio_of(1, 2)
}

pub fn persistence<S: Scalar>() -> (r: S)
    ensures
        r == octave_fade::<S>(),
{
    S::ratio(1, 2)
}

/// What governs the erosion.
#[derive(Clone, Copy, Debug)]
pub struct ErosionParams<S> {
    /// How far the averages move towards a frame's tracking.
    pub learning_rate: S,
    /// The age beyond which a drop ends.
    pub max_age: u32,
    /// The volume below which a drop ends.
    pub min_volume: S,
    /// The share of its volume that a drop loses in a step.
    pub evaporation_rate: S,
    pub deposition_rate: S,
    pub entrainment: S,
    pub gravity: S,
    pub momentum_transfer: S,
    /// The difference in height, per unit of distance, that holds.
    pub max_diff: S,
    /// The share of the excess that slides in a step.
    pub settling_rate: S,
    /// How many drops fall in a frame.
    pub cycles_per_frame: usize,
}

impl<S: Scalar> ErosionParams<S> {
    /// The parameters that a run starts with.
    pub open spec fn initial() -> Self {
        ErosionParams {
            learning_rate: S::ratio_of(1, 10),
            max_age: 500,
            min_volume: S::ratio_of(1, 100),
            evaporation_rate: S::ratio_of(1, 1000),
            deposition_rate: S::ratio_of(1, 10),
            entrainment: S::ratio_of(10, 1),
            gravity: S::ratio_of(1, 1),
            momentum_transfer: S::ratio_of(1, 1),
            max_diff: S::ratio_of(1, 100),
            settling_rate: S::ratio_of(8, 10),
            cycles_per_frame: 512,
        }
    }
}

impl<S: Scalar> Default for ErosionParams<S> {
    fn default() -> (r: Self)
        ensures
            r == Self::initial(),
    {
        ErosionParams {
            learning_rate: S::ratio(1, 10),
            max_age: 500,
            min_volume: S::ratio(1, 100),
            evaporation_rate: S::ratio(1, 1000),
            deposition_rate: S::ratio(1, 10),
            entrainment: S::ratio(10, 1),
            gravity: S::ratio(1, 1),
            momentum_transfer: S::ratio(1, 1),
            max_diff: S::ratio(1, 100),
            settling_rate: S::ratio(8, 10),
            cycles_per_frame: 512,
        }
    }
}

} // verus!
