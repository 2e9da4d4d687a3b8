//! Particle-based hydraulic erosion on a square height grid.
//!
//! The simulation is written over [`scalar::Scalar`], the arithmetic that it needs of a
//! number type, so that every formula, branch and update below is stated and proved once,
//! whatever numbers a program runs it on.

pub mod balance;
pub mod camera;
pub mod cell;
pub mod config;
pub mod erf;
pub mod erosion;
pub mod fixed;
pub mod garden;
pub mod gpu_erosion;
pub mod neighbors;
pub mod rain;
pub mod random;
pub mod scalar;
pub mod slopes;
pub mod steps;
pub mod surface;
pub mod terrain;
pub mod terrain_data;
pub mod ui;
pub mod vector;
pub mod vegetation;
