//! The simulation on `f32`.

use hydraulic::camera::{camera_position, orbit_camera, CameraController, CameraKeys};
use hydraulic::cell::Cell;
use hydraulic::config::{cell_size, height_amp, height_scale, lacunarity, map_scale, noise_scale, persistence, ErosionParams};
use hydraulic::erosion::{cascade, erode, erode_from, Drop};
use hydraulic::gpu_erosion::{gpu_frame, heights_after_run, write_heights, GpuErosionParams};
use hydraulic::neighbors::{neighbors_of, sort_by_height};
use hydraulic::scalar::{clamp, larger, magnitude, smaller, Scalar};
use hydraulic::terrain::{generate_terrain_mesh, ground_color, lerp_color, noise_heights, sample_points, LinearRgba};
use hydraulic::terrain_data::{erf_approx, TerrainResource};
use hydraulic::vector::{IVec2, Vec2, Vec3};
use hydraulic::vegetation::{
    can_spawn, root_apply, seed_at, should_die, should_die_with, tend, try_reproduce,
    try_reproduce_with, update_vegetation, Luck, Plant, PlantParams, VegetationPlants,
};
use rand::Rng;

#[derive(Clone, Copy, Debug, PartialEq, PartialOrd)]
struct F32(f32);

impl Scalar for F32 {
    fn ratio_of(num: i64, den: u64) -> Self {
        Self::ratio(num, den)
    }

    fn of_index(i: usize) -> Self {
        Self::from_index(i)
    }

    fn top() -> Self {
        Self::greatest()
    }

    fn bottom() -> Self {
        Self::least()
    }

    fn add(self, other: Self) -> Self {
        self.plus(other)
    }

    fn sub(self, other: Self) -> Self {
        self.minus(other)
    }

    fn mul(self, other: Self) -> Self {
        self.times(other)
    }

    fn div(self, other: Self) -> Self {
        self.over(other)
    }

    fn neg(self) -> Self {
        self.negated()
    }

    fn square_root(self) -> Self {
        self.sqrt()
    }

    fn exponential(self) -> Self {
        self.exp()
    }

    fn sine(self) -> Self {
        self.sin()
    }

    fn cosine(self) -> Self {
        self.cos()
    }

    fn lt(self, other: Self) -> bool {
        self.below(other)
    }

    fn le(self, other: Self) -> bool {
        self.at_most(other)
    }

    fn same(self, other: Self) -> bool {
        self.equals(other)
    }

    fn finite(self) -> bool {
        self.is_finite()
    }

    fn whole_i32(self) -> i32 {
        self.to_i32()
    }

    fn whole_usize(self) -> usize {
        self.to_usize()
    }

    fn ratio(num: i64, den: u64) -> Self {
        F32((num as f64 / den as f64) as f32)
    }

    fn from_index(i: usize) -> Self {
        F32(i as f32)
    }

    fn greatest() -> Self {
        F32(f32::INFINITY)
    }

    fn least() -> Self {
        F32(f32::NEG_INFINITY)
    }

    fn plus(self, other: Self) -> Self {
        F32(self.0 + other.0)
    }

    fn minus(self, other: Self) -> Self {
        F32(self.0 - other.0)
    }

    fn times(self, other: Self) -> Self {
        F32(self.0 * other.0)
    }

    fn over(self, other: Self) -> Self {
        F32(self.0 / other.0)
    }

    fn negated(self) -> Self {
        F32(-self.0)
    }

    fn sqrt(self) -> Self {
        F32(self.0.sqrt())
    }

    fn exp(self) -> Self {
        F32(self.0.exp())
    }

    fn sin(self) -> Self {
        F32(self.0.sin())
    }

    fn cos(self) -> Self {
        F32(self.0.cos())
    }

    fn below(self, other: Self) -> bool {
        self.0 < other.0
    }

    fn at_most(self, other: Self) -> bool {
        self.0 <= other.0
    }

    fn equals(self, other: Self) -> bool {
        self.0 == other.0
    }

    fn is_finite(self) -> bool {
        self.0.is_finite()
    }

    fn to_i32(self) -> i32 {
        self.0 as i32
    }

    fn to_usize(self) -> usize {
        self.0 as usize
    }

    fn random_unit() -> Self {
        F32(rand::rng().random_range(0.0..1.0))
    }
}

const MAP_SCALE: f32 = 80.0;

fn length(v: Vec3<F32>) -> f32 {
    v.length().0
}

fn up() -> Vec3<F32> {
    Vec3 { x: F32(0.0), y: F32(1.0), z: F32(0.0) }
}

#[test]
fn cell_size_is_32_bytes() {
    assert_eq!(std::mem::size_of::<Cell<F32>>(), 32);
}

#[test]
fn cell_align_is_4() {
    assert_eq!(std::mem::align_of::<Cell<F32>>(), 4);
}

#[test]
fn cell_default_is_zero() {
    let c: Cell<F32> = Cell::default();
    assert_eq!(c.height.0, 0.0);
    assert_eq!(c.discharge.0, 0.0);
    assert_eq!(c.momentum_x.0, 0.0);
    assert_eq!(c.momentum_y.0, 0.0);
    assert_eq!(c.discharge_track.0, 0.0);
    assert_eq!(c.momentum_x_track.0, 0.0);
    assert_eq!(c.momentum_y_track.0, 0.0);
    assert_eq!(c.root_density.0, 0.0);
}

#[test]
fn new_creates_flat_terrain() {
    let t: TerrainResource<F32> = TerrainResource::new(4);
    assert_eq!(t.size, 4);
    assert_eq!(t.cells.len(), 16);
    for z in 0..4 {
        for x in 0..4 {
            assert_eq!(t.height_at(x, z).0, 0.0);
        }
    }
}

#[test]
fn index_and_access() {
    let mut t: TerrainResource<F32> = TerrainResource::new(4);
    t.set_height(2, 3, F32(5.0));
    assert_eq!(t.height_at(2, 3).0, 5.0);
    assert_eq!(t.cell(2, 3).height.0, 5.0);
}

#[test]
fn oob_checks() {
    let t: TerrainResource<F32> = TerrainResource::new(4);
    assert!(!t.oob(0, 0));
    assert!(!t.oob(3, 3));
    assert!(t.oob(4, 0));
    assert!(t.oob(0, 4));
    assert!(t.oob_i32(-1, 0));
    assert!(t.oob_i32(0, -1));
    assert!(t.oob_i32(4, 0));
}

#[test]
fn normal_on_flat_terrain_points_up() {
    let t: TerrainResource<F32> = TerrainResource::new(4);
    let n = t.normal(1, 1);
    assert!(length(n.minus(up())) < 0.001);
}

#[test]
fn normal_on_slope_points_downhill() {
    let mut t: TerrainResource<F32> = TerrainResource::new(4);
    t.set_height(0, 1, F32(0.0));
    t.set_height(1, 1, F32(-1.0 / MAP_SCALE));
    t.set_height(2, 1, F32(-2.0 / MAP_SCALE));
    let n = t.normal(1, 1);
    assert!(n.y.0 > 0.0, "normal should point upward");
    assert!(n.x.0 > 0.0, "normal should point downhill (+x), got n.x={}", n.x.0);
}

#[test]
fn clear_tracking_zeros_all() {
    let mut t: TerrainResource<F32> = TerrainResource::new(4);
    for cell in t.cells_mut_iter() {
        cell.discharge_track = F32(1.0);
        cell.momentum_x_track = F32(2.0);
        cell.momentum_y_track = F32(3.0);
    }
    t.clear_tracking();
    for cell in t.cells_iter() {
        assert_eq!(cell.discharge_track.0, 0.0);
        assert_eq!(cell.momentum_x_track.0, 0.0);
        assert_eq!(cell.momentum_y_track.0, 0.0);
    }
}

#[test]
fn merge_tracking_ema() {
    let mut t: TerrainResource<F32> = TerrainResource::new(2);
    t.cell_mut(0, 0).discharge = F32(0.0);
    t.cell_mut(0, 0).discharge_track = F32(10.0);
    t.cell_mut(0, 0).momentum_x = F32(0.0);
    t.cell_mut(0, 0).momentum_x_track = F32(4.0);
    t.cell_mut(0, 0).momentum_y = F32(2.0);
    t.cell_mut(0, 0).momentum_y_track = F32(6.0);

    t.merge_tracking(F32(0.5));

    assert!((t.cell(0, 0).discharge.0 - 5.0).abs() < 0.001);
    assert!((t.cell(0, 0).momentum_x.0 - 2.0).abs() < 0.001);
    assert!((t.cell(0, 0).momentum_y.0 - 4.0).abs() < 0.001);
}

// ---- drops ----

/// A hill of four by four points, high in the middle.
fn make_hill_terrain() -> TerrainResource<F32> {
    let mut t = TerrainResource::new(4);
    for z in 0..4usize {
        for x in 0..4usize {
            let dx = x as f32 - 1.5;
            let dz = z as f32 - 1.5;
            let dist = (dx * dx + dz * dz).sqrt();
            let h = 0.5 - 0.1 * dist;
            t.set_height(x, z, F32(h.max(0.1)));
        }
    }
    t
}

fn default_params() -> ErosionParams<F32> {
    ErosionParams::default()
}

fn at(x: f32, y: f32) -> Vec2<F32> {
    Vec2 { x: F32(x), y: F32(y) }
}

#[test]
fn drop_terminates_on_max_age() {
    let mut t = TerrainResource::new(100);
    for z in 0..100usize {
        for x in 0..100usize {
            t.set_height(x, z, F32(0.5));
        }
    }
    let mut params = default_params();
    params.max_age = 5;
    params.min_volume = F32(0.0);
    params.evaporation_rate = F32(0.0);

    let mut drop = Drop::new(at(50.0, 50.0));
    let mut alive = true;
    for _ in 0..params.max_age + 2 {
        if alive {
            alive = drop.descend(&mut t, &params);
        }
    }
    assert!(!alive, "drop should terminate at max_age");
    assert!(
        drop.age > params.max_age,
        "age {} should exceed max_age {}",
        drop.age,
        params.max_age
    );
}

#[test]
fn drop_terminates_on_min_volume() {
    let mut t = make_hill_terrain();
    let mut params = default_params();
    params.max_age = 1000;
    params.min_volume = F32(0.5);
    params.evaporation_rate = F32(0.5);

    let mut drop = Drop::new(at(1.5, 1.5));
    let mut alive = true;
    let mut steps = 0;
    while steps < 100 && alive {
        alive = drop.descend(&mut t, &params);
        steps += 1;
    }
    assert!(!alive, "drop should terminate on low volume");
    assert!(steps < 100, "should terminate quickly with high evap");
}

#[test]
fn drop_moves_downhill() {
    let mut t = TerrainResource::new(5);
    for z in 0..5usize {
        for x in 0..5usize {
            t.set_height(x, z, F32(1.0 - 0.2 * x as f32));
        }
    }
    let mut params = default_params();
    params.max_age = 50;
    params.gravity = F32(1.0);

    let mut drop = Drop::new(at(0.5, 2.0));
    let start_x = drop.pos.x;
    let mut max_x = start_x;
    let mut alive = true;
    let mut steps = 0;
    while steps < 50 && alive {
        alive = drop.descend(&mut t, &params);
        if drop.pos.x > max_x {
            max_x = drop.pos.x;
        }
        steps += 1;
    }
    assert!(max_x > start_x, "drop should move downhill (+x), max_x={}", max_x.0);
}

#[test]
fn drop_deposits_on_termination() {
    let mut t = make_hill_terrain();
    let mut params = default_params();
    params.max_age = 5;
    params.min_volume = F32(0.0);

    let mut drop = Drop::new(at(1.5, 1.5));
    drop.sediment = F32(0.01);
    while drop.descend(&mut t, &params) {}

    assert!(
        drop.volume <= params.min_volume || drop.age > params.max_age || drop.volume == F32(0.0)
    );
}

#[test]
fn spent_drop_leaves_its_sediment() {
    let mut t: TerrainResource<F32> = TerrainResource::new(4);
    let params = default_params();
    let mut drop = Drop::new(at(2.5, 1.25));
    drop.sediment = F32(0.25);
    drop.age = params.max_age + 1;
    assert!(!drop.descend(&mut t, &params));
    assert_eq!(t.height_at(2, 1), F32(0.25));
    assert_eq!(drop.volume, F32(1.0));
}

#[test]
fn drop_off_the_grid_is_gone() {
    let mut t: TerrainResource<F32> = TerrainResource::new(4);
    let mut drop = Drop::new(at(4.0, 1.0));
    assert!(!drop.descend(&mut t, &default_params()));
    assert_eq!(drop.volume, F32(0.0));
    assert_eq!(t.height_at(3, 1), F32(0.0));
}

#[test]
fn step_on_level_ground_tracks_and_evaporates() {
    let mut t: TerrainResource<F32> = TerrainResource::new(9);
    for cell in t.cells_mut_iter() {
        cell.height = F32(0.5);
    }
    let params = default_params();
    let mut drop = Drop::new(at(4.0, 4.0));
    assert!(drop.descend(&mut t, &params));
    assert_eq!(t.cell(4, 4).discharge_track, F32(1.0));
    assert_eq!(drop.volume, F32(1.0 * (1.0 - 0.001)));
    assert_eq!(drop.age, 1);
    assert_eq!(drop.pos.x, F32(4.0));
    assert_eq!(drop.sediment, F32(0.0));
}

#[test]
fn step_down_a_slope_is_root_two_long() {
    let mut t = TerrainResource::new(16);
    for z in 0..16usize {
        for x in 0..16usize {
            t.set_height(x, z, F32(1.0 - 0.01 * x as f32));
        }
    }
    let mut drop = Drop::new(at(5.0, 5.0));
    assert!(drop.descend(&mut t, &default_params()));
    let length = drop.speed.length().0;
    assert!((length - std::f32::consts::SQRT_2).abs() < 0.0001);
    assert!(drop.pos.x.0 > 6.0);
    assert!(drop.sediment.0 > 0.0);
    assert!(t.height_at(5, 5).0 < 0.95);
}

#[test]
fn roots_stop_the_exchange() {
    let mut t = TerrainResource::new(16);
    for z in 0..16usize {
        for x in 0..16usize {
            t.set_height(x, z, F32(1.0 - 0.005 * x as f32));
            t.cell_mut(x, z).root_density = F32(1.0);
        }
    }
    let mut drop = Drop::new(at(5.0, 5.0));
    assert!(drop.descend(&mut t, &default_params()));
    assert_eq!(drop.sediment, F32(0.0));
    assert_eq!(t.height_at(5, 5), F32(1.0 - 0.005 * 5.0));
}

#[test]
fn cascade_smooths_steep_cell() {
    let mut t = TerrainResource::new(4);
    t.set_height(1, 1, F32(0.5));
    t.set_height(2, 1, F32(0.5));
    t.set_height(1, 2, F32(0.5));
    t.set_height(2, 2, F32(0.5));
    let params = default_params();
    let center_h_before = t.height_at(1, 1);

    cascade(&mut t, &params, IVec2 { x: 1, y: 1 });

    let center_h_after = t.height_at(1, 1);
    assert!(
        center_h_after < center_h_before,
        "cascade should lower steep cell, before={}, after={}",
        center_h_before.0,
        center_h_after.0
    );
}

#[test]
fn erode_cycles_update_tracking() {
    let mut t = make_hill_terrain();
    let mut params = default_params();
    params.cycles_per_frame = 10;
    params.max_age = 20;
    params.evaporation_rate = F32(0.01);

    erode(&mut t, &params);

    let _ = t.cells_iter().any(|c| c.discharge > F32(0.0));
}

#[test]
fn cascade_obeys_max_diff() {
    let mut t = TerrainResource::new(4);
    for z in 0..4usize {
        for x in 0..4usize {
            t.set_height(x, z, F32(0.50));
        }
    }
    t.set_height(1, 1, F32(0.509));

    let params = default_params();
    let h_before = t.height_at(1, 1);

    cascade(&mut t, &params, IVec2 { x: 1, y: 1 });

    let h_after = t.height_at(1, 1);
    assert!(
        (h_before.0 - h_after.0).abs() < 0.0001,
        "cascade should not transfer when diff within max_diff, before={}, after={}",
        h_before.0,
        h_after.0,
    );
}

#[test]
fn cascade_moves_a_share_of_half_the_excess() {
    let mut t = TerrainResource::new(2);
    for cell in t.cells_mut_iter() {
        cell.height = F32(0.5);
    }
    t.set_height(0, 0, F32(0.6));
    cascade(&mut t, &default_params(), IVec2 { x: 0, y: 0 });
    let gap = (0.6f32 - 0.5).abs();
    let beside = 0.8 * (gap - 1.0 * 0.01).max(0.0) / 2.0;
    let across = 0.8 * (gap - std::f32::consts::SQRT_2 * 0.01).max(0.0) / 2.0;
    assert_eq!(t.height_at(1, 0), F32(0.5 + beside));
    assert_eq!(t.height_at(0, 1), F32(0.5 + beside));
    assert!((t.height_at(1, 1).0 - (0.5 + across)).abs() < 0.00001);
    assert!((t.height_at(0, 0).0 - (0.6 - 2.0 * beside - across)).abs() < 0.00001);
}

#[test]
fn neighbors_come_from_low_to_high() {
    let mut t: TerrainResource<F32> = TerrainResource::new(3);
    for z in 0..3usize {
        for x in 0..3usize {
            t.set_height(x, z, F32(((7 * (3 * z + x)) % 9) as f32));
        }
    }
    let found = neighbors_of(&t, 1, 1);
    assert_eq!(found.len(), 8);
    assert_eq!((found[0].x, found[0].z), (0, 0));
    let sorted = sort_by_height(&found);
    assert_eq!(sorted.len(), 8);
    for i in 1..8 {
        assert!(sorted[i - 1].height <= sorted[i].height);
    }
    assert_eq!(neighbors_of(&t, 0, 0).len(), 3);
}

#[test]
fn equal_neighbors_keep_their_order() {
    let t: TerrainResource<F32> = TerrainResource::new(3);
    let found = neighbors_of(&t, 1, 1);
    let sorted = sort_by_height(&found);
    for i in 0..8 {
        assert_eq!((sorted[i].x, sorted[i].z), (found[i].x, found[i].z));
    }
    assert_eq!(found[0].distance, F32(std::f32::consts::SQRT_2));
    assert_eq!(found[1].distance, F32(1.0));
}

#[test]
fn frames_from_given_starts_repeat() {
    let mut params = default_params();
    params.max_age = 30;
    let starts = vec![(1usize, 1usize), (2, 2), (0, 3)];
    let mut a = make_hill_terrain();
    let mut b = make_hill_terrain();
    erode_from(&mut a, &params, &starts);
    erode_from(&mut b, &params, &starts);
    let passed: f32 = a.cells_iter().map(|c| c.discharge_track.0).sum();
    assert!(passed >= 3.0);
    for (p, q) in a.cells_iter().zip(b.cells_iter()) {
        assert_eq!(p.height, q.height);
        assert_eq!(p.discharge, q.discharge);
        assert_eq!(p.discharge, F32((1.0 - 0.1) * 0.0 + 0.1 * p.discharge_track.0));
    }
}

#[test]
fn no_drop_falls_on_the_base() {
    let mut t: TerrainResource<F32> = TerrainResource::new(4);
    erode_from(&mut t, &default_params(), &vec![(1, 1), (2, 3)]);
    for cell in t.cells_iter() {
        assert_eq!(cell.height, F32(0.0));
        assert_eq!(cell.discharge_track, F32(0.0));
    }
}

#[test]
fn random_drops_track_somewhere() {
    let mut t: TerrainResource<F32> = TerrainResource::new(32);
    for cell in t.cells_mut_iter() {
        cell.height = F32(0.5);
    }
    let mut params = default_params();
    params.max_age = 0;
    params.cycles_per_frame = 64;
    erode(&mut t, &params);
    let touched: Vec<usize> = (0..1024).filter(|i| t.cells[*i].discharge_track.0 > 0.0).collect();
    let passed: f32 = t.cells_iter().map(|c| c.discharge_track.0).sum();
    assert!((passed - 64.0).abs() < 0.1);
    assert!(touched.len() > 16);
}

// ---- formulas ----

#[test]
fn error_function_values() {
    assert!((erf_approx(F32(0.8)).0 - 0.742101).abs() < 0.00001);
    assert!((erf_approx(F32(-0.8)).0 + 0.742101).abs() < 0.00001);
    assert!(erf_approx(F32(0.0)).0.abs() < 0.00001);
    let mut t: TerrainResource<F32> = TerrainResource::new(2);
    t.cell_mut(1, 0).discharge = F32(2.0);
    assert_eq!(t.discharge_at(1, 0), erf_approx(F32(0.4 * 2.0)));
    for n in 1..100 {
        let x = F32(0.1 * n as f32);
        assert_eq!(erf_approx(x.negated()), erf_approx(x).negated());
        assert!(erf_approx(x).0 <= 1.0);
    }
    assert_eq!(erf_approx(F32(5.0)), F32(1.0));
    assert_eq!(erf_approx(F32(f32::MAX)), F32(1.0));
}

#[test]
fn constants_are_the_nearest_floats() {
    assert_eq!(F32::ratio(1061405429, 1000000000), F32(1.061405429));
    assert_eq!(F32::ratio(1453152027, 1000000000), F32(1.453152027));
    assert_eq!(F32::ratio(1421413741, 1000000000), F32(1.421413741));
    assert_eq!(F32::ratio(284496736, 1000000000), F32(0.284496736));
    assert_eq!(F32::ratio(254829592, 1000000000), F32(0.254829592));
    assert_eq!(F32::ratio(3275911, 10000000), F32(0.3275911));
    assert_eq!(F32::ratio(2, 1).sqrt(), F32(std::f32::consts::SQRT_2));
    assert_eq!(cell_size::<F32>(), F32(2.0));
    assert_eq!(map_scale::<F32>(), F32(80.0));
    assert_eq!(height_amp::<F32>(), F32(30.0));
    assert_eq!(height_scale::<F32>(), F32(3.0));
    assert_eq!(noise_scale::<F32>(), F32(0.015));
    assert_eq!(lacunarity::<F32>(), F32(2.0));
    assert_eq!(persistence::<F32>(), F32(0.5));
    let p = default_params();
    assert_eq!(p.learning_rate, F32(0.1));
    assert_eq!(p.max_age, 500);
    assert_eq!(p.min_volume, F32(0.01));
    assert_eq!(p.evaporation_rate, F32(0.001));
    assert_eq!(p.deposition_rate, F32(0.1));
    assert_eq!(p.entrainment, F32(10.0));
    assert_eq!(p.gravity, F32(1.0));
    assert_eq!(p.momentum_transfer, F32(1.0));
    assert_eq!(p.max_diff, F32(0.01));
    assert_eq!(p.settling_rate, F32(0.8));
    assert_eq!(p.cycles_per_frame, 512);
}

#[test]
fn comparisons_pass_over_nan() {
    let nan = F32(f32::NAN);
    assert_eq!(smaller(nan, F32(1.0)), F32(1.0));
    assert_eq!(smaller(F32(1.0), nan), F32(1.0));
    assert_eq!(larger(nan, F32(1.0)), F32(1.0));
    assert_eq!(larger(F32(1.0), nan), F32(1.0));
    assert_eq!(smaller(F32(1.0), F32(2.0)), F32(1.0));
    assert_eq!(larger(F32(1.0), F32(2.0)), F32(2.0));
    assert!(clamp(nan, F32(0.0), F32(1.0)).0.is_nan());
    assert_eq!(clamp(F32(-2.0), F32(0.0), F32(1.0)), F32(0.0));
    assert_eq!(clamp(F32(2.0), F32(0.0), F32(1.0)), F32(1.0));
    assert_eq!(magnitude(F32(-2.0)), F32(2.0));
}

#[test]
fn vectors_multiply() {
    let a = Vec3 { x: F32(1.0), y: F32(2.0), z: F32(3.0) };
    let b = Vec3 { x: F32(4.0), y: F32(-5.0), z: F32(6.0) };
    let c = a.cross(b);
    assert_eq!((c.x, c.y, c.z), (F32(27.0), F32(6.0), F32(-13.0)));
    assert_eq!(a.dot(b), F32(12.0));
    let zero: Vec3<F32> = Vec3::zero();
    assert_eq!(zero.normalize_or_zero().x, F32(0.0));
    assert!(zero.normalize().x.0.is_nan());
    assert_eq!(at(3.0, 4.0).length(), F32(5.0));
    assert!(!at(0.0, 0.0).has_length());
}

// ---- plants ----

fn make_params() -> PlantParams<F32> {
    PlantParams::default()
}

fn make_flat_terrain(size: usize) -> TerrainResource<F32> {
    let mut t = TerrainResource::new(size);
    for z in 0..size {
        for x in 0..size {
            t.set_height(x, z, F32(0.5));
        }
    }
    t
}

#[test]
fn grow_increases_size() {
    let mut plant = Plant { pos: at(0.0, 0.0), size: F32(0.1) };
    let params = make_params();
    plant.grow(&params);
    assert!(plant.size > F32(0.1));
    assert_eq!(plant.size, F32(0.1 + 0.05 * (1.5 - 0.1)));
    for _ in 0..1000 {
        let before = plant.size;
        plant.grow(&params);
        assert!(before <= plant.size);
    }
    plant.size = params.max_size;
    plant.grow(&params);
    assert_eq!(plant.size, F32(1.5));
}

#[test]
fn can_spawn_on_flat_ground() {
    let t = make_flat_terrain(8);
    let params = make_params();
    assert!(can_spawn(at(3.0, 3.0), &t, &params));
}

#[test]
fn cannot_spawn_on_steep() {
    let mut t = make_flat_terrain(8);
    for x in 0..8 {
        t.set_height(x, 3, F32(1.0 - 0.5 * x as f32));
    }
    let params = make_params();
    assert!(!can_spawn(at(3.0, 3.0), &t, &params));
}

#[test]
fn should_die_at_high_discharge() {
    let mut t = make_flat_terrain(8);
    t.cell_mut(3, 3).discharge = F32(2.0);
    let params = make_params();
    assert!(should_die(at(3.0, 3.0), &t, &params));
}

#[test]
fn root_applies_to_self_and_neighbors() {
    let mut t = make_flat_terrain(8);
    root_apply(&mut t, at(3.0, 3.0), F32(1.0));

    assert!((t.cell(3, 3).root_density.0 - 1.0).abs() < 0.001);
    assert!((t.cell(4, 3).root_density.0 - 0.6).abs() < 0.001);
    assert!((t.cell(2, 3).root_density.0 - 0.6).abs() < 0.001);
    assert!((t.cell(4, 4).root_density.0 - 0.4).abs() < 0.001);
}

#[test]
fn root_removal_reverses() {
    let mut t = make_flat_terrain(8);
    root_apply(&mut t, at(3.0, 3.0), F32(1.0));
    root_apply(&mut t, at(3.0, 3.0), F32(-1.0));

    assert!((t.cell(3, 3).root_density.0).abs() < 0.001);
    assert!((t.cell(4, 3).root_density.0).abs() < 0.001);
}

#[test]
fn roots_stay_on_the_grid() {
    let mut t = make_flat_terrain(3);
    root_apply(&mut t, at(0.0, 0.0), F32(1.0));
    assert_eq!(t.cell(0, 0).root_density, F32(1.0));
    assert_eq!(t.cell(1, 0).root_density, F32(0.6));
    assert_eq!(t.cell(0, 1).root_density, F32(0.6));
    assert_eq!(t.cell(1, 1).root_density, F32(0.4));
    assert_eq!(t.cell(2, 0).root_density, F32(0.0));
    root_apply(&mut t, at(1e30, 0.0), F32(1.0));
    assert_eq!(t.cell(2, 0).root_density, F32(0.0));
    root_apply(&mut t, at(-1.0, -1.0), F32(1.0));
    assert_eq!(t.cell(0, 0).root_density, F32(1.0 + 0.4));
}

#[test]
fn nothing_sprouts_in_water_on_peaks_or_off_the_grid() {
    let params = make_params();
    let mut t = make_flat_terrain(8);
    assert!(!can_spawn(at(8.0, 3.0), &t, &params));
    t.cell_mut(3, 3).discharge = F32(2.0);
    assert!(!can_spawn(at(3.0, 3.0), &t, &params));
    let mut high = make_flat_terrain(8);
    for cell in high.cells_mut_iter() {
        cell.height = F32(0.8);
    }
    assert!(!can_spawn(at(3.0, 3.0), &high, &params));
}

#[test]
fn plants_die_of_water_height_and_age() {
    let params = make_params();
    let mut t = make_flat_terrain(8);
    assert!(!should_die_with(at(3.0, 3.0), &t, &params, 1));
    assert!(should_die_with(at(3.0, 3.0), &t, &params, 0));
    assert!(should_die_with(at(3.0, 8.0), &t, &params, 1));
    t.set_height(3, 3, F32(0.8));
    assert!(should_die_with(at(3.0, 3.0), &t, &params, 1));
    assert!(should_die(at(3.0, 3.0), &t, &params));
}

#[test]
fn deaths_of_age_are_rare() {
    let params = make_params();
    let t = make_flat_terrain(8);
    let mut deaths = 0;
    for _ in 0..2000 {
        if should_die(at(3.0, 3.0), &t, &params) {
            deaths += 1;
        }
    }
    assert!(deaths < 200);
}

fn luck(fertility: i32, dx: i32, dz: i32, rooting: f32) -> Luck<F32> {
    Luck { death: 1, fertility, dx, dz, rooting: F32(rooting) }
}

#[test]
fn children_come_down_where_chance_has_it() {
    let params = make_params();
    let mut t = make_flat_terrain(8);
    let child = try_reproduce_with(at(3.0, 3.0), &t, &params, &luck(0, 2, -1, 0.5));
    assert!(matches!(child, Some(pos) if pos.x == F32(5.0) && pos.y == F32(2.0)));
    assert!(try_reproduce_with(at(3.0, 3.0), &t, &params, &luck(7, 2, -1, 0.5)).is_none());
    assert!(try_reproduce_with(at(3.0, 3.0), &t, &params, &luck(0, -4, 0, 0.5)).is_none());
    t.cell_mut(5, 2).root_density = F32(0.5);
    assert!(try_reproduce_with(at(3.0, 3.0), &t, &params, &luck(0, 2, -1, 0.5)).is_none());
    assert!(try_reproduce_with(at(3.0, 3.0), &t, &params, &luck(0, 2, -1, 0.75)).is_some());
    t.cell_mut(5, 2).root_density = F32(1.0);
    assert!(try_reproduce_with(at(3.0, 3.0), &t, &params, &luck(0, 2, -1, 0.999)).is_none());
    t.cell_mut(5, 2).root_density = F32(0.0);
    t.cell_mut(5, 2).discharge = F32(2.0);
    assert!(try_reproduce_with(at(3.0, 3.0), &t, &params, &luck(0, 2, -1, 0.5)).is_none());
}

#[test]
fn children_shun_steep_ground() {
    let params = make_params();
    let mut t = make_flat_terrain(8);
    assert!(try_reproduce_with(at(3.0, 3.0), &t, &params, &luck(0, 2, -1, 0.5)).is_some());
    for z in 0..8 {
        for x in 0..8 {
            t.set_height(x, z, F32(0.1 * x as f32));
        }
    }
    assert!(try_reproduce_with(at(3.0, 3.0), &t, &params, &luck(0, 2, -1, 0.5)).is_none());
}

#[test]
fn random_children_stay_near() {
    let params = make_params();
    let t = make_flat_terrain(32);
    let mut children = 0;
    for _ in 0..2000 {
        if let Some(pos) = try_reproduce(at(16.0, 16.0), &t, &params) {
            assert!((pos.x.0 - 16.0).abs() <= 4.0);
            assert!((pos.y.0 - 16.0).abs() <= 4.0);
            children += 1;
        }
    }
    assert!(children > 10);
    assert!(children < 500);
}

#[test]
fn seeds_sprout_where_they_may() {
    let params = make_params();
    let mut t = make_flat_terrain(8);
    let mut plants = VegetationPlants::default();
    seed_at(&mut t, &mut plants, &params, 2, 5);
    assert_eq!(plants.plants.len(), 1);
    assert_eq!(plants.plants[0].pos.y, F32(5.0));
    assert_eq!(plants.plants[0].size, F32(0.0));
    assert_eq!(t.cell(2, 5).root_density, F32(1.0));
    seed_at(&mut t, &mut plants, &params, 8, 5);
    assert_eq!(plants.plants.len(), 1);
}

#[test]
fn turns_grow_kill_and_multiply() {
    let params = make_params();
    let mut t = make_flat_terrain(8);
    let mut plants = VegetationPlants::default();
    seed_at(&mut t, &mut plants, &params, 1, 1);
    seed_at(&mut t, &mut plants, &params, 6, 6);
    let next = tend(&mut t, &mut plants, &params, 0, &luck(1, 0, 0, 0.5));
    assert_eq!(next, 1);
    assert_eq!(plants.plants[0].size, F32(0.05 * 1.5));
    let next = tend(&mut t, &mut plants, &params, 0, &luck(0, 3, 3, 0.5));
    assert_eq!(next, 1);
    assert_eq!(plants.plants.len(), 3);
    assert_eq!(t.cell(4, 4).root_density, F32(1.0));
    let mut old_age = luck(0, 0, 0, 0.5);
    old_age.death = 0;
    let next = tend(&mut t, &mut plants, &params, 0, &old_age);
    assert_eq!(next, 0);
    assert_eq!(plants.plants.len(), 2);
    assert_eq!(plants.plants[0].pos.x, F32(4.0));
    assert_eq!(t.cell(1, 1).root_density, F32(0.0));
}

#[test]
fn paused_vegetation_rests() {
    let params = make_params();
    let mut t = make_flat_terrain(8);
    let mut plants = VegetationPlants::default();
    update_vegetation(&mut t, &mut plants, &params, true);
    assert!(plants.plants.is_empty());
    assert!(t.cells_iter().all(|c| c.root_density == F32(0.0)));
}

#[test]
fn frames_of_vegetation_keep_to_the_ground() {
    let params = make_params();
    let mut t = make_flat_terrain(16);
    t.cell_mut(8, 8).discharge = F32(2.0);
    let mut plants = VegetationPlants::default();
    for _ in 0..200 {
        update_vegetation(&mut t, &mut plants, &params, false);
        for plant in &plants.plants {
            let x = plant.pos.x.0 as usize;
            let z = plant.pos.y.0 as usize;
            assert!(x < 16 && z < 16);
            assert!((x, z) != (8, 8));
            assert!(plant.size.0 <= 1.5);
        }
        assert!(t.cells_iter().all(|c| c.height == F32(0.5)));
    }
    assert!(!plants.plants.is_empty());
    let roots: f32 = t.cells_iter().map(|c| c.root_density.0).sum();
    assert!(roots > 0.0);
}

#[test]
fn plants_are_drawn_over_their_point() {
    let plant = Plant { pos: at(3.0, 4.0), size: F32(1.0) };
    let marker = plant.marker();
    assert_eq!(marker.center.x, F32(6.0));
    assert_eq!(marker.center.y, F32(47.0));
    assert_eq!(marker.center.z, F32(8.0));
    assert_eq!(marker.radius, F32(3.0));
    let seedling = Plant { pos: at(3.0, 4.0), size: F32(0.0) };
    assert_eq!(seedling.marker().radius, F32(0.5));
}

// ---- the surface ----

#[test]
fn noise_is_sampled_octave_by_octave() {
    let points: Vec<(F32, F32)> = sample_points(1);
    assert_eq!(points.len(), 24);
    assert_eq!(points[0], (F32(0.0), F32(0.0)));
    assert_eq!(points[6], (F32(0.015), F32(0.0)));
    assert_eq!(points[7], (F32(0.03), F32(0.0)));
    assert_eq!(points[12], (F32(0.0), F32(0.015)));
    assert_eq!(points[23], (F32(0.015 * 32.0), F32(0.015 * 32.0)));
}

#[test]
fn octaves_weigh_half_as_much_each() {
    let samples = vec![F32(1.0); 12];
    let heights = noise_heights(&samples);
    assert_eq!(heights, vec![F32(1.96875), F32(1.96875)]);
    let mut last = vec![F32(0.0); 6];
    last[5] = F32(1.0);
    assert_eq!(noise_heights(&last), vec![F32(0.03125)]);
}

fn rgb(c: LinearRgba<F32>) -> (f32, f32, f32, f32) {
    (c.red.0, c.green.0, c.blue.0, c.alpha.0)
}

#[test]
fn ground_takes_the_colors_of_its_stops() {
    assert_eq!(rgb(ground_color(F32(0.0))), (0.15, 0.35, 0.10, 1.0));
    assert_eq!(rgb(ground_color(F32(-1.0))), (0.15, 0.35, 0.10, 1.0));
    assert_eq!(rgb(ground_color(F32(1.0))), (0.85, 0.83, 0.80, 1.0));
    assert_eq!(rgb(ground_color(F32(0.30))), (0.25, 0.55, 0.15, 1.0));
    let tan = rgb(ground_color(F32(0.55)));
    assert!((tan.0 - 0.55).abs() < 0.0001 && (tan.1 - 0.50).abs() < 0.0001);
    let half = rgb(ground_color(F32(0.9)));
    assert!((half.0 - 0.625).abs() < 0.0001);
    let brown = rgb(ground_color(F32(0.8)));
    assert!((brown.1 - 0.28).abs() < 0.0001);
    let mixed = lerp_color(ground_color(F32(0.0)), ground_color(F32(1.0)), F32(0.5));
    assert_eq!(mixed.red, F32(0.15 + (0.85 - 0.15) * 0.5));
}

#[test]
fn mesh_over_one_square() {
    let noise = vec![F32(0.0), F32(1.0), F32(0.0), F32(1.0)];
    let mesh = generate_terrain_mesh(1, &noise);
    assert_eq!(mesh.indices, vec![0, 2, 1, 1, 2, 3]);
    assert_eq!(mesh.positions.len(), 4);
    assert_eq!(mesh.positions[3].x, F32(2.0));
    assert_eq!(mesh.positions[3].y, F32(30.0));
    assert_eq!(mesh.positions[3].z, F32(2.0));
    assert_eq!(rgb(mesh.colors[0]), (0.15, 0.35, 0.10, 1.0));
    assert_eq!(rgb(mesh.colors[1]), (0.85, 0.83, 0.80, 1.0));
    for n in &mesh.normals {
        assert!(n.y.0 > 0.0);
        assert!(n.x.0 < 0.0);
        assert!((length(*n) - 1.0).abs() < 0.0001);
    }
}

#[test]
fn level_mesh_has_upright_normals_and_one_color() {
    let mesh = generate_terrain_mesh(3, &vec![F32(0.25); 16]);
    assert_eq!(mesh.indices.len(), 54);
    assert!(mesh.indices.iter().all(|i| *i < 16));
    assert_eq!(mesh.indices[6..12], [1, 5, 2, 2, 5, 6]);
    for n in &mesh.normals {
        assert_eq!((n.x, n.y, n.z), (F32(0.0), F32(1.0), F32(0.0)));
    }
    for c in &mesh.colors {
        assert_eq!(rgb(*c), rgb(ground_color(F32(0.5))));
    }
}

// ---- the camera ----

fn no_keys() -> CameraKeys {
    CameraKeys {
        left: false,
        right: false,
        up: false,
        down: false,
        w: false,
        a: false,
        s: false,
        d: false,
    }
}

#[test]
fn camera_starts_over_the_middle() {
    let ctrl: CameraController<F32> = CameraController::default();
    assert_eq!(ctrl.yaw, F32(std::f32::consts::FRAC_PI_4));
    assert_eq!(ctrl.pitch, F32(0.8));
    assert_eq!(ctrl.distance, F32(250.0));
    assert_eq!(ctrl.center.x, F32(512.0));
    assert_eq!(ctrl.center.y, F32(45.0));
    assert_eq!(ctrl.center.z, F32(512.0));
    let pos = camera_position(&ctrl);
    assert_eq!(pos.y, F32(45.0 + 250.0 * 0.8f32.sin()));
    let level = 250.0 * 0.8f32.cos();
    assert_eq!(pos.x, F32(512.0 + level * std::f32::consts::FRAC_PI_4.sin()));
    assert_eq!(CameraController::new(F32(5.0)).center.y, F32(5.0));
}

#[test]
fn camera_turns_zooms_and_pans() {
    let mut ctrl: CameraController<F32> = CameraController::default();
    let mut keys = no_keys();
    keys.left = true;
    keys.up = true;
    orbit_camera(&mut ctrl, F32(0.1), &keys, &vec![]);
    assert_eq!(ctrl.yaw, F32(std::f32::consts::FRAC_PI_4 - 1.5 * 0.1));
    assert_eq!(ctrl.pitch, F32(0.8 + 1.0 * 0.1));
    orbit_camera(&mut ctrl, F32(10.0), &keys, &vec![]);
    assert_eq!(ctrl.pitch, F32(std::f32::consts::FRAC_PI_2 - 0.02));
    let mut down = no_keys();
    down.down = true;
    orbit_camera(&mut ctrl, F32(10.0), &down, &vec![]);
    assert_eq!(ctrl.pitch, F32(0.05));
    orbit_camera(&mut ctrl, F32(0.1), &no_keys(), &vec![F32(1.0)]);
    assert_eq!(ctrl.distance, F32(220.0));
    orbit_camera(&mut ctrl, F32(0.1), &no_keys(), &vec![F32(100.0), F32(-1.0)]);
    assert_eq!(ctrl.distance, F32(60.0));
    orbit_camera(&mut ctrl, F32(0.1), &no_keys(), &vec![F32(-100.0)]);
    assert_eq!(ctrl.distance, F32(600.0));
    ctrl.yaw = F32(0.0);
    ctrl.distance = F32(150.0);
    let mut w = no_keys();
    w.w = true;
    orbit_camera(&mut ctrl, F32(0.5), &w, &vec![]);
    assert_eq!(ctrl.center.z, F32(512.0 - 30.0));
    assert_eq!(ctrl.center.x, F32(512.0));
    let mut d = no_keys();
    d.d = true;
    orbit_camera(&mut ctrl, F32(0.5), &d, &vec![]);
    assert_eq!(ctrl.center.x, F32(512.0 + 30.0));
    assert_eq!(ctrl.center.y, F32(45.0));
    ctrl.yaw = F32(4.0);
    let mut across = no_keys();
    across.s = true;
    across.a = true;
    orbit_camera(&mut ctrl, F32(0.5), &across, &vec![F32(f32::MAX)]);
    assert_eq!(ctrl.center.y, F32(45.0));
    assert_eq!(ctrl.distance, F32(30.0));
}

// ---- the device ----

#[test]
fn device_parameters_match() {
    let mut params = default_params();
    let p = GpuErosionParams::from_cpu(&params, 64, 7);
    assert_eq!(p.grid_size, 64);
    assert_eq!(p.map_scale, F32(80.0));
    assert_eq!(p.max_age, 500);
    assert_eq!(p.min_volume, F32(0.01));
    assert_eq!(p.evaporation_rate, F32(0.001));
    assert_eq!(p.deposition_rate, F32(0.1));
    assert_eq!(p.entrainment, F32(10.0));
    assert_eq!(p.gravity, F32(1.0));
    assert_eq!(p.momentum_transfer, F32(1.0));
    assert_eq!(p.cycles_per_frame, 512);
    assert_eq!(p.frame_seed, 7);
    assert_eq!(p.pad, 0);
    assert_eq!(std::mem::size_of::<GpuErosionParams<F32>>(), 48);
    params.cycles_per_frame = usize::MAX;
    assert_eq!(GpuErosionParams::from_cpu(&params, 64, 7).cycles_per_frame, u32::MAX);
}

#[test]
fn frames_for_the_device_hold_the_grid() {
    let mut t = make_hill_terrain();
    t.cell_mut(1, 0).discharge = F32(2.0);
    t.cell_mut(2, 0).momentum_x = F32(3.0);
    t.cell_mut(3, 0).momentum_y = F32(4.0);
    t.cell_mut(0, 1).root_density = F32(5.0);
    let params = default_params();
    assert!(gpu_frame(&t, &params, 3, false, true).is_none());
    assert!(gpu_frame(&t, &params, 3, true, false).is_none());
    let frame = gpu_frame(&t, &params, (1u64 << 32) + 3, true, true).unwrap();
    assert_eq!(frame.grid.heights.len(), 16);
    assert_eq!(frame.grid.heights[5], t.height_at(1, 1));
    assert_eq!(frame.grid.discharges[1], F32(2.0));
    assert_eq!(frame.grid.momentum_x[2], F32(3.0));
    assert_eq!(frame.grid.momentum_y[3], F32(4.0));
    assert_eq!(frame.grid.roots[4], F32(5.0));
    assert_eq!(frame.params.frame_seed, 3);
    assert_eq!(frame.params.grid_size, 4);
    assert_eq!(frame.workgroups, 8);
}

#[test]
fn heights_come_back_as_far_as_they_reach() {
    let mut t = make_hill_terrain();
    let frame = gpu_frame(&t, &default_params(), 0, true, true).unwrap();
    let unread = heights_after_run(&frame.grid.heights, None);
    write_heights(&mut t, &unread);
    for (cell, h) in t.cells_iter().zip(&frame.grid.heights) {
        assert_eq!(cell.height, *h);
    }
    let read = heights_after_run(&frame.grid.heights, Some(vec![F32(9.0), F32(8.0)]));
    write_heights(&mut t, &read);
    assert_eq!(t.height_at(0, 0), F32(9.0));
    assert_eq!(t.height_at(1, 0), F32(8.0));
    assert_eq!(t.height_at(2, 0), frame.grid.heights[2]);
}
