//! The simulation on fixed-point numbers, whose sums are exact.

use hydraulic::camera::{camera_position, orbit_camera, CameraController, CameraKeys};
use hydraulic::config::ErosionParams;
use hydraulic::erosion::{cascade, erode, erode_from, Drop};
use hydraulic::fixed::{unit_of_draw, Fixed, UNIT};
use hydraulic::gpu_erosion::{
    bindings, ensure_bufs, gpu_frame, plan_buffer, uploads, workgroups, Binding, BufferPlan, Slot, Upload,
};
use hydraulic::neighbors::{neighbors_of, sort_by_height};
use hydraulic::scalar::{clamp, Scalar};
use hydraulic::terrain::{generate_terrain_mesh, grid_indices, ground_color, sample_points};
use hydraulic::terrain_data::{erf_approx, TerrainResource};
use hydraulic::ui::{next_frame, total_particles, RunInfo};
use hydraulic::vector::{IVec2, Vec2};
use hydraulic::vegetation::{
    root_apply, seed_at, tend, update_vegetation, Luck, Plant, PlantParams, VegetationPlants,
};

fn whole(n: i64) -> Fixed {
    Fixed::ratio(n, 1)
}

fn total(t: &TerrainResource<Fixed>) -> i64 {
    t.cells_iter().map(|c| c.height.raw).sum()
}

/// A cone with its peak at the middle.
fn cone(size: usize) -> TerrainResource<Fixed> {
    let mut t = TerrainResource::new(size);
    let middle = size as i64 / 2;
    for z in 0..size {
        for x in 0..size {
            let d = (x as i64 - middle).abs() + (z as i64 - middle).abs();
            t.set_height(x, z, Fixed::ratio(80 - 3 * d, 100));
        }
    }
    t
}

// ---- numbers ----

#[test]
fn ratios_are_cut_towards_zero() {
    assert_eq!(Fixed::ratio(1, 2).raw, UNIT / 2);
    assert_eq!(Fixed::ratio(2, 3).raw, 43690);
    assert_eq!(Fixed::ratio(-2, 3).raw, -43690);
    assert_eq!(Fixed::ratio(i64::MAX, 1).raw, i64::MAX);
    assert_eq!(Fixed::ratio(i64::MIN, 1).raw, i64::MIN);
    assert_eq!(Fixed::from_index(7), whole(7));
}

#[test]
fn fixed_arithmetic() {
    assert_eq!(whole(3).plus(whole(4)), whole(7));
    assert_eq!(whole(3).minus(whole(4)), whole(-1));
    assert_eq!(whole(-3).times(whole(4)), whole(-12));
    assert_eq!(Fixed { raw: i64::MAX }.times(whole(2)), Fixed::greatest());
    assert_eq!(whole(1).over(whole(-4)), Fixed::ratio(-1, 4));
    assert_eq!(whole(1).over(whole(0)), whole(0));
    assert_eq!(whole(5).negated(), whole(-5));
    assert_eq!(whole(9).sqrt(), whole(3));
    assert_eq!(whole(2).sqrt().raw, 92681);
    assert_eq!(whole(-2).sqrt(), whole(0));
    assert_eq!(whole(0).exp(), whole(1));
    assert!((whole(-1).exp().raw - 24109).abs() < 200);
    assert!((Fixed::ratio(1, 2).sin().raw - 31419).abs() < 10);
    assert!((Fixed::ratio(1, 2).cos().raw - 57513).abs() < 10);
    assert_eq!(whole(0).sin(), whole(0));
    assert_eq!(whole(0).cos(), whole(1));
}

#[test]
fn fixed_sums_wrap_and_come_back() {
    let a = Fixed { raw: i64::MAX };
    assert_eq!(a.plus(whole(1)).minus(whole(1)), a);
    assert_eq!(a.plus(whole(1)).raw, i64::MIN + UNIT - 1);
}

#[test]
fn fixed_whole_parts() {
    assert_eq!(Fixed::ratio(-5, 2).to_i32(), -2);
    assert_eq!(Fixed::ratio(5, 2).to_i32(), 2);
    assert_eq!(Fixed { raw: i64::MAX }.to_i32(), i32::MAX);
    assert_eq!(Fixed { raw: i64::MIN }.to_i32(), i32::MIN);
    assert_eq!(Fixed::ratio(-5, 2).to_usize(), 0);
    assert_eq!(Fixed::ratio(5, 2).to_usize(), 2);
}

#[test]
fn random_units_lie_below_one() {
    let mut seen: Vec<i64> = Vec::new();
    for _ in 0..100 {
        let r = Fixed::random_unit();
        assert!(0 <= r.raw && r.raw < UNIT);
        if !seen.contains(&r.raw) {
            seen.push(r.raw);
        }
    }
    assert!(seen.len() > 10);
}

#[test]
fn draws_are_steps_of_one() {
    assert_eq!(unit_of_draw(0), whole(0));
    assert_eq!(unit_of_draw(0x8000), Fixed::ratio(1, 2));
    assert_eq!(unit_of_draw(0xffff).raw, UNIT - 1);
}

#[test]
fn clamping_leads_between_the_bounds() {
    for n in -3..4 {
        let c = clamp(whole(n), whole(-1), whole(2));
        assert!(whole(-1).at_most(c) && c.at_most(whole(2)));
    }
}

#[test]
fn error_function_is_odd_bounded_and_levels_off() {
    for n in 1..80 {
        let x = Fixed::ratio(n, 16);
        let y = erf_approx(x);
        assert!(whole(-1).at_most(y) && y.at_most(whole(1)));
        assert_eq!(erf_approx(x.negated()), y.negated());
    }
    for n in [5, 6, 31, 32, 33, 46, 1000, 1 << 40] {
        assert_eq!(erf_approx(whole(n)), whole(1));
        assert_eq!(erf_approx(whole(-n)), whole(-1));
    }
    assert!((erf_approx(Fixed::ratio(4, 5)).raw - 48634).abs() < 500);
}

#[test]
fn exponentials_far_below_zero_vanish() {
    assert_eq!(whole(-25).exp(), whole(0));
    assert_eq!(whole(-1024).exp(), whole(0));
    assert_eq!(whole(-5000).exp(), whole(0));
    assert_eq!(Fixed::least().exp(), whole(0));
}

// ---- conservation ----

#[test]
fn settling_moves_height_and_makes_none() {
    let mut t = cone(9);
    t.set_height(4, 4, whole(2));
    let before = total(&t);
    cascade(&mut t, &ErosionParams::default(), IVec2 { x: 4, y: 4 });
    assert_eq!(total(&t), before);
    assert!(t.height_at(4, 4).below(whole(2)));
    assert_eq!(t.height_at(6, 4), cone(9).height_at(6, 4));
    assert_eq!(t.height_at(1, 1), cone(9).height_at(1, 1));
}

#[test]
fn settling_treats_neighbors_apart() {
    let params: ErosionParams<Fixed> = ErosionParams::default();
    let mut a = cone(5);
    a.set_height(2, 2, whole(2));
    let mut b = cone(5);
    b.set_height(2, 2, whole(2));
    b.set_height(1, 1, whole(-3));
    b.set_height(3, 2, whole(5));
    cascade(&mut a, &params, IVec2 { x: 2, y: 2 });
    cascade(&mut b, &params, IVec2 { x: 2, y: 2 });
    for (x, z) in [(2, 1), (3, 1), (1, 2), (1, 3), (2, 3), (3, 3)] {
        assert_eq!(a.height_at(x, z), b.height_at(x, z));
        assert!(cone(5).height_at(x, z).below(a.height_at(x, z)));
    }
    assert!(a.height_at(3, 2) != b.height_at(3, 2));
}

#[test]
fn gentle_ground_stays() {
    let mut t: TerrainResource<Fixed> = TerrainResource::new(5);
    for z in 0..5usize {
        for x in 0..5usize {
            t.set_height(x, z, Fixed::ratio(500 + 5 * x as i64, 1000));
        }
    }
    let before: Vec<Fixed> = t.cells_iter().map(|c| c.height).collect();
    cascade(&mut t, &ErosionParams::default(), IVec2 { x: 2, y: 2 });
    let after: Vec<Fixed> = t.cells_iter().map(|c| c.height).collect();
    assert_eq!(before, after);
}

#[test]
fn spent_drops_add_their_sediment() {
    let mut t = cone(9);
    let before = total(&t);
    let params: ErosionParams<Fixed> = ErosionParams::default();
    let mut drop = Drop::new(Vec2 { x: whole(3), y: whole(5) });
    drop.sediment = Fixed::ratio(3, 10);
    drop.volume = Fixed::ratio(1, 1000);
    assert!(!drop.descend(&mut t, &params));
    assert_eq!(total(&t), before + drop.sediment.raw);
}

#[test]
fn moving_drops_take_what_the_grid_loses() {
    let mut t = cone(9);
    let before = total(&t);
    let mut params: ErosionParams<Fixed> = ErosionParams::default();
    params.evaporation_rate = whole(0);
    let mut drop = Drop::new(Vec2 { x: whole(5), y: whole(6) });
    for _ in 0..3 {
        if drop.descend(&mut t, &params) {
            assert_eq!(total(&t) + drop.sediment.raw, before);
        }
    }
    assert!(drop.age > 0);
    assert!(whole(0).below(drop.sediment));
}

#[test]
fn evaporation_keeps_sediment() {
    let mut dry = cone(9);
    let mut wet = cone(9);
    let mut params: ErosionParams<Fixed> = ErosionParams::default();
    params.evaporation_rate = Fixed::ratio(1, 2);
    let mut halved = Drop::new(Vec2 { x: whole(5), y: whole(6) });
    assert!(halved.descend(&mut dry, &params));
    params.evaporation_rate = whole(0);
    let mut kept = Drop::new(Vec2 { x: whole(5), y: whole(6) });
    assert!(kept.descend(&mut wet, &params));
    assert_eq!(halved.volume, Fixed::ratio(1, 2));
    assert_eq!(halved.sediment, kept.sediment.times(whole(2)));
    assert_eq!(halved.sediment.times(halved.volume), kept.sediment.times(kept.volume));
}

#[test]
fn evaporation_falls_short_by_steps_only() {
    let mut dry = cone(9);
    let mut wet = cone(9);
    let mut params: ErosionParams<Fixed> = ErosionParams::default();
    let start = Drop::new(Vec2 { x: whole(5), y: whole(6) });
    let mut thinned = start;
    assert!(thinned.descend(&mut dry, &params));
    params.evaporation_rate = whole(0);
    let mut loaded = start;
    assert!(loaded.descend(&mut wet, &params));
    let was = loaded.sediment.raw * start.volume.raw;
    let is = thinned.sediment.raw * thinned.volume.raw;
    assert!(is <= was);
    assert!(was - is <= thinned.sediment.raw + thinned.volume.raw);
    assert_eq!(total(&dry), total(&wet));
    assert_eq!(total(&wet) + loaded.sediment.raw, total(&cone(9)));
}

#[test]
fn steps_leave_averages_and_roots() {
    let mut t = cone(9);
    for cell in t.cells_mut_iter() {
        cell.discharge = Fixed::ratio(1, 5);
        cell.root_density = Fixed::ratio(1, 3);
    }
    let params: ErosionParams<Fixed> = ErosionParams::default();
    let mut drop = Drop::new(Vec2 { x: whole(5), y: whole(6) });
    assert!(drop.descend(&mut t, &params));
    assert_eq!(drop.age, 1);
    assert!(!t.oob_i32(drop.pos.x.to_i32(), drop.pos.y.to_i32()));
    for z in 0..9 {
        for x in 0..9 {
            let cell = t.cell(x, z);
            assert_eq!(cell.discharge, Fixed::ratio(1, 5));
            assert_eq!(cell.root_density, Fixed::ratio(1, 3));
            assert_eq!(cell.discharge_track == whole(0), (x, z) != (5, 6));
        }
    }
}

#[test]
fn drops_come_to_an_end() {
    let mut t = cone(9);
    let mut params: ErosionParams<Fixed> = ErosionParams::default();
    params.max_age = 40;
    let mut drop = Drop::new(Vec2 { x: whole(4), y: whole(4) });
    let mut steps = 0;
    while drop.descend(&mut t, &params) {
        steps += 1;
    }
    assert!(steps <= 41);
    assert!(
        drop.age > 40 || drop.volume.below(params.min_volume) || drop.volume == whole(0)
    );
}

#[test]
fn frames_move_averages_by_the_learning_rate() {
    let mut t = cone(9);
    for cell in t.cells_mut_iter() {
        cell.discharge = Fixed::ratio(1, 5);
        cell.discharge_track = whole(100);
    }
    let params: ErosionParams<Fixed> = ErosionParams::default();
    erode_from(&mut t, &params, &vec![(4, 3), (2, 6), (4, 3)]);
    let rest = whole(1).minus(params.learning_rate);
    for cell in t.cells_iter() {
        let moved = rest.times(Fixed::ratio(1, 5)).plus(
            params.learning_rate.times(cell.discharge_track),
        );
        assert_eq!(cell.discharge, moved);
        assert!(cell.discharge_track.below(whole(100)));
    }
}

#[test]
fn random_frames_track_every_drop() {
    let mut t: TerrainResource<Fixed> = TerrainResource::new(16);
    for cell in t.cells_mut_iter() {
        cell.height = Fixed::ratio(1, 2);
    }
    let mut params: ErosionParams<Fixed> = ErosionParams::default();
    params.max_age = 0;
    params.cycles_per_frame = 50;
    erode(&mut t, &params);
    let passed: i64 = t.cells_iter().map(|c| c.discharge_track.raw).sum();
    assert_eq!(passed, 50 * UNIT);
    assert!(t.cells_iter().filter(|c| c.discharge_track.raw > 0).count() > 5);
}

#[test]
fn clearing_twice_is_clearing_once() {
    let mut t = cone(4);
    t.cell_mut(1, 2).momentum_x_track = whole(3);
    t.clear_tracking();
    let once: Vec<i64> = t.cells_iter().map(|c| c.momentum_x_track.raw).collect();
    t.clear_tracking();
    let twice: Vec<i64> = t.cells_iter().map(|c| c.momentum_x_track.raw).collect();
    assert_eq!(once, twice);
    assert!(twice.iter().all(|m| *m == 0));
}

#[test]
fn reads_follow_writes() {
    let mut t: TerrainResource<Fixed> = TerrainResource::new(5);
    for z in 0..5 {
        for x in 0..5 {
            t.set_height(x, z, whole((10 * z + x) as i64));
        }
    }
    for z in 0..5 {
        for x in 0..5 {
            assert_eq!(t.height_at(x, z), whole((10 * z + x) as i64));
            assert_eq!(t.index(x, z), 5 * z + x);
        }
    }
}

#[test]
fn sorting_keeps_all_neighbors() {
    let mut t = cone(3);
    t.set_height(0, 2, whole(-4));
    let found = neighbors_of(&t, 1, 1);
    let sorted = sort_by_height(&found);
    assert_eq!((sorted[0].x, sorted[0].z), (0, 2));
    for n in &found {
        assert!(sorted.iter().any(|m| m.x == n.x && m.z == n.z && m.height == n.height));
    }
    for pair in sorted.windows(2) {
        assert!(pair[0].height.at_most(pair[1].height));
        assert!(pair[0].distance == whole(1) || pair[0].distance == whole(2).sqrt());
    }
}

// ---- plants ----

#[test]
fn uprooting_reverses_rooting() {
    let mut t = cone(6);
    for cell in t.cells_mut_iter() {
        cell.root_density = Fixed::ratio(1, 7);
    }
    for (x, z) in [(0, 0), (3, 3), (5, 2), (-1, 4)] {
        let pos = Vec2 { x: whole(x), y: whole(z) };
        root_apply(&mut t, pos, whole(1));
        root_apply(&mut t, pos, whole(-1));
        assert!(t.cells_iter().all(|c| c.root_density == Fixed::ratio(1, 7)));
    }
}

#[test]
fn roots_are_accounted_for() {
    let params: PlantParams<Fixed> = PlantParams::default();
    let mut t: TerrainResource<Fixed> = TerrainResource::new(12);
    for cell in t.cells_mut_iter() {
        cell.height = Fixed::ratio(1, 2);
        cell.root_density = Fixed::ratio(1, 9);
    }
    let mut plants = VegetationPlants::default();
    for frame in 0..150 {
        if frame == 100 {
            for x in 0..12 {
                t.cell_mut(x, 5).discharge = whole(2);
            }
        }
        update_vegetation(&mut t, &mut plants, &params, false);
    }
    assert!(!plants.plants.is_empty());
    let mut ground: TerrainResource<Fixed> = TerrainResource::new(12);
    for cell in ground.cells_mut_iter() {
        cell.root_density = Fixed::ratio(1, 9);
    }
    for plant in &plants.plants {
        assert!(plant.pos.y.to_i32() != 5);
        root_apply(&mut ground, plant.pos, whole(1));
    }
    for (a, b) in t.cells_iter().zip(ground.cells_iter()) {
        assert_eq!(a.root_density, b.root_density);
        assert_eq!(a.height, Fixed::ratio(1, 2));
        assert!(whole(0).at_most(a.root_density));
    }
}

#[test]
fn growth_nears_the_full_size() {
    let params: PlantParams<Fixed> = PlantParams::default();
    let mut plant = Plant { pos: Vec2 { x: whole(0), y: whole(0) }, size: whole(0) };
    for _ in 0..300 {
        let before = plant.size;
        plant.grow(&params);
        assert!(before.at_most(plant.size) && plant.size.at_most(params.max_size));
    }
    assert!(Fixed::ratio(14, 10).below(plant.size));
    plant.size = whole(-7);
    let left = params.max_size.minus(plant.size);
    plant.grow(&params);
    let rest = whole(1).minus(params.grow_rate).times(left);
    let now = params.max_size.minus(plant.size);
    assert!(rest.at_most(now) && now.raw <= rest.raw + 1);
    plant.size = params.max_size;
    plant.grow(&params);
    assert_eq!(plant.size, params.max_size);
}

#[test]
fn plants_grow_once_a_turn() {
    let params: PlantParams<Fixed> = PlantParams::default();
    let mut t: TerrainResource<Fixed> = TerrainResource::new(8);
    let mut plants = VegetationPlants::default();
    seed_at(&mut t, &mut plants, &params, 1, 1);
    seed_at(&mut t, &mut plants, &params, 6, 6);
    let luck = Luck { death: 1, fertility: 1, dx: 0, dz: 0, rooting: whole(0) };
    let mut i = 0;
    while i < plants.plants.len() {
        i = tend(&mut t, &mut plants, &params, i, &luck);
    }
    let mut once = Plant { pos: Vec2 { x: whole(0), y: whole(0) }, size: whole(0) };
    once.grow(&params);
    assert_eq!(plants.plants.len(), 2);
    assert!(plants.plants.iter().all(|p| p.size == once.size));
}

#[test]
fn luck_is_drawn_in_its_bounds() {
    let mut deaths: Vec<i32> = Vec::new();
    for _ in 0..300 {
        let luck: Luck<Fixed> = Luck::draw();
        assert!((0..1000).contains(&luck.death));
        assert!((0..20).contains(&luck.fertility));
        assert!((-4..5).contains(&luck.dx));
        assert!((-4..5).contains(&luck.dz));
        assert!(0 <= luck.rooting.raw && luck.rooting.raw < UNIT);
        deaths.push(luck.death);
    }
    deaths.sort();
    deaths.dedup();
    assert!(deaths.len() > 50);
}

#[test]
fn sprouts_live_on_level_ground() {
    let params: PlantParams<Fixed> = PlantParams::default();
    let mut t: TerrainResource<Fixed> = TerrainResource::new(4);
    let mut plants = VegetationPlants::default();
    seed_at(&mut t, &mut plants, &params, 3, 0);
    assert_eq!(plants.plants.len(), 1);
    assert_eq!(t.cell(2, 1).root_density, Fixed::ratio(4, 10));
}

// ---- the surface ----

#[test]
fn indices_name_every_vertex() {
    for size in 1..6usize {
        let indices = grid_indices(size);
        let n = (size + 1) * (size + 1);
        assert_eq!(indices.len(), 6 * size * size);
        for v in 0..n as u32 {
            assert!(indices.contains(&v));
        }
        for triangle in indices.chunks(3) {
            assert!(triangle.iter().all(|i| (*i as usize) < n));
            assert!(triangle[0] != triangle[1] && triangle[1] != triangle[2]);
            assert!(triangle[0] != triangle[2]);
        }
    }
    assert!(grid_indices(0).is_empty());
}

#[test]
fn extremes_take_the_end_colors() {
    let noise: Vec<Fixed> = (0..9).map(|i| Fixed::ratio((i * 5) % 9, 10)).collect();
    let mesh = generate_terrain_mesh(2, &noise);
    assert_eq!(mesh.colors[0].red, ground_color(whole(0)).red);
    assert_eq!(mesh.colors[7].red, ground_color(whole(1)).red);
    for p in &mesh.positions {
        assert!(mesh.positions[0].y.at_most(p.y) && p.y.at_most(mesh.positions[7].y));
    }
    assert!(mesh.normals.iter().all(|n| whole(0).below(n.y)));
}

#[test]
fn samples_are_taken_row_after_row() {
    let points: Vec<(Fixed, Fixed)> = sample_points(2);
    assert_eq!(points.len(), 54);
    let step = Fixed::ratio(15, 1000);
    assert_eq!(points[6 * 5 + 1], (whole(2).times(step.times(whole(2))), step.times(whole(2))));
}

// ---- the camera ----

#[test]
fn camera_turns_undo_each_other() {
    let rest = CameraKeys {
        left: false,
        right: false,
        up: false,
        down: false,
        w: false,
        a: false,
        s: false,
        d: false,
    };
    let mut ctrl: CameraController<Fixed> = CameraController::default();
    let start = ctrl;
    orbit_camera(&mut ctrl, whole(1), &rest, &vec![]);
    assert_eq!(ctrl.yaw, start.yaw);
    assert_eq!(ctrl.distance, start.distance);
    assert_eq!(ctrl.center.x, start.center.x);
    orbit_camera(&mut ctrl, Fixed::ratio(1, 7), &CameraKeys { left: true, ..rest }, &vec![]);
    assert!(ctrl.yaw != start.yaw);
    orbit_camera(&mut ctrl, Fixed::ratio(1, 7), &CameraKeys { right: true, ..rest }, &vec![]);
    assert_eq!(ctrl.yaw, start.yaw);
    let both = CameraKeys { w: true, s: true, a: true, d: true, ..rest };
    orbit_camera(&mut ctrl, whole(1), &both, &vec![]);
    assert_eq!(ctrl.center.z, start.center.z);
    orbit_camera(&mut ctrl, whole(9), &CameraKeys { down: true, ..rest }, &vec![whole(-90)]);
    assert_eq!(ctrl.pitch, Fixed::ratio(5, 100));
    assert_eq!(ctrl.distance, whole(600));
    assert!(ctrl.center.y.below(camera_position(&ctrl).y));
    orbit_camera(&mut ctrl, whole(1), &CameraKeys { w: true, d: true, ..rest }, &vec![whole(3)]);
    assert_eq!(ctrl.center.y, start.center.y);
    assert!(ctrl.center.x != start.center.x);
    assert_eq!(ctrl.distance, whole(510));
    orbit_camera(&mut ctrl, whole(9), &CameraKeys { up: true, ..rest }, &vec![]);
    assert_eq!(ctrl.pitch.raw, 102943 - 1310);
}

// ---- the device ----

#[test]
fn workgroups_suffice() {
    assert_eq!(workgroups(0), 0);
    assert_eq!(workgroups(1), 1);
    assert_eq!(workgroups(64), 1);
    assert_eq!(workgroups(65), 2);
    assert_eq!(workgroups(512), 8);
    assert_eq!(workgroups(u32::MAX), 1 << 26);
}

#[test]
fn nothing_is_run_on_an_empty_grid() {
    let params: ErosionParams<Fixed> = ErosionParams::default();
    let empty: TerrainResource<Fixed> = TerrainResource::new(0);
    assert!(gpu_frame(&empty, &params, 0, true, true).is_none());
    let one: TerrainResource<Fixed> = TerrainResource::new(1);
    assert!(gpu_frame(&one, &params, 0, true, true).is_some());
}

#[test]
fn slots_are_bound_in_order() {
    let all = bindings();
    assert_eq!(all.len(), 9);
    assert_eq!(all[0], (Slot::Heights, Binding::Changed));
    assert_eq!(all[1], (Slot::Discharges, Binding::Read));
    assert_eq!(all[4], (Slot::Roots, Binding::Read));
    assert_eq!(all[5], (Slot::DischargeTrack, Binding::Changed));
    assert_eq!(all[7], (Slot::MomentumYTrack, Binding::Changed));
    assert_eq!(all[8], (Slot::Params, Binding::Uniform));
}

#[test]
fn buffers_start_from_the_grid_and_from_zeros() {
    let all = uploads();
    assert_eq!(all.len(), 9);
    assert_eq!(all[0], (Slot::Heights, Upload::Heights));
    assert_eq!(all[1], (Slot::Discharges, Upload::Discharges));
    assert_eq!(all[2], (Slot::MomentumX, Upload::MomentumX));
    assert_eq!(all[3], (Slot::MomentumY, Upload::MomentumY));
    assert_eq!(all[4], (Slot::Roots, Upload::Roots));
    assert_eq!(all[5], (Slot::DischargeTrack, Upload::Zeros));
    assert_eq!(all[6], (Slot::MomentumXTrack, Upload::Zeros));
    assert_eq!(all[7], (Slot::MomentumYTrack, Upload::Zeros));
    assert_eq!(all[8], (Slot::Params, Upload::Params));
}

#[test]
fn buffers_are_made_once_per_size() {
    assert!(ensure_bufs(16, 16).is_empty());
    let plans = ensure_bufs(0, 16);
    assert_eq!(plans.len(), 10);
    assert_eq!(
        plans[0],
        BufferPlan {
            slot: Slot::Heights,
            size: 64,
            storage: true,
            uniform: false,
            copy_from: true,
            copy_to: true,
            map_read: false,
        }
    );
    assert!(!plans[1].copy_from && plans[1].storage);
    assert_eq!(
        plan_buffer(Slot::Params, 16),
        BufferPlan {
            slot: Slot::Params,
            size: 48,
            storage: false,
            uniform: true,
            copy_from: false,
            copy_to: true,
            map_read: false,
        }
    );
    let staging = plans[9];
    assert_eq!(staging.slot, Slot::Staging);
    assert!(staging.map_read && staging.copy_to && !staging.storage && !staging.copy_from);
    assert_eq!(staging.size, plans[0].size);
}

// ---- the text ----

#[test]
fn text_tells_how_the_run_goes() {
    let info = RunInfo {
        paused: false,
        heatmap: true,
        fps: Some(60),
        frame: 1200,
        plants: 7,
        cycles_per_frame: 512,
    };
    assert_eq!(
        info.text("10.0"),
        "Hydraulic Erosion\n─────────────────\nStatus:      ▶ RUNNING\nHeatmap:     ON [M]\n\
         FPS:         60\nFrame:       1200\nParticles:   614400\nPlants:      7\n\
         ── Params ──\nCycles/frame: 512  [O/P]\nEntrainment:  10.0  [K/L]"
    );
    let resting = RunInfo { paused: true, heatmap: false, fps: None, ..info };
    let text = resting.text("1.5");
    assert!(text.contains("⏸ PAUSED") && text.contains("OFF [M]") && text.contains("FPS:         0\n"));
    assert!(text.contains("Entrainment:  1.5  [K/L]"));
}

#[test]
fn numbers_are_told_in_decimal() {
    let mut n: u64 = 1;
    for _ in 0..18 {
        n = n * 7 + 3;
        if n > 1 << 50 {
            n %= 1000;
        }
        let info = RunInfo {
            paused: false,
            heatmap: false,
            fps: None,
            frame: n,
            plants: 0,
            cycles_per_frame: 1,
        };
        assert!(info.text("0.0").contains(&format!("Frame:       {}\n", n)));
    }
}

#[test]
fn frames_are_counted() {
    assert_eq!(next_frame(0), 1);
    assert_eq!(next_frame(u64::MAX - 1), u64::MAX);
    assert_eq!(total_particles(3, 512), 1536);
}
