//! A camera that circles a point.

use crate::config;
use crate::config::GRID_SIZE;
use crate::fixed::Fixed;
use crate::scalar;
use crate::scalar::{clamp, Scalar};
use crate::steps;
use crate::vector::Vec3;
use vstd::prelude::*;

verus! {

/// Where the camera is, seen from the point that it looks at.
#[derive(Clone, Copy, Debug)]
pub struct CameraController<S> {
    pub yaw: S,
    pub pitch: S,
    pub distance: S,
    /// The point that it looks at.
    pub center: Vec3<S>,
}

/// Which of the keys that move the camera are held down.
#[derive(Clone, Copy, Debug)]
pub struct CameraKeys {
    pub left: bool,
    pub right: bool,
    pub up: bool,
    pub down: bool,
    pub w: bool,
    pub a: bool,
    pub s: bool,
    pub d: bool,
}

/// A quarter of pi.
pub open spec fn eighth_turn<S: Scalar>() -> S {
    S::ratio_of(785398163397448310, 1000000000000000000)
}

/// Half of pi.
pub open spec fn quarter_turn<S: Scalar>() -> S {
    S::ratio_of(1570796326794896619, 1000000000000000000)
}

/// The least and the greatest pitch.
pub open spec fn flattest<S: Scalar>() -> S {
    S::ratio_of(5, 100)
}

pub open spec fn steepest<S: Scalar>() -> S {
    quarter_turn::<S>().sub(S::ratio_of(2, 100))
}

/// The least and the greatest distance.
pub open spec fn nearest<S: Scalar>() -> S {
    S::ratio_of(30, 1)
}

pub open spec fn farthest<S: Scalar>() -> S {
    S::ratio_of(600, 1)
}

impl<S: Scalar> CameraController<S> {
    /// The camera that a run starts with, looking at the middle of the grid at `height`.
    pub open spec fn initial(height: S) -> Self {
        let middle = S::of_index(GRID_SIZE).mul(config::cell_side()).div(S::ratio_of(2, 1));
        CameraController {
            yaw: eighth_turn(),
            pitch: S::ratio_of(8, 10),
            distance: S::ratio_of(250, 1),
            center: Vec3 { x: middle, y: height, z: middle },
        }
    }

    /// Where the camera is.
    pub open spec fn place(self) -> Vec3<S> {
        self.center.add(
            Vec3 {
                x: self.distance.mul(self.pitch.cosine()).mul(self.yaw.sine()),
                y: self.distance.mul(self.pitch.sine()),
                z: self.distance.mul(self.pitch.cosine()).mul(self.yaw.cosine()),
            },
        )
    }

    /// The camera after the arrow keys turned it for a time.
    pub open spec fn turned(self, dt: S, keys: CameraKeys) -> Self {
        let sweep = S::ratio_of(3, 2).mul(dt);
        let tilt = scalar::one::<S>().mul(dt);
        let yaw1 = if keys.left {
            self.yaw.sub(sweep)
        } else {
            self.yaw
        };
        let yaw2 = if keys.right {
            yaw1.add(sweep)
        } else {
            yaw1
        };
        let pitch1 = if keys.up {
            scalar::clamped(self.pitch.add(tilt), flattest(), steepest())
        } else {
            self.pitch
        };
        let pitch2 = if keys.down {
            scalar::clamped(pitch1.sub(tilt), flattest(), steepest())
        } else {
            pitch1
        };
        CameraController { yaw: yaw2, pitch: pitch2, ..self }
    }

    /// The camera after the wheel brought it nearer by `scroll` notches.
    pub open spec fn zoomed(self, scroll: S) -> Self {
        CameraController {
            distance: scalar::clamped(
                self.distance.sub(scroll.mul(S::ratio_of(30, 1))),
                nearest(),
                farthest(),
            ),
            ..self
        }
    }

    /// The camera after each of `scrolls` in turn.
    pub open spec fn zoomed_by_all(self, scrolls: Seq<S>) -> Self
        decreases scrolls.len(),
    {
        if scrolls.len() == 0 {
            self
        } else {
            self.zoomed_by_all(scrolls.drop_last()).zoomed(scrolls.last())
        }
    }

    /// The direction away from the point that the camera looks at, along the ground.
    pub open spec fn backward(self) -> Vec3<S> {
        Vec3 { x: self.yaw.sine(), y: scalar::zero(), z: self.yaw.cosine() }.direction()
    }

    /// The direction to the right of it, along the ground.
    pub open spec fn rightward(self) -> Vec3<S> {
        Vec3 { x: self.yaw.cosine(), y: scalar::zero(), z: self.yaw.sine().neg() }.direction()
    }

    /// The direction in which the keys move the camera along the ground.
    pub open spec fn pan(self, keys: CameraKeys) -> Vec3<S> {
        let pan0 = Vec3::zeros();
        let pan1 = if keys.w {
            pan0.sub(self.backward())
        } else {
            pan0
        };
        let pan2 = if keys.s {
            pan1.add(self.backward())
        } else {
            pan1
        };
        let pan3 = if keys.a {
            pan2.sub(self.rightward())
        } else {
            pan2
        };
        if keys.d {
            pan3.add(self.rightward())
        } else {
            pan3
        }
    }

    /// The camera after the keys moved it along the ground for a time, the faster the
    /// farther off it is.
    pub open spec fn panned(self, dt: S, keys: CameraKeys) -> Self {
        let pan = self.pan(keys);
        let speed = S::ratio_of(60, 1).mul(dt).mul(self.distance.div(S::ratio_of(150, 1)));
        if scalar::zero::<S>().lt(pan.inner(pan)) {
            CameraController {
                center: self.center.add(pan.direction_or_zero().scale(speed)),
                ..self
            }
        } else {
            self
        }
    }

    /// The camera after a frame of `dt` with so many turns of the wheel.
    pub open spec fn orbited(self, dt: S, keys: CameraKeys, scrolls: Seq<S>) -> Self {
        self.turned(dt, keys).zoomed_by_all(scrolls).panned(dt, keys)
    }

    /// The camera that a run starts with, looking at the middle of the grid at `height`.
    pub fn new(height: S) -> (r: Self)
        ensures
            r == Self::initial(height),
    {
        let middle: S = S::from_index(GRID_SIZE).times(config::cell_size()).over(S::ratio(2, 1));
        CameraController {
            yaw: S::ratio(785398163397448310, 1000000000000000000),
            pitch: S::ratio(8, 10),
            distance: S::ratio(250, 1),
            center: Vec3 { x: middle, y: height, z: middle },
        }
    }

    fn turn(&mut self, dt: S, keys: &CameraKeys)
        ensures
            *final(self) == old(self).turned(dt, *keys),
    {
        let low: S = S::ratio(5, 100);
        let high: S = S::ratio(1570796326794896619, 1000000000000000000).minus(S::ratio(2, 100));
        if keys.left {
            self.yaw = self.yaw.minus(S::ratio(3, 2).times(dt));
        }
        if keys.right {
            self.yaw = self.yaw.plus(S::ratio(3, 2).times(dt));
        }
        if keys.up {
            self.pitch = clamp(self.pitch.plus(S::ratio(1, 1).times(dt)), low, high);
        }
        if keys.down {
            self.pitch = clamp(self.pitch.minus(S::ratio(1, 1).times(dt)), low, high);
        }
    }

    fn zoom(&mut self, scroll: S)
        ensures
            *final(self) == old(self).zoomed(scroll),
    {
        self.distance =
        clamp(
            self.distance.minus(scroll.times(S::ratio(30, 1))),
            S::ratio(30, 1),
            S::ratio(600, 1),
        );
    }

    fn move_along(&mut self, dt: S, keys: &CameraKeys)
        ensures
            *final(self) == old(self).panned(dt, *keys),
    {
        let sin: S = self.yaw.sin();
        let cos: S = self.yaw.cos();
        let zero: S = S::ratio(0, 1);
        let backward: Vec3<S> = Vec3 { x: sin, y: zero, z: cos }.normalize();
        let rightward: Vec3<S> = Vec3 { x: cos, y: zero, z: sin.negated() }.normalize();
        let mut pan: Vec3<S> = Vec3::zero();
        if keys.w {
            pan = pan.minus(backward);
        }
        if keys.s {
            pan = pan.plus(backward);
        }
        if keys.a {
            pan = pan.minus(rightward);
        }
        if keys.d {
            pan = pan.plus(rightward);
        }
        if zero.below(pan.dot(pan)) {
            let speed: S = S::ratio(60, 1).times(dt).times(self.distance.over(S::ratio(150, 1)));
            self.center = self.center.plus(pan.normalize_or_zero().scaled(speed));
        }
    }
}

impl<S: Scalar> Default for CameraController<S> {
    fn default() -> (r: Self)
        ensures
            r == Self::initial(
                config::amplitude::<S>().mul(config::drawn_stretch()).div(S::ratio_of(2, 1)),
            ),
    {
        CameraController::new(
            config::height_amp::<S>().times(config::height_scale()).over(S::ratio(2, 1)),
        )
    }
}

/// Where the camera is.
pub fn camera_position<S: Scalar>(ctrl: &CameraController<S>) -> (r: Vec3<S>)
    ensures
        r == ctrl.place(),
{
    let d: S = ctrl.distance;
    let level: S = d.times(ctrl.pitch.cos());
    ctrl.center.plus(
        Vec3 {
            x: level.times(ctrl.yaw.sin()),
            y: d.times(ctrl.pitch.sin()),
            z: level.times(ctrl.yaw.cos()),
        },
    )
}

/// Moves the camera through a frame of `dt`: the arrow keys turn it, each turn of the wheel
/// brings it nearer or takes it off, and the letter keys move it along the ground.
pub fn orbit_camera<S: Scalar>(
    ctrl: &mut CameraController<S>,
    dt: S,
    keys: &CameraKeys,
    scrolls: &Vec<S>,
)
    ensures
        *final(ctrl) == old(ctrl).orbited(dt, *keys, scrolls@),
{
    ctrl.turn(dt, keys);
    let ghost turned = *ctrl;
    let mut i: usize = 0;
    assert(scrolls@.take(0) =~= Seq::empty());
    while i < scrolls.len()
        invariant
            i <= scrolls.len(),
            *ctrl == turned.zoomed_by_all(scrolls@.take(i as int)),
        decreases scrolls.len() - i,
    {
        assert(scrolls@.take(i + 1).drop_last() =~= scrolls@.take(i as int));
        ctrl.zoom(scrolls[i]);
        i = i + 1;
    }
    assert(scrolls@.take(i as int) =~= scrolls@);
    ctrl.move_along(dt, keys);
}

/// Where nothing is pressed and the wheel rests, the camera rests.
pub proof fn resting_keys_move_nothing<S: Scalar>(ctrl: CameraController<S>, dt: S)
    requires
        !scalar::zero::<S>().lt(Vec3::<S>::zeros().inner(Vec3::zeros())),
    ensures
        ctrl.orbited(
            dt,
            (CameraKeys {
                left: false,
                right: false,
                up: false,
                down: false,
                w: false,
                a: false,
                s: false,
                d: false,
            }),
            Seq::empty(),
        ) == ctrl,
{
}

/// What the bounds of the camera need of the numbers: an order in which finite numbers
/// compare, and bounds that are finite and leave room.
pub open spec fn bounds_hold<S: Scalar>() -> bool {
    &&& scalar::ordered::<S>()
    &&& scalar::numbers_compare::<S>()
    &&& scalar::finite_numbers_hold::<S>()
    &&& scalar::one::<S>().finite()
    &&& flattest::<S>().finite() && steepest::<S>().finite() && flattest::<S>().le(steepest())
    &&& nearest::<S>().finite() && farthest::<S>().finite() && nearest::<S>().le(farthest())
}

/// The bounds hold in fixed-point numbers.
pub proof fn fixed_bounds_hold()
    ensures
        bounds_hold::<Fixed>(),
{
    crate::fixed::fixed_numbers_are_ordered();
    crate::fixed::fixed_numbers_compare();
    crate::fixed::fixed_numbers_hold();
    assert(flattest::<Fixed>().raw == 3276);
    assert(quarter_turn::<Fixed>().raw == 102943);
    assert(Fixed::ratio_of(2, 100).raw == 1310);
    assert(nearest::<Fixed>().raw == 1966080);
    assert(farthest::<Fixed>().raw == 39321600);
}

proof fn lemma_clamping<S: Scalar>(a: S, low: S, high: S)
    requires
        scalar::ordered::<S>(),
        scalar::numbers_compare::<S>(),
        scalar::finite_numbers_hold::<S>(),
        a.same(a),
        low.finite(),
        high.finite(),
        low.le(high),
    ensures
        low.le(scalar::clamped(a, low, high)),
        scalar::clamped(a, low, high).le(high),
        scalar::clamped(a, low, high).finite(),
{
    assert(low.same(low) && high.same(high));
    assert(low.le(low) && high.le(high));
    assert(a.le(low) || low.le(a));
    assert(a.le(high) || high.le(a));
    scalar::clamping_stays_in_bounds(a, low, high);
}

/// The arrow keys keep the pitch in its bounds, once it is, through any finite time.
pub proof fn turning_stays_in_bounds<S: Scalar>(ctrl: CameraController<S>, dt: S, keys: CameraKeys)
    requires
        bounds_hold::<S>(),
        flattest::<S>().le(ctrl.pitch) && ctrl.pitch.le(steepest()),
        dt.finite(),
    ensures
        flattest::<S>().le(ctrl.turned(dt, keys).pitch),
        ctrl.turned(dt, keys).pitch.le(steepest()),
{
    let tilt = scalar::one::<S>().mul(dt);
    assert(ctrl.pitch.finite());
    assert(tilt.same(tilt));
    let up = ctrl.pitch.add(tilt);
    lemma_clamping(up, flattest(), steepest());
    lemma_clamping(ctrl.pitch.sub(tilt), flattest(), steepest());
    lemma_clamping(
        scalar::clamped(up, flattest(), steepest()).sub(tilt),
        flattest(),
        steepest(),
    );
}

/// Finite turns of the wheel keep the distance in its bounds, once it is.
pub proof fn zooming_stays_in_bounds<S: Scalar>(ctrl: CameraController<S>, scrolls: Seq<S>)
    requires
        bounds_hold::<S>(),
        nearest::<S>().le(ctrl.distance) && ctrl.distance.le(farthest()),
        forall|i: int| 0 <= i < scrolls.len() ==> (#[trigger] scrolls[i]).finite(),
    ensures
        nearest::<S>().le(ctrl.zoomed_by_all(scrolls).distance),
        ctrl.zoomed_by_all(scrolls).distance.le(farthest()),
    decreases scrolls.len(),
{
    if scrolls.len() > 0 {
        let rest = scrolls.drop_last();
        assert forall|i: int| 0 <= i < rest.len() implies (#[trigger] rest[i]).finite() by {
            assert(rest[i] == scrolls[i]);
        }
        zooming_stays_in_bounds(ctrl, rest);
        let before = ctrl.zoomed_by_all(rest).distance;
        assert(before.finite());
        assert(scrolls[scrolls.len() - 1].finite());
        let pull = scrolls.last().mul(S::ratio_of(30, 1));
        assert(pull.same(pull));
        lemma_clamping(before.sub(pull), nearest(), farthest());
    }
}

proof fn lemma_turning_keeps_distance<S: Scalar>(
    ctrl: CameraController<S>,
    dt: S,
    keys: CameraKeys,
    scrolls: Seq<S>,
)
    ensures
        ctrl.turned(dt, keys).zoomed_by_all(scrolls).distance == ctrl.zoomed_by_all(
            scrolls,
        ).distance,
        ctrl.turned(dt, keys).zoomed_by_all(scrolls).pitch == ctrl.turned(dt, keys).pitch,
    decreases scrolls.len(),
{
    if scrolls.len() > 0 {
        lemma_turning_keeps_distance(ctrl, dt, keys, scrolls.drop_last());
    }
}

/// A frame of any finite time, with any keys and finite turns of the wheel, keeps pitch and
/// distance in their bounds, once they are; and one turn of the wheel leads to the old
/// distance less thirty for each notch, held to its bounds.
pub proof fn frames_stay_in_bounds<S: Scalar>(
    ctrl: CameraController<S>,
    dt: S,
    keys: CameraKeys,
    scrolls: Seq<S>,
)
    requires
        bounds_hold::<S>(),
        flattest::<S>().le(ctrl.pitch) && ctrl.pitch.le(steepest()),
        nearest::<S>().le(ctrl.distance) && ctrl.distance.le(farthest()),
        dt.finite(),
        forall|i: int| 0 <= i < scrolls.len() ==> (#[trigger] scrolls[i]).finite(),
    ensures
        ({
            let next = ctrl.orbited(dt, keys, scrolls);
            &&& flattest::<S>().le(next.pitch) && next.pitch.le(steepest())
            &&& nearest::<S>().le(next.distance) && next.distance.le(farthest())
            &&& scrolls.len() == 1 ==> next.distance == scalar::clamped(
                ctrl.distance.sub(scrolls[0].mul(S::ratio_of(30, 1))),
                nearest(),
                farthest(),
            )
        }),
{
    turning_stays_in_bounds(ctrl, dt, keys);
    zooming_stays_in_bounds(ctrl, scrolls);
    lemma_turning_keeps_distance(ctrl, dt, keys, scrolls);
    if scrolls.len() == 1 {
        assert(scrolls.drop_last() =~= Seq::empty());
        assert(ctrl.zoomed_by_all(scrolls.drop_last()) == ctrl);
        assert(ctrl.zoomed_by_all(scrolls) == ctrl.zoomed(scrolls.last()));
    }
}

proof fn lemma_zooming_keeps_center<S: Scalar>(ctrl: CameraController<S>, scrolls: Seq<S>)
    ensures
        ctrl.zoomed_by_all(scrolls).center == ctrl.center,
    decreases scrolls.len(),
{
    if scrolls.len() > 0 {
        lemma_zooming_keeps_center(ctrl, scrolls.drop_last());
    }
}

/// Where zero vanishes, the camera moves along the ground only: the height of the point that
/// it looks at stays, as long as the numbers that it moves by are finite.
pub proof fn frames_keep_the_height<S: Scalar>(
    ctrl: CameraController<S>,
    dt: S,
    keys: CameraKeys,
    scrolls: Seq<S>,
)
    requires
        scalar::zero_vanishes::<S>(),
        ctrl.center.y.same(ctrl.center.y),
        ({
            let zoomed = ctrl.turned(dt, keys).zoomed_by_all(scrolls);
            let sin = zoomed.yaw.sine();
            let cos = zoomed.yaw.cosine();
            let back = Vec3 { x: sin, y: scalar::zero(), z: cos };
            let right = Vec3 { x: cos, y: scalar::zero(), z: sin.neg() };
            let speed = S::ratio_of(60, 1).mul(dt).mul(zoomed.distance.div(S::ratio_of(150, 1)));
            &&& scalar::one::<S>().div(back.norm()).finite()
            &&& scalar::one::<S>().div(right.norm()).finite()
            &&& speed.finite()
        }),
    ensures
        ctrl.orbited(dt, keys, scrolls).center.y.same(ctrl.center.y),
{
    let zoomed = ctrl.turned(dt, keys).zoomed_by_all(scrolls);
    lemma_zooming_keeps_center(ctrl.turned(dt, keys), scrolls);
    assert(scalar::is_zero(zoomed.backward().y));
    assert(scalar::is_zero(zoomed.rightward().y));
    let pan = zoomed.pan(keys);
    assert(scalar::is_zero(pan.y));
    assert(scalar::is_zero(pan.direction_or_zero().y));
    let speed = S::ratio_of(60, 1).mul(dt).mul(zoomed.distance.div(S::ratio_of(150, 1)));
    assert(scalar::is_zero(pan.direction_or_zero().scale(speed).y));
}

/// In fixed-point numbers every frame keeps pitch and distance in their bounds, once they
/// are, and the height of the point that the camera looks at.
pub proof fn fixed_cameras_stay_in_bounds(
    ctrl: CameraController<Fixed>,
    dt: Fixed,
    keys: CameraKeys,
    scrolls: Seq<Fixed>,
)
    requires
        flattest::<Fixed>().le(ctrl.pitch) && ctrl.pitch.le(steepest()),
        nearest::<Fixed>().le(ctrl.distance) && ctrl.distance.le(farthest()),
    ensures
        ({
            let next = ctrl.orbited(dt, keys, scrolls);
            &&& flattest::<Fixed>().le(next.pitch) && next.pitch.le(steepest())
            &&& nearest::<Fixed>().le(next.distance) && next.distance.le(farthest())
            &&& next.center.y == ctrl.center.y
        }),
{
    fixed_bounds_hold();
    crate::fixed::fixed_zero_vanishes();
    frames_stay_in_bounds(ctrl, dt, keys, scrolls);
    frames_keep_the_height(ctrl, dt, keys, scrolls);
}

/// Where sums are exact, a turn to the left and a turn to the right undo each other.
pub proof fn turns_undo_each_other<S: Scalar>(
    ctrl: CameraController<S>,
    dt: S,
    left: CameraKeys,
    right: CameraKeys,
)
    requires
        scalar::exact_sums::<S>(),
        left.left && !left.right && !left.up && !left.down,
        right.right && !right.left && !right.up && !right.down,
    ensures
        ctrl.turned(dt, left).turned(dt, right) == ctrl,
{
    let sweep = S::ratio_of(3, 2).mul(dt);
    scalar::lemma_exact_sums(ctrl.yaw, sweep, sweep);
}

/// In fixed-point numbers, the keys for back and forth together move nothing.
pub proof fn opposite_keys_move_nothing(ctrl: CameraController<Fixed>, dt: Fixed, keys: CameraKeys)
    requires
        keys.w == keys.s,
        keys.a == keys.d,
    ensures
        ctrl.panned(dt, keys) == ctrl,
{
    crate::fixed::fixed_sums_are_exact();
    let b = ctrl.backward();
    let r = ctrl.rightward();
    let zero = scalar::zero::<Fixed>();
    scalar::lemma_exact_sums(zero, b.x, b.x);
    scalar::lemma_exact_sums(zero, b.y, b.y);
    scalar::lemma_exact_sums(zero, b.z, b.z);
    scalar::lemma_exact_sums(zero, r.x, r.x);
    scalar::lemma_exact_sums(zero, r.y, r.y);
    scalar::lemma_exact_sums(zero, r.z, r.z);
    assert(ctrl.pan(keys) == Vec3::<Fixed>::zeros());
    assert(zero.raw == 0);
    assert(zero.mul(zero) == zero) by {
        assert(0int * 0int == 0);
    }
    scalar::lemma_exact_sums(zero, zero, zero);
    assert(ctrl.pan(keys).inner(ctrl.pan(keys)) == zero);
}

/// A frame turns the camera and zooms before it moves it along the ground: the way it moves is
/// that of its new yaw, and the farther it has been zoomed off, the faster it moves.
pub proof fn frames_pan_last<S: Scalar>(
    ctrl: CameraController<S>,
    dt: S,
    keys: CameraKeys,
    scrolls: Seq<S>,
)
    ensures
        ({
            let next = ctrl.orbited(dt, keys, scrolls);
            let speed = S::ratio_of(60, 1).mul(dt).mul(next.distance.div(S::ratio_of(150, 1)));
            let way = next.pan(keys);
            &&& next.yaw == ctrl.turned(dt, keys).yaw
            &&& next.pitch == ctrl.turned(dt, keys).pitch
            &&& scalar::zero::<S>().lt(way.inner(way)) ==> next.center == ctrl.center.add(
                way.direction_or_zero().scale(speed),
            )
            &&& !scalar::zero::<S>().lt(way.inner(way)) ==> next.center == ctrl.center
        }),
{
    let turned = ctrl.turned(dt, keys);
    lemma_zooming_keeps_center(turned, scrolls);
    lemma_zooming_keeps_turn(turned, scrolls);
}

proof fn lemma_zooming_keeps_turn<S: Scalar>(ctrl: CameraController<S>, scrolls: Seq<S>)
    ensures
        ctrl.zoomed_by_all(scrolls).yaw == ctrl.yaw,
        ctrl.zoomed_by_all(scrolls).pitch == ctrl.pitch,
    decreases scrolls.len(),
{
    if scrolls.len() > 0 {
        lemma_zooming_keeps_turn(ctrl, scrolls.drop_last());
    }
}

// ---- which way keys lead ----

/// In fixed-point numbers the camera stands on the side of the point that it looks at to which
/// the backward direction leads, as long as its pitch is less than a quarter turn; and above
/// that point, while its pitch is upward.
pub proof fn cameras_stand_backward(ctrl: CameraController<Fixed>)
    requires
        ctrl.distance.raw >= 0,
        ctrl.pitch.cosine().raw >= 0,
        ctrl.pitch.sine().raw >= 0,
    ensures
        steps::one_side(ctrl.place().x.sub(ctrl.center.x), ctrl.backward().x),
        steps::one_side(ctrl.place().z.sub(ctrl.center.z), ctrl.backward().z),
        ctrl.place().y.sub(ctrl.center.y).raw >= 0,
{
    let level = ctrl.distance.mul(ctrl.pitch.cosine());
    steps::lemma_scaled_sign(ctrl.distance, ctrl.pitch.cosine());
    steps::lemma_scaled_sign(ctrl.distance, ctrl.pitch.sine());
    let sin = ctrl.yaw.sine();
    let cos = ctrl.yaw.cosine();
    steps::lemma_turnable(level, sin);
    steps::lemma_turnable(level, cos);
    lemma_apart(ctrl.center.x, level.mul(sin));
    lemma_apart(ctrl.center.y, ctrl.distance.mul(ctrl.pitch.sine()));
    lemma_apart(ctrl.center.z, level.mul(cos));
    let back = Vec3 { x: sin, y: scalar::zero(), z: cos };
    steps::lemma_root_sign(back.inner(back));
    steps::lemma_reciprocal_keeps_side(sin, back.norm());
    steps::lemma_reciprocal_keeps_side(cos, back.norm());
}

proof fn lemma_apart(a: Fixed, b: Fixed)
    ensures
        a.add(b).sub(a) == b,
{
}

/// In fixed-point numbers the rightward direction is the backward one turned by a quarter
/// turn: to the right of a viewer who looks forward.
pub proof fn rightward_is_right_of_forward(ctrl: CameraController<Fixed>)
    requires
        -0x1_0000_0000 <= ctrl.yaw.sine().raw <= 0x1_0000_0000,
        -0x1_0000_0000 <= ctrl.yaw.cosine().raw <= 0x1_0000_0000,
    ensures
        ctrl.rightward().x == ctrl.backward().z,
        ctrl.rightward().z.raw == -ctrl.backward().x.raw,
        ctrl.backward().y.raw == 0,
        ctrl.rightward().y.raw == 0,
{
    assert(scalar::zero::<Fixed>().raw == 0);
    let sin = ctrl.yaw.sine();
    let cos = ctrl.yaw.cosine();
    let back = Vec3 { x: sin, y: scalar::zero(), z: cos };
    let right = Vec3 { x: cos, y: scalar::zero(), z: sin.neg() };
    let s = sin.raw as int;
    let c = cos.raw as int;
    assert((-s) * (-s) == s * s) by (nonlinear_arith);
    assert(sin.neg().raw == -s);
    assert(sin.neg().mul(sin.neg()) == sin.mul(sin));
    steps::lemma_square_fits(sin);
    steps::lemma_square_fits(cos);
    assert(0int * 0int == 0);
    assert(back.inner(back) == right.inner(right));
    let recip = scalar::one::<Fixed>().div(back.norm());
    let r = recip.raw as int;
    assert((-s) * r == -(s * r)) by (nonlinear_arith);
    steps::lemma_root_sign(back.inner(back));
    steps::lemma_reciprocal_is_small(back.norm());
    steps::lemma_medium_product(sin, recip);
    steps::lemma_medium_product(sin.neg(), recip);
    assert(0 * r == 0);
}

/// In fixed-point numbers each key leads its way: one key backward and its opposite forward,
/// one rightward and its opposite leftward; and the point that the camera looks at moves that
/// way, if time goes on.
pub proof fn keys_lead_their_way(
    ctrl: CameraController<Fixed>,
    dt: Fixed,
    keys: CameraKeys,
)
    requires
        dt.raw >= 0,
        ctrl.distance.raw >= 0,
        keys.s && !keys.w && !keys.a && !keys.d || keys.w && !keys.s && !keys.a && !keys.d
            || keys.d && !keys.a && !keys.w && !keys.s || keys.a && !keys.d && !keys.w && !keys.s,
        -0x1000_0000_0000_0000 <= ctrl.backward().x.raw <= 0x1000_0000_0000_0000,
        -0x1000_0000_0000_0000 <= ctrl.backward().z.raw <= 0x1000_0000_0000_0000,
        -0x1000_0000_0000_0000 <= ctrl.rightward().x.raw <= 0x1000_0000_0000_0000,
        -0x1000_0000_0000_0000 <= ctrl.rightward().z.raw <= 0x1000_0000_0000_0000,
    ensures
        ({
            let next = ctrl.panned(dt, keys);
            let way_x = if keys.s {
                ctrl.backward().x.raw as int
            } else if keys.w {
                -ctrl.backward().x.raw
            } else if keys.d {
                ctrl.rightward().x.raw as int
            } else {
                -ctrl.rightward().x.raw
            };
            let way_z = if keys.s {
                ctrl.backward().z.raw as int
            } else if keys.w {
                -ctrl.backward().z.raw
            } else if keys.d {
                ctrl.rightward().z.raw as int
            } else {
                -ctrl.rightward().z.raw
            };
            &&& ctrl.pan(keys).x.raw == way_x
            &&& ctrl.pan(keys).z.raw == way_z
            &&& way_x >= 0 ==> next.center.x.sub(ctrl.center.x).raw >= 0
            &&& way_x <= 0 ==> next.center.x.sub(ctrl.center.x).raw <= 0
            &&& way_z >= 0 ==> next.center.z.sub(ctrl.center.z).raw >= 0
            &&& way_z <= 0 ==> next.center.z.sub(ctrl.center.z).raw <= 0
            &&& next.yaw == ctrl.yaw && next.pitch == ctrl.pitch && next.distance == ctrl.distance
        }),
{
    assert(scalar::zero::<Fixed>().raw == 0);
    let pan = ctrl.pan(keys);
    assert(Fixed::ratio_of(60, 1).raw == 60 * 65536);
    assert(Fixed::ratio_of(150, 1).raw == 150 * 65536);
    let share = ctrl.distance.div(Fixed::ratio_of(150, 1));
    steps::lemma_quotient_sign(ctrl.distance, Fixed::ratio_of(150, 1));
    let pace = Fixed::ratio_of(60, 1).mul(dt);
    steps::lemma_scaled_sign(Fixed::ratio_of(60, 1), dt);
    let speed = pace.mul(share);
    steps::lemma_scaled_sign(pace, share);
    steps::lemma_root_sign(pan.inner(pan));
    steps::lemma_reciprocal_keeps_side(pan.x, pan.norm());
    steps::lemma_reciprocal_keeps_side(pan.z, pan.norm());
    let way = pan.direction_or_zero();
    steps::lemma_scaled_sign(way.x, speed);
    steps::lemma_scaled_sign(way.z, speed);
    lemma_apart(ctrl.center.x, way.scale(speed).x);
    lemma_apart(ctrl.center.z, way.scale(speed).z);
    assert(ctrl.center.x.sub(ctrl.center.x).raw == 0);
    assert(ctrl.center.z.sub(ctrl.center.z).raw == 0);
}

} // verus!
