//! The orbit camera: a target-relative spherical viewpoint, its derived
//! transform, and the integration of user input into the camera state.
//!
//! The camera state is a look-at target, a yaw/pitch rotation in degrees,
//! and a distance. Every frame the transform is derived afresh from the
//! state (so roll is always zero), and the input-integration step folds the
//! frame's held keys, buffered mouse-motion events and buffered scroll
//! events into the state, each buffered event applied independently and in
//! arrival order. No clamping is imposed on yaw, pitch or distance here;
//! that is the caller's policy.
//!
//! The one computation the core does not perform itself is trigonometry:
//! the collaborator hands in the cosine and sine of the angles it derived
//! from the state (see [`TrigPair`]), and everything done with them is
//! exact fixed-point arithmetic, stated in full in the contracts.

use vstd::prelude::*;
use crate::fixed::{SCALE, iabs, mul_fx, fx_mul, lemma_mul_fx_bound};
use crate::vector::{Vec2Fx, Vec3Fx};

verus! {

/// Magnitude bound on camera state components accepted per frame.
pub const STATE_LIMIT: i128 = 0x2000_0000_0000;

/// Magnitude bound on per-frame inputs: speeds, time step, event deltas.
pub const INPUT_LIMIT: i128 = 0x800_0000;

/// Largest contribution one buffered event can make to the state.
pub const EVENT_STEP: i128 = 0x2_0000_0000_0000;

/// Movement tuning configuration carried by a user-controlled camera.
#[derive(Clone, Copy, PartialEq, Eq, Structural, Debug)]
pub struct UserInput {
    pub move_speed: i128,
    pub rotation_speed: i128,
    pub zoom_speed: i128,
}

impl UserInput {
    /// All three speeds are within the per-frame input bound.
    pub open spec fn bounded(self) -> bool {
        iabs(self.move_speed as int) <= INPUT_LIMIT as int && iabs(self.rotation_speed as int)
            <= INPUT_LIMIT as int && iabs(self.zoom_speed as int) <= INPUT_LIMIT as int
    }
}

impl Default for UserInput {
    /// Three units per second of movement, forty degrees per pixel-second
    /// of rotation, fifty units per line-second of zoom.
    fn default() -> (r: UserInput)
        ensures
            r.move_speed == 3 * SCALE,
            r.rotation_speed == 40 * SCALE,
            r.zoom_speed == 50 * SCALE,
            r.bounded(),
    {
        UserInput { move_speed: 196608, rotation_speed: 2621440, zoom_speed: 3276800 }
    }
}

/// The orbit camera state: look-at target, rotation (x is yaw, y is pitch,
/// both in degrees), and distance from the target.
#[derive(Clone, Copy, PartialEq, Eq, Structural, Debug)]
pub struct OrbitComponent {
    pub target: Vec3Fx,
    pub rotation: Vec2Fx,
    pub distance: i128,
}

impl OrbitComponent {
    /// Every state component is within the per-frame state bound.
    pub open spec fn bounded(self) -> bool {
        self.target.bounded(STATE_LIMIT as int) && self.rotation.bounded(STATE_LIMIT as int)
            && iabs(self.distance as int) <= STATE_LIMIT as int
    }
}

impl Default for OrbitComponent {
    /// Looking at the origin from ten units away, pitched down forty-five
    /// degrees.
    fn default() -> (r: OrbitComponent)
        ensures
            r.target == Vec3Fx::spec_zero(),
            r.rotation.x == 0,
            r.rotation.y == 45 * SCALE,
            r.distance == 10 * SCALE,
            r.bounded(),
    {
        OrbitComponent {
            target: Vec3Fx { x: 0, y: 0, z: 0 },
            rotation: Vec2Fx { x: 0, y: 2949120 },
            distance: 655360,
        }
    }
}

/// The cosine and sine of one angle, in fixed-point form, as supplied by
/// the collaborator that owns the trigonometry.
#[derive(Clone, Copy, PartialEq, Eq, Structural, Debug)]
pub struct TrigPair {
    pub cos: i128,
    pub sin: i128,
}

impl TrigPair {
    /// Cosine and sine of a real angle never exceed one unit.
    pub open spec fn unit(self) -> bool {
        iabs(self.cos as int) <= SCALE as int && iabs(self.sin as int) <= SCALE as int
    }
}

/// The derived camera transform: where the camera sits and the point it
/// looks at, with the up direction fixed at +Y (so roll is always zero).
#[derive(Clone, Copy, PartialEq, Eq, Structural, Debug)]
pub struct CameraTransform {
    pub translation: Vec3Fx,
    pub looking_at: Vec3Fx,
}

/// One per-frame input snapshot: the held movement keys, the sprint
/// modifier, whether the orbit mouse button is held, the buffered mouse
/// motion and scroll deltas since the previous frame in arrival order, and
/// the frame's elapsed time.
pub struct CameraFrameInput {
    pub forward: bool,
    pub back: bool,
    pub left: bool,
    pub right: bool,
    pub sprint: bool,
    pub orbiting: bool,
    pub motions: Vec<Vec2Fx>,
    pub scrolls: Vec<i128>,
    pub dt: i128,
}

impl CameraFrameInput {
    /// The time step and every buffered delta are within the input bound.
    pub open spec fn bounded(self) -> bool {
        &&& 0 <= self.dt <= INPUT_LIMIT
        &&& forall|i: int|
            0 <= i < self.motions@.len() ==> (#[trigger] self.motions@[i]).bounded(
                INPUT_LIMIT as int,
            )
        &&& forall|i: int|
            0 <= i < self.scrolls@.len() ==> iabs(#[trigger] self.scrolls@[i] as int)
                <= INPUT_LIMIT as int
    }
}

/// The camera's offset from its target: spherical coordinates from the
/// pitch and yaw trig values and the distance.
pub open spec fn spec_camera_offset(distance: int, pitch: TrigPair, yaw: TrigPair) -> (
    int,
    int,
    int,
) {
    let horizontal = mul_fx(distance, pitch.cos as int);
    let y = mul_fx(distance, pitch.sin as int);
    let x = mul_fx(horizontal, yaw.cos as int);
    let z = mul_fx(horizontal, yaw.sin as int);
    (x, y, z)
}

/// Derive the camera transform from the orbit state: the camera sits at
/// `target + offset` and looks at the target with up +Y. `pitch` must hold
/// the cosine and sine of `rotation.y` and `yaw` those of `rotation.x`
/// (both converted to radians by the caller); this function is a pure
/// function of its arguments and keeps no memory of previous frames.
pub fn update_orbit(orbit: &OrbitComponent, pitch: TrigPair, yaw: TrigPair) -> (r: CameraTransform)
    requires
        orbit.bounded(),
        pitch.unit(),
        yaw.unit(),
    ensures
        r.translation.x as int == orbit.target.x as int + spec_camera_offset(
            orbit.distance as int,
            pitch,
            yaw,
        ).0,
        r.translation.y as int == orbit.target.y as int + spec_camera_offset(
            orbit.distance as int,
            pitch,
            yaw,
        ).1,
        r.translation.z as int == orbit.target.z as int + spec_camera_offset(
            orbit.distance as int,
            pitch,
            yaw,
        ).2,
        r.looking_at == orbit.target,
{
    proof {
        lemma_mul_fx_bound(
            orbit.distance as int,
            pitch.cos as int,
            STATE_LIMIT as int,
            SCALE as int,
        );
        lemma_mul_fx_bound(
            orbit.distance as int,
            pitch.sin as int,
            STATE_LIMIT as int,
            SCALE as int,
        );
        lemma_mul_fx_bound(
            mul_fx(orbit.distance as int, pitch.cos as int),
            yaw.cos as int,
            STATE_LIMIT as int,
            SCALE as int,
        );
        lemma_mul_fx_bound(
            mul_fx(orbit.distance as int, pitch.cos as int),
            yaw.sin as int,
            STATE_LIMIT as int,
            SCALE as int,
        );
    }
    let horizontal: i128 = fx_mul(orbit.distance, pitch.cos);
    let y: i128 = fx_mul(orbit.distance, pitch.sin);
    let x: i128 = fx_mul(horizontal, yaw.cos);
    let z: i128 = fx_mul(horizontal, yaw.sin);
    CameraTransform {
        translation: Vec3Fx {
            x: orbit.target.x + x,
            y: orbit.target.y + y,
            z: orbit.target.z + z,
        },
        looking_at: orbit.target,
    }
}

/// Planar velocity in camera-local axes from the held keys: forward/back a
/// signed unit on one axis, left/right on the other, each scaled by
/// `move_speed * dt`, doubled while sprinting; opposite keys cancel.
pub open spec fn spec_local_velocity(
    move_speed: int,
    dt: int,
    forward: bool,
    back: bool,
    left: bool,
    right: bool,
    sprint: bool,
) -> (int, int) {
    let unit = mul_fx(move_speed, dt);
    let x1 = if forward {
        0 - unit
    } else {
        0
    };
    let x2 = if back {
        x1 + unit
    } else {
        x1
    };
    let z1 = if left {
        0 + unit
    } else {
        0
    };
    let z2 = if right {
        z1 - unit
    } else {
        z1
    };
    if sprint {
        (2 * x2, 2 * z2)
    } else {
        (x2, z2)
    }
}

/// Holding opposite movement keys at once produces no movement.
pub proof fn lemma_opposite_keys_cancel(move_speed: int, dt: int, sprint: bool)
    ensures
        spec_local_velocity(move_speed, dt, true, true, true, true, sprint) == (0int, 0int),
{
}

/// A planar vector rotated about the vertical axis: `trig` holds the
/// cosine and sine of the rotation angle.
pub open spec fn spec_rotate_y(v: (int, int), trig: TrigPair) -> (int, int) {
    (
        mul_fx(v.0, trig.cos as int) + mul_fx(v.1, trig.sin as int),
        mul_fx(v.1, trig.cos as int) - mul_fx(v.0, trig.sin as int),
    )
}

/// Yaw and pitch after the buffered motion events, each event scaled by
/// `rotation_speed * delta * dt` and applied independently, in arrival
/// order.
pub open spec fn spec_apply_motions(
    yaw: int,
    pitch: int,
    rotation_speed: int,
    dt: int,
    evs: Seq<Vec2Fx>,
) -> (int, int)
    decreases evs.len(),
{
    if evs.len() == 0 {
        (yaw, pitch)
    } else {
        spec_apply_motions(
            yaw + mul_fx(mul_fx(rotation_speed, evs[0].x as int), dt),
            pitch + mul_fx(mul_fx(rotation_speed, evs[0].y as int), dt),
            rotation_speed,
            dt,
            evs.drop_first(),
        )
    }
}

/// Distance after the buffered scroll events, each event subtracting
/// `zoom_speed * delta * dt`, applied in arrival order.
pub open spec fn spec_apply_scrolls(distance: int, zoom_speed: int, dt: int, evs: Seq<i128>) -> int
    decreases evs.len(),
{
    if evs.len() == 0 {
        distance
    } else {
        spec_apply_scrolls(
            distance - mul_fx(mul_fx(zoom_speed, evs[0] as int), dt),
            zoom_speed,
            dt,
            evs.drop_first(),
        )
    }
}

/// The whole input-integration step for one frame: the key-derived
/// velocity, rotated by the camera's current yaw, moves the target (the
/// height is untouched — movement is planar); the buffered motion events
/// turn the rotation while the orbit button is held; the buffered scroll
/// events change the distance. `yaw_trig` holds the cosine and sine of the
/// negated current yaw (in radians), as the collaborator computed them.
pub open spec fn spec_target_movement(
    orbit: OrbitComponent,
    tuning: UserInput,
    forward: bool,
    back: bool,
    left: bool,
    right: bool,
    sprint: bool,
    orbiting: bool,
    motions: Seq<Vec2Fx>,
    scrolls: Seq<i128>,
    dt: int,
    yaw_trig: TrigPair,
) -> OrbitComponent {
    let v = spec_local_velocity(tuning.move_speed as int, dt, forward, back, left, right, sprint);
    let w = spec_rotate_y(v, yaw_trig);
    let target = Vec3Fx {
        x: (orbit.target.x as int + w.0) as i128,
        y: orbit.target.y,
        z: (orbit.target.z as int + w.1) as i128,
    };
    let rot = if orbiting {
        spec_apply_motions(
            orbit.rotation.x as int,
            orbit.rotation.y as int,
            tuning.rotation_speed as int,
            dt,
            motions,
        )
    } else {
        (orbit.rotation.x as int, orbit.rotation.y as int)
    };
    let dist = spec_apply_scrolls(orbit.distance as int, tuning.zoom_speed as int, dt, scrolls);
    OrbitComponent {
        target,
        rotation: Vec2Fx { x: rot.0 as i128, y: rot.1 as i128 },
        distance: dist as i128,
    }
}

/// Contribution of one buffered event stays within `EVENT_STEP`.
proof fn lemma_event_step_bound(speed: int, delta: int, dt: int)
    requires
        iabs(speed) <= INPUT_LIMIT as int,
        iabs(delta) <= INPUT_LIMIT as int,
        iabs(dt) <= INPUT_LIMIT as int,
    ensures
        iabs(mul_fx(speed, delta)) <= 0x40_0000_0000,
        iabs(mul_fx(mul_fx(speed, delta), dt)) <= EVENT_STEP as int,
{
    lemma_mul_fx_bound(speed, delta, INPUT_LIMIT as int, INPUT_LIMIT as int);
    lemma_mul_fx_bound(mul_fx(speed, delta), dt, 0x40_0000_0000, INPUT_LIMIT as int);
}

/// Integrate one frame of user input into the orbit state, exactly as
/// `spec_target_movement` describes.
#[verifier::rlimit(100)]
pub fn target_movement(
    orbit: &mut OrbitComponent,
    tuning: &UserInput,
    input: &CameraFrameInput,
    yaw_trig: TrigPair,
)
    requires
        old(orbit).bounded(),
        tuning.bounded(),
        input.bounded(),
        yaw_trig.unit(),
    ensures
        *final(orbit) == spec_target_movement(
            *old(orbit),
            *tuning,
            input.forward,
            input.back,
            input.left,
            input.right,
            input.sprint,
            input.orbiting,
            input.motions@,
            input.scrolls@,
            input.dt as int,
            yaw_trig,
        ),
{
    proof {
        lemma_mul_fx_bound(
            tuning.move_speed as int,
            input.dt as int,
            INPUT_LIMIT as int,
            INPUT_LIMIT as int,
        );
    }
    let unit: i128 = fx_mul(tuning.move_speed, input.dt);
    let mut vx: i128 = 0;
    let mut vz: i128 = 0;
    if input.forward {
        vx = vx - unit;
    }
    if input.back {
        vx = vx + unit;
    }
    if input.left {
        vz = vz + unit;
    }
    if input.right {
        vz = vz - unit;
    }
    if input.sprint {
        vx = 2 * vx;
        vz = 2 * vz;
    }
    proof {
        lemma_mul_fx_bound(vx as int, yaw_trig.cos as int, 0x10_0000_0000_0000, SCALE as int);
        lemma_mul_fx_bound(vx as int, yaw_trig.sin as int, 0x10_0000_0000_0000, SCALE as int);
        lemma_mul_fx_bound(vz as int, yaw_trig.cos as int, 0x10_0000_0000_0000, SCALE as int);
        lemma_mul_fx_bound(vz as int, yaw_trig.sin as int, 0x10_0000_0000_0000, SCALE as int);
    }
    let wx: i128 = fx_mul(vx, yaw_trig.cos) + fx_mul(vz, yaw_trig.sin);
    let wz: i128 = fx_mul(vz, yaw_trig.cos) - fx_mul(vx, yaw_trig.sin);
    orbit.target = Vec3Fx { x: orbit.target.x + wx, y: orbit.target.y, z: orbit.target.z + wz };
    let ghost tgt = orbit.target;
    let ghost dist_in = orbit.distance;
    let ghost rot0_x = orbit.rotation.x as int;
    let ghost rot0_y = orbit.rotation.y as int;
    let ghost evs = input.motions@;
    if input.orbiting {
        let mut i: usize = 0;
        let mcount: usize = input.motions.len();
        proof {
            assert(evs.skip(0) =~= evs);
        }
        while i < mcount
            invariant
                0 <= i <= mcount,
                mcount == evs.len(),
                input.motions@ == evs,
                tuning.bounded(),
                input.bounded(),
                iabs(orbit.rotation.x as int) <= STATE_LIMIT as int + i as int * (
                EVENT_STEP as int),
                iabs(orbit.rotation.y as int) <= STATE_LIMIT as int + i as int * (
                EVENT_STEP as int),
                spec_apply_motions(
                    orbit.rotation.x as int,
                    orbit.rotation.y as int,
                    tuning.rotation_speed as int,
                    input.dt as int,
                    evs.skip(i as int),
                ) == spec_apply_motions(
                    rot0_x,
                    rot0_y,
                    tuning.rotation_speed as int,
                    input.dt as int,
                    evs,
                ),
                orbit.target == tgt,
                orbit.distance == dist_in,
            decreases mcount - i,
        {
            let e: Vec2Fx = input.motions[i];
            proof {
                lemma_event_step_bound(tuning.rotation_speed as int, e.x as int, input.dt as int);
                lemma_event_step_bound(tuning.rotation_speed as int, e.y as int, input.dt as int);
                assert((i as int + 1) * (EVENT_STEP as int) == i as int * (EVENT_STEP as int) + (
                EVENT_STEP as int)) by (nonlinear_arith);
                assert(0x1_0000_0000_0000_0000 * (EVENT_STEP as int) < i128::MAX) by (
                nonlinear_arith);
                assert(i as int * (EVENT_STEP as int) <= 0x1_0000_0000_0000_0000 * (
                EVENT_STEP as int)) by (nonlinear_arith)
                    requires
                        0 <= i as int <= 0x1_0000_0000_0000_0000,
                ;
                assert(evs.skip(i as int).drop_first() =~= evs.skip(i as int + 1));
                assert(evs.skip(i as int)[0] == evs[i as int]);
            }
            let dy: i128 = fx_mul(fx_mul(tuning.rotation_speed, e.x), input.dt);
            let dp: i128 = fx_mul(fx_mul(tuning.rotation_speed, e.y), input.dt);
            orbit.rotation = Vec2Fx { x: orbit.rotation.x + dy, y: orbit.rotation.y + dp };
            i = i + 1;
        }
        proof {
            assert(evs.skip(mcount as int) =~= Seq::<Vec2Fx>::empty());
        }
    }
    let ghost dist0 = orbit.distance as int;
    let ghost rot_after = orbit.rotation;
    let ghost sevs = input.scrolls@;
    let mut j: usize = 0;
    let scount: usize = input.scrolls.len();
    proof {
        assert(sevs.skip(0) =~= sevs);
    }
    while j < scount
        invariant
            0 <= j <= scount,
            scount == sevs.len(),
            input.scrolls@ == sevs,
            tuning.bounded(),
            input.bounded(),
            orbit.target == tgt,
            orbit.rotation == rot_after,
            iabs(orbit.distance as int) <= STATE_LIMIT as int + j as int * (EVENT_STEP as int),
            spec_apply_scrolls(
                orbit.distance as int,
                tuning.zoom_speed as int,
                input.dt as int,
                sevs.skip(j as int),
            ) == spec_apply_scrolls(dist0, tuning.zoom_speed as int, input.dt as int, sevs),
        decreases scount - j,
    {
        let s: i128 = input.scrolls[j];
        proof {
            lemma_event_step_bound(tuning.zoom_speed as int, s as int, input.dt as int);
            assert((j as int + 1) * (EVENT_STEP as int) == j as int * (EVENT_STEP as int) + (
            EVENT_STEP as int)) by (nonlinear_arith);
            assert(0x1_0000_0000_0000_0000 * (EVENT_STEP as int) < i128::MAX) by (nonlinear_arith);
            assert(j as int * (EVENT_STEP as int) <= 0x1_0000_0000_0000_0000 * (EVENT_STEP as int))
                by (nonlinear_arith)
                requires
                    0 <= j as int <= 0x1_0000_0000_0000_0000,
            ;
            assert(sevs.skip(j as int).drop_first() =~= sevs.skip(j as int + 1));
            assert(sevs.skip(j as int)[0] == sevs[j as int]);
        }
        let dd: i128 = fx_mul(fx_mul(tuning.zoom_speed, s), input.dt);
        orbit.distance = orbit.distance - dd;
        j = j + 1;
    }
    proof {
        assert(sevs.skip(scount as int) =~= Seq::<i128>::empty());
    }
}

/// Input integration ordering: two buffered motion events yield exactly the
/// sum of each event's individually scaled contribution, first event first.
pub proof fn lemma_motion_events_apply_in_order(
    yaw: int,
    pitch: int,
    rotation_speed: int,
    dt: int,
    e1: Vec2Fx,
    e2: Vec2Fx,
)
    ensures
        ({
            let r = spec_apply_motions(yaw, pitch, rotation_speed, dt, seq![e1, e2]);
            r.0 == yaw + mul_fx(mul_fx(rotation_speed, e1.x as int), dt) + mul_fx(
                mul_fx(rotation_speed, e2.x as int),
                dt,
            ) && r.1 == pitch + mul_fx(mul_fx(rotation_speed, e1.y as int), dt) + mul_fx(
                mul_fx(rotation_speed, e2.y as int),
                dt,
            )
        }),
{
    reveal_with_fuel(spec_apply_motions, 3);
    let s = seq![e1, e2];
    assert(s.drop_first() =~= seq![e2]);
    assert(seq![e2].drop_first() =~= Seq::<Vec2Fx>::empty());
}

} // verus!
