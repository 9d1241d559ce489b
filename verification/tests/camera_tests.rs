use terrain_core::orbit_camera::{
    target_movement, update_orbit, CameraFrameInput, OrbitComponent, TrigPair, UserInput,
};
use terrain_core::vector::{Vec2Fx, Vec3Fx};

const SCALE: i128 = 65536;

fn trig_of_degrees(deg: f64) -> TrigPair {
    let r = deg.to_radians();
    TrigPair { cos: (r.cos() * SCALE as f64) as i128, sin: (r.sin() * SCALE as f64) as i128 }
}

fn to_f64(v: i128) -> f64 {
    v as f64 / SCALE as f64
}

/// Mirror of the library's fixed-point product, for expected values.
fn product_fx(a: i128, b: i128) -> i128 {
    let p = a * b;
    let q = p.abs() / SCALE;
    if p < 0 {
        -q
    } else {
        q
    }
}

fn idle_input(dt: i128) -> CameraFrameInput {
    CameraFrameInput {
        forward: false,
        back: false,
        left: false,
        right: false,
        sprint: false,
        orbiting: false,
        motions: Vec::new(),
        scrolls: Vec::new(),
        dt,
    }
}

#[test]
fn default_tuning_and_state() {
    let tuning = UserInput::default();
    assert_eq!(tuning.move_speed, 3 * SCALE);
    assert_eq!(tuning.rotation_speed, 40 * SCALE);
    assert_eq!(tuning.zoom_speed, 50 * SCALE);
    let orbit = OrbitComponent::default();
    assert_eq!(orbit.target, Vec3Fx { x: 0, y: 0, z: 0 });
    assert_eq!(orbit.rotation, Vec2Fx { x: 0, y: 45 * SCALE });
    assert_eq!(orbit.distance, 10 * SCALE);
}

#[test]
fn transform_consistency_at_default_state() {
    // rotation = (0, 45), distance = 10, target at the origin: the camera
    // must sit at (10 cos 45, 10 sin 45, 0) and look at the origin.
    let orbit = OrbitComponent::default();
    let pitch = trig_of_degrees(45.0);
    let yaw = trig_of_degrees(0.0);
    let t = update_orbit(&orbit, pitch, yaw);
    let expected = 10.0 * 45f64.to_radians().cos();
    assert!((to_f64(t.translation.x) - expected).abs() < 0.01);
    assert!((to_f64(t.translation.y) - 10.0 * 45f64.to_radians().sin()).abs() < 0.01);
    assert!(to_f64(t.translation.z).abs() < 0.01);
    assert_eq!(t.looking_at, orbit.target);
}

#[test]
fn transform_is_target_relative() {
    let orbit = OrbitComponent {
        target: Vec3Fx { x: 7 * SCALE, y: SCALE, z: -2 * SCALE },
        ..OrbitComponent::default()
    };
    let pitch = trig_of_degrees(45.0);
    let yaw = trig_of_degrees(0.0);
    let at_origin = update_orbit(&OrbitComponent::default(), pitch, yaw);
    let moved = update_orbit(&orbit, pitch, yaw);
    assert_eq!(moved.translation.x - at_origin.translation.x, 7 * SCALE);
    assert_eq!(moved.translation.y - at_origin.translation.y, SCALE);
    assert_eq!(moved.translation.z - at_origin.translation.z, -2 * SCALE);
    assert_eq!(moved.looking_at, orbit.target);
}

#[test]
fn motion_events_apply_per_event_in_order() {
    let tuning = UserInput::default();
    let dt = SCALE / 64;
    let e1 = Vec2Fx { x: 3 * SCALE, y: -SCALE };
    let e2 = Vec2Fx { x: -5 * SCALE, y: 2 * SCALE };
    let mut orbit = OrbitComponent::default();
    let input = CameraFrameInput {
        orbiting: true,
        motions: vec![e1, e2],
        ..idle_input(dt)
    };
    let yaw0 = orbit.rotation.x;
    let pitch0 = orbit.rotation.y;
    target_movement(&mut orbit, &tuning, &input, trig_of_degrees(0.0));
    let c1 = product_fx(product_fx(tuning.rotation_speed, e1.x), dt);
    let c2 = product_fx(product_fx(tuning.rotation_speed, e2.x), dt);
    assert_eq!(orbit.rotation.x, yaw0 + c1 + c2);
    let d1 = product_fx(product_fx(tuning.rotation_speed, e1.y), dt);
    let d2 = product_fx(product_fx(tuning.rotation_speed, e2.y), dt);
    assert_eq!(orbit.rotation.y, pitch0 + d1 + d2);
}

#[test]
fn motion_ignored_unless_orbiting() {
    let tuning = UserInput::default();
    let mut orbit = OrbitComponent::default();
    let input = CameraFrameInput {
        orbiting: false,
        motions: vec![Vec2Fx { x: 10 * SCALE, y: 10 * SCALE }],
        ..idle_input(SCALE / 32)
    };
    let rot0 = orbit.rotation;
    target_movement(&mut orbit, &tuning, &input, trig_of_degrees(0.0));
    assert_eq!(orbit.rotation, rot0);
}

#[test]
fn scroll_zooms_per_event_in_order() {
    let tuning = UserInput::default();
    let dt = SCALE / 128;
    let mut orbit = OrbitComponent::default();
    let input = CameraFrameInput { scrolls: vec![SCALE, -2 * SCALE], ..idle_input(dt) };
    let d0 = orbit.distance;
    target_movement(&mut orbit, &tuning, &input, trig_of_degrees(0.0));
    let s1 = product_fx(product_fx(tuning.zoom_speed, SCALE), dt);
    let s2 = product_fx(product_fx(tuning.zoom_speed, -2 * SCALE), dt);
    assert_eq!(orbit.distance, d0 - s1 - s2);
}

#[test]
fn forward_movement_follows_camera_yaw() {
    let tuning = UserInput::default();
    let dt = SCALE / 64;
    let mut orbit = OrbitComponent::default();
    let input = CameraFrameInput { forward: true, ..idle_input(dt) };
    // with yaw zero the local axes are the world axes
    target_movement(&mut orbit, &tuning, &input, trig_of_degrees(-0.0));
    let unit = product_fx(tuning.move_speed, dt);
    assert_eq!(orbit.target.x, -unit);
    assert_eq!(orbit.target.y, 0);
    assert_eq!(orbit.target.z, 0);
}

#[test]
fn movement_rotates_with_yaw() {
    let tuning = UserInput::default();
    let dt = SCALE / 64;
    let mut orbit = OrbitComponent::default();
    orbit.rotation.x = 90 * SCALE;
    let input = CameraFrameInput { forward: true, ..idle_input(dt) };
    // the collaborator supplies the trig of the negated yaw angle
    target_movement(&mut orbit, &tuning, &input, trig_of_degrees(-90.0));
    let unit = to_f64(product_fx(tuning.move_speed, dt));
    // local -X rotated by -90 degrees about +Y lands on -Z
    assert!(to_f64(orbit.target.x).abs() < 0.001);
    assert!((to_f64(orbit.target.z) + unit).abs() < 0.001);
}

#[test]
fn sprint_doubles_movement() {
    let tuning = UserInput::default();
    let dt = SCALE / 64;
    let mut walking = OrbitComponent::default();
    let mut sprinting = OrbitComponent::default();
    target_movement(
        &mut walking,
        &tuning,
        &CameraFrameInput { forward: true, ..idle_input(dt) },
        trig_of_degrees(0.0),
    );
    target_movement(
        &mut sprinting,
        &tuning,
        &CameraFrameInput { forward: true, sprint: true, ..idle_input(dt) },
        trig_of_degrees(0.0),
    );
    assert_eq!(sprinting.target.x, 2 * walking.target.x);
}

#[test]
fn opposite_keys_cancel() {
    let tuning = UserInput::default();
    let mut orbit = OrbitComponent::default();
    let input = CameraFrameInput {
        forward: true,
        back: true,
        left: true,
        right: true,
        sprint: true,
        ..idle_input(SCALE / 32)
    };
    target_movement(&mut orbit, &tuning, &input, trig_of_degrees(33.0));
    assert_eq!(orbit.target, Vec3Fx { x: 0, y: 0, z: 0 });
}

#[test]
fn movement_is_planar() {
    let tuning = UserInput::default();
    let mut orbit = OrbitComponent::default();
    orbit.target.y = 3 * SCALE;
    let input = CameraFrameInput { forward: true, left: true, ..idle_input(SCALE / 16) };
    target_movement(&mut orbit, &tuning, &input, trig_of_degrees(21.0));
    assert_eq!(orbit.target.y, 3 * SCALE);
}

#[test]
fn no_clamping_of_distance_or_pitch() {
    let tuning = UserInput::default();
    let dt = SCALE;
    let mut orbit = OrbitComponent::default();
    let input = CameraFrameInput {
        orbiting: true,
        motions: vec![Vec2Fx { x: 0, y: 100 * SCALE }],
        scrolls: vec![100 * SCALE],
        ..idle_input(dt)
    };
    target_movement(&mut orbit, &tuning, &input, trig_of_degrees(0.0));
    // distance may go negative and pitch may exceed ninety degrees
    assert!(orbit.distance < 0);
    assert!(orbit.rotation.y > 90 * SCALE);
}
