use face_auth::config::GeometryConfig;
use face_auth::geometry::{classify, AuthState, BBox, FaceMetrics, Landmarks, Point, StateMachine};
use face_auth::protocol::FeedbackState;
use face_auth::scalar::Scalar;

const MS: u128 = 1_000_000;

fn num(v: f32) -> Scalar {
    Scalar::from_bits(v.to_bits())
}

fn val(s: Scalar) -> f32 {
    f32::from_bits(s.bits)
}

fn point(x: f32, y: f32) -> Point {
    Point { x: num(x), y: num(y) }
}

/// The measurements of a face, from its points and its rectangle.
fn analyze_geometry(lm: &Landmarks, bbox: &BBox, frame_width: u32, _frame_height: u32) -> FaceMetrics {
    let face_width_ratio = (val(bbox.x2) - val(bbox.x1)) / frame_width as f32;
    let left_offset = val(lm.nose.x) - val(lm.left_eye.x);
    let right_offset = val(lm.right_eye.x) - val(lm.nose.x);
    let yaw_deg = if left_offset + right_offset > 0.0 {
        ((left_offset - right_offset) / (left_offset + right_offset)) * 45.0
    } else {
        0.0
    };
    let eye_mid_y = (val(lm.left_eye.y) + val(lm.right_eye.y)) / 2.0;
    let mouth_mid_y = (val(lm.left_mouth.y) + val(lm.right_mouth.y)) / 2.0;
    let face_height = mouth_mid_y - eye_mid_y;
    let pitch_deg = if face_height > 0.0 {
        ((val(lm.nose.y) - eye_mid_y) / face_height - 0.40) * 100.0
    } else {
        0.0
    };
    let dx = val(lm.right_eye.x) - val(lm.left_eye.x);
    let dy = val(lm.right_eye.y) - val(lm.left_eye.y);
    FaceMetrics {
        face_width_ratio: num(face_width_ratio),
        yaw_deg: num(yaw_deg),
        pitch_deg: num(pitch_deg),
        roll_deg: num(dy.atan2(dx).to_degrees()),
        ir_saturated: false,
        eyes_visible: lm.eyes_visible(),
        blur_score: num(100.0),
    }
}

fn default_cfg() -> GeometryConfig {
    GeometryConfig::default()
}

fn landmarks_frontal() -> (Landmarks, BBox) {
    (
        Landmarks {
            left_eye: point(100.0, 150.0),
            right_eye: point(180.0, 150.0),
            nose: point(140.0, 180.0),
            left_mouth: point(110.0, 220.0),
            right_mouth: point(170.0, 220.0),
            left_eye_conf: num(0.95),
            right_eye_conf: num(0.95),
        },
        BBox { x1: num(80.0), y1: num(120.0), x2: num(200.0), y2: num(250.0) },
    )
}

#[test]
fn frontal_face_authenticates() {
    let cfg = default_cfg();
    let (lm, bbox) = landmarks_frontal();
    let m = analyze_geometry(&lm, &bbox, 640, 480);
    assert!(
        val(m.face_width_ratio) > val(cfg.distance_min) && val(m.face_width_ratio) < val(cfg.distance_max)
    );
    assert!(val(m.yaw_deg).abs() < val(cfg.yaw_max_deg));
    assert!(val(m.pitch_deg).abs() < val(cfg.pitch_max_deg));
    assert!(val(m.roll_deg).abs() < val(cfg.roll_max_deg));
    assert!(m.eyes_visible);
    assert_eq!(classify(&m, &cfg), FeedbackState::Authenticating);
}

#[test]
fn face_too_far() {
    let (lm, mut bbox) = landmarks_frontal();
    bbox.x2 = num(val(bbox.x1) + 30.0);
    let m = analyze_geometry(&lm, &bbox, 640, 480);
    assert_eq!(classify(&m, &default_cfg()), FeedbackState::TooFar);
}

#[test]
fn face_too_close() {
    let (lm, mut bbox) = landmarks_frontal();
    bbox.x2 = num(val(bbox.x1) + 400.0);
    let m = analyze_geometry(&lm, &bbox, 640, 480);
    assert_eq!(classify(&m, &default_cfg()), FeedbackState::TooClose);
}

#[test]
fn face_at_distance_boundary_min() {
    let (lm, mut bbox) = landmarks_frontal();
    bbox.x2 = num(val(bbox.x1) + 640.0 * 0.06 - 1.0);
    let m = analyze_geometry(&lm, &bbox, 640, 480);
    assert_eq!(classify(&m, &default_cfg()), FeedbackState::TooFar);
}

#[test]
fn face_at_distance_boundary_max() {
    let (lm, mut bbox) = landmarks_frontal();
    bbox.x2 = num(val(bbox.x1) + 640.0 * 0.55 + 1.0);
    let m = analyze_geometry(&lm, &bbox, 640, 480);
    assert_eq!(classify(&m, &default_cfg()), FeedbackState::TooClose);
}

#[test]
fn yaw_right() {
    let (mut lm, bbox) = landmarks_frontal();
    lm.nose.x = num(190.0);
    let m = analyze_geometry(&lm, &bbox, 640, 480);
    assert_eq!(classify(&m, &default_cfg()), FeedbackState::TurnLeft);
}

#[test]
fn yaw_left() {
    let (mut lm, bbox) = landmarks_frontal();
    lm.nose.x = num(90.0);
    let m = analyze_geometry(&lm, &bbox, 640, 480);
    assert_eq!(classify(&m, &default_cfg()), FeedbackState::TurnRight);
}

#[test]
fn pitch_down() {
    let (mut lm, bbox) = landmarks_frontal();
    lm.nose.y = num(250.0);
    let m = analyze_geometry(&lm, &bbox, 640, 480);
    assert!(val(m.pitch_deg) > 45.0, "pitch_deg={} should be >45", val(m.pitch_deg));
    assert_eq!(classify(&m, &default_cfg()), FeedbackState::TiltUp);
}

#[test]
fn pitch_up() {
    let (mut lm, bbox) = landmarks_frontal();
    lm.nose.y = num(120.0);
    let m = analyze_geometry(&lm, &bbox, 640, 480);
    assert!(val(m.pitch_deg) < -45.0, "pitch_deg={} should be <-45", val(m.pitch_deg));
    assert_eq!(classify(&m, &default_cfg()), FeedbackState::TiltDown);
}

#[test]
fn roll_triggers_look_at_camera() {
    let (mut lm, bbox) = landmarks_frontal();
    lm.right_eye.y = num(220.0);
    let m = analyze_geometry(&lm, &bbox, 640, 480);
    assert!(val(m.roll_deg).abs() > 35.0, "roll_deg={} should be >35", val(m.roll_deg));
    assert_eq!(classify(&m, &default_cfg()), FeedbackState::LookAtCamera);
}

#[test]
fn eyes_not_visible() {
    let (mut lm, bbox) = landmarks_frontal();
    lm.left_eye_conf = num(0.2);
    let m = analyze_geometry(&lm, &bbox, 640, 480);
    assert_eq!(classify(&m, &default_cfg()), FeedbackState::EyesNotVisible);
}

#[test]
fn ir_saturated_takes_priority() {
    let (lm, bbox) = landmarks_frontal();
    let mut m = analyze_geometry(&lm, &bbox, 640, 480);
    m.ir_saturated = true;
    assert_eq!(classify(&m, &default_cfg()), FeedbackState::IRSaturated);
}

fn metrics(ratio: f32, yaw: f32, ir_saturated: bool, eyes_visible: bool) -> FaceMetrics {
    FaceMetrics {
        face_width_ratio: num(ratio),
        yaw_deg: num(yaw),
        pitch_deg: num(0.0),
        roll_deg: num(0.0),
        ir_saturated,
        eyes_visible,
        blur_score: num(100.0),
    }
}

#[test]
fn ir_saturated_beats_eyes_not_visible() {
    let m = metrics(0.3, 0.0, true, false);
    assert_eq!(classify(&m, &default_cfg()), FeedbackState::IRSaturated);
}

#[test]
fn eyes_not_visible_beats_distance() {
    let m = metrics(0.05, 0.0, false, false);
    assert_eq!(classify(&m, &default_cfg()), FeedbackState::EyesNotVisible);
}

#[test]
fn state_machine_debounce() {
    let mut sm = StateMachine::new(&default_cfg());
    let t0: u128 = 5_000 * MS;
    assert_eq!(sm.transition(None, t0), Some(FeedbackState::Scanning));
    let (lm, bbox) = landmarks_frontal();
    let mut m = analyze_geometry(&lm, &bbox, 640, 480);
    m.face_width_ratio = num(0.05);
    assert!(sm.transition(Some(&m), t0 + 50 * MS).is_none());
    assert_eq!(sm.transition(Some(&m), t0 + 200 * MS), Some(FeedbackState::TooFar));
}

#[test]
fn state_machine_authenticating_bypasses_debounce() {
    let mut sm = StateMachine::new(&default_cfg());
    let t0: u128 = 5_000 * MS;
    sm.transition(None, t0);
    assert_eq!(sm.state, AuthState::Guidance(FeedbackState::Scanning));
    let (lm, bbox) = landmarks_frontal();
    let m = analyze_geometry(&lm, &bbox, 640, 480);
    assert_eq!(sm.transition(Some(&m), t0 + MS), Some(FeedbackState::Authenticating));
    assert_eq!(sm.state, AuthState::Authenticating);
}

#[test]
fn state_machine_can_leave_authenticating() {
    let mut sm = StateMachine::new(&default_cfg());
    let t0: u128 = 5_000 * MS;
    let (lm, bbox) = landmarks_frontal();
    let m = analyze_geometry(&lm, &bbox, 640, 480);
    sm.transition(Some(&m), t0);
    assert_eq!(sm.state, AuthState::Authenticating);
    assert_eq!(sm.transition(None, t0 + 400 * MS), Some(FeedbackState::Scanning));
}

#[test]
fn state_machine_done_is_terminal() {
    let mut sm = StateMachine::new(&default_cfg());
    let t0: u128 = 5_000 * MS;
    sm.finish();
    assert_eq!(sm.state, AuthState::Done);
    assert!(sm.transition(None, t0).is_none());
    let (lm, bbox) = landmarks_frontal();
    let m = analyze_geometry(&lm, &bbox, 640, 480);
    assert!(sm.transition(Some(&m), t0).is_none());
}

#[test]
fn state_machine_no_face_scanning() {
    let mut sm = StateMachine::new(&default_cfg());
    let t0: u128 = 5_000 * MS;
    assert_eq!(sm.transition(None, t0), Some(FeedbackState::Scanning));
    assert_eq!(sm.state, AuthState::Guidance(FeedbackState::Scanning));
}

#[test]
fn state_machine_repeated_same_state_no_emit() {
    let mut sm = StateMachine::new(&default_cfg());
    let t0: u128 = 5_000 * MS;
    sm.transition(None, t0);
    assert!(sm.transition(None, t0 + 10_000 * MS).is_none());
}

#[test]
fn custom_thresholds_respected() {
    let cfg = GeometryConfig {
        distance_min: num(0.30),
        distance_max: num(0.50),
        yaw_max_deg: num(10.0),
        pitch_max_deg: num(10.0),
        roll_max_deg: num(5.0),
        guidance_debounce_ms: 300,
    };
    assert_eq!(classify(&metrics(0.25, 0.0, false, true), &cfg), FeedbackState::TooFar);
    assert_eq!(classify(&metrics(0.35, 15.0, false, true), &cfg), FeedbackState::TurnLeft);
}

#[test]
fn limits_themselves_are_allowed() {
    let cfg = default_cfg();
    let mut m = metrics(0.3, 0.0, false, true);
    m.face_width_ratio = cfg.distance_min;
    assert_eq!(classify(&m, &cfg), FeedbackState::Authenticating);
    m.face_width_ratio = cfg.distance_max;
    assert_eq!(classify(&m, &cfg), FeedbackState::Authenticating);
    m.yaw_deg = cfg.yaw_max_deg.neg();
    m.pitch_deg = cfg.pitch_max_deg;
    m.roll_deg = cfg.roll_max_deg.neg();
    assert_eq!(classify(&m, &cfg), FeedbackState::Authenticating);
}

#[test]
fn unreadable_angle_raises_no_complaint() {
    let mut m = metrics(0.3, 0.0, false, true);
    m.yaw_deg = num(f32::NAN);
    assert_eq!(classify(&m, &default_cfg()), FeedbackState::Authenticating);
}

#[test]
fn guidance_keeps_the_debounce_time_exactly() {
    let cfg = default_cfg();
    let mut sm = StateMachine::new(&cfg);
    assert_eq!(sm.debounce, cfg.guidance_debounce_ms as u128 * MS);
    let far = metrics(0.01, 0.0, false, true);
    assert_eq!(sm.transition(None, 0), Some(FeedbackState::Scanning));
    assert_eq!(sm.transition(Some(&far), sm.debounce - 1), None);
    assert_eq!(sm.transition(Some(&far), sm.debounce), Some(FeedbackState::TooFar));
}

#[test]
fn eyes_count_from_half_confidence() {
    let (mut lm, _) = landmarks_frontal();
    lm.left_eye_conf = num(0.5);
    assert!(!lm.eyes_visible());
    lm.left_eye_conf = num(0.51);
    assert!(lm.eyes_visible());
    lm.right_eye_conf = num(0.4);
    assert!(!lm.eyes_visible());
}
