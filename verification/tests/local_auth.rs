use face_auth::config::Config;
use face_auth::enroll::{
    grade, keep_indices, max_target, minimum, pose_name, score_and_filter_embeddings, threshold_advice, Advice,
    CaptureStep, EnrollPlan, EnrollWizard, PlanVerdict, PoseCapture, POSE_TIMEOUT,
};
use face_auth::geometry::{BBox, FaceMetrics, Landmarks, Point};
use face_auth::gui::Light;
use face_auth::local_auth::{
    feedback_to_string, DebugAuth, FrameResult, LocalAuthState, LocalOutcome, StartOutcome, TestAuthTab, WorkerResult,
};
use face_auth::protocol::FeedbackState;
use face_auth::quality::IrLivenessScores;
use face_auth::scalar::Scalar;

const MS: u128 = 1_000_000;

fn num(v: f32) -> Scalar {
    Scalar::from_bits(v.to_bits())
}

fn metrics(ratio: f32, blur: f32) -> FaceMetrics {
    FaceMetrics {
        face_width_ratio: num(ratio),
        yaw_deg: num(0.0),
        pitch_deg: num(0.0),
        roll_deg: num(0.0),
        ir_saturated: false,
        eyes_visible: true,
        blur_score: num(blur),
    }
}

fn face(ratio: f32, embedded: bool) -> WorkerResult {
    let p = Point { x: num(1.0), y: num(2.0) };
    WorkerResult::Face(FrameResult {
        bbox: BBox { x1: num(0.0), y1: num(0.0), x2: num(9.0), y2: num(9.0) },
        landmarks: Landmarks {
            left_eye: p,
            right_eye: p,
            nose: p,
            left_mouth: p,
            right_mouth: p,
            left_eye_conf: num(1.0),
            right_eye_conf: num(1.0),
        },
        metrics: metrics(ratio, 90.0),
        embedding: if embedded { Some(vec![num(1.0)]) } else { None },
        liveness_pass: true,
        liveness_scores: IrLivenessScores { lbp_entropy: num(6.0), local_contrast_cv: num(0.3) },
    })
}

#[test]
fn debug_test_succeeds_after_two_matches() {
    let config = Config::default();
    let mut d = DebugAuth::new(&config, num(0.8), 0);
    assert!(d.in_time(6_999 * MS));
    assert!(!d.in_time(7_000 * MS));
    for (i, expected) in [(1, false), (2, true)] {
        let stage = d.face(&metrics(0.3, 90.0), true, i * MS);
        assert!(stage.wants_embedding() && stage.shows_crops());
        assert_eq!(stage.border(), 2);
        assert_eq!(d.judge(Some(&vec![num(0.75), num(0.2)])), expected);
    }
    assert_eq!(d.tally.best, num(0.75));
}

#[test]
fn debug_test_needs_a_live_face() {
    let mut d = DebugAuth::new(&Config::default(), num(0.8), 0);
    let stage = d.face(&metrics(0.3, 90.0), false, MS);
    assert!(stage.authenticating && !stage.stable);
    assert!(!stage.wants_embedding() && !stage.shows_crops());
    assert!(!d.judge(None));
}

#[test]
fn debug_test_forgets_a_lost_face() {
    let mut d = DebugAuth::new(&Config::default(), num(0.8), 0);
    d.face(&metrics(0.3, 90.0), true, MS);
    d.judge(Some(&vec![num(0.75)]));
    assert_eq!(d.tally.matches, 1);
    assert_eq!(d.no_face(400 * MS), "Scanning...");
    assert_eq!(d.tally.matches, 0);
    assert_eq!(d.liveness.history.len(), 0);
    let stage = d.face(&metrics(0.01, 90.0), true, 900 * MS);
    assert_eq!(stage.label(), "Move closer");
    assert_eq!(stage.border(), 1);
    assert_eq!(d.face(&metrics(0.01, 90.0), true, 901 * MS).label(), "Detecting...");
    assert_eq!(feedback_to_string(&FeedbackState::Authenticating), "");
}

#[test]
fn window_test_succeeds() {
    let config = Config::default();
    let mut tab = TestAuthTab::new("ann".to_string());
    assert_eq!(tab.process_result(&face(0.3, true), &vec![num(0.9)], 0), LocalOutcome::Ignored);
    tab.start_auth(&config, num(0.8), StartOutcome::Ready, 0);
    assert_eq!(tab.process_result(&face(0.3, true), &vec![num(0.75)], MS), LocalOutcome::Running);
    assert_eq!(tab.overlay.sim, Some(num(0.75)));
    assert_eq!(tab.process_result(&face(0.3, true), &vec![num(0.72)], 2 * MS), LocalOutcome::Success);
    match tab.state {
        LocalAuthState::Done { outcome, light, elapsed, best_sim } => {
            assert_eq!((outcome, light, elapsed, best_sim), ("SUCCESS", Light::Green, 2 * MS, num(0.75)));
        }
        _ => panic!("the test goes on"),
    }
}

#[test]
fn window_test_times_out() {
    let mut tab = TestAuthTab::new("ann".to_string());
    tab.start_auth(&Config::default(), num(0.8), StartOutcome::Ready, 0);
    assert_eq!(tab.process_result(&WorkerResult::NoFace, &vec![], 6_999 * MS), LocalOutcome::Running);
    assert_eq!(tab.process_result(&WorkerResult::NoFace, &vec![], 7_000 * MS), LocalOutcome::Timeout);
    assert!(matches!(tab.state, LocalAuthState::Done { outcome: "TIMEOUT", light: Light::Yellow, .. }));
    tab.deactivate();
    assert!(matches!(tab.state, LocalAuthState::Idle));
}

#[test]
fn window_test_says_why_it_cannot_start() {
    let config = Config::default();
    let mut tab = TestAuthTab::new("ann".to_string());
    let mut cause = |how: StartOutcome| {
        tab.start_auth(&config, num(0.8), how, 0);
        match &tab.state {
            LocalAuthState::Error(e) => e.clone(),
            _ => panic!("the test starts"),
        }
    };
    assert_eq!(
        cause(StartOutcome::NotEnrolled),
        "No enrollment found for 'ann'.\nRun enrollment first."
    );
    assert_eq!(cause(StartOutcome::ModelsFailed("m".to_string())), "Model load failed: m");
    assert_eq!(cause(StartOutcome::CameraFailed("c".to_string())), "Camera: c");
}

#[test]
fn plan_goes_through_the_poses() {
    assert_eq!(max_target(20), 15);
    assert_eq!(max_target(4), 4);
    assert_eq!(pose_name(0), "straight ahead");
    assert_eq!(pose_name(4), "slightly DOWN");
    let mut plan = EnrollPlan::new(20);
    assert_eq!(plan.verdict(), PlanVerdict::Failed);
    for i in 0..5 {
        assert_eq!(plan.next_pose(), Some(i));
        plan.pose_done(if i == 0 { 0 } else { 1 });
    }
    assert_eq!(plan.next_pose(), None);
    assert_eq!(plan.collected, 4);
    assert_eq!(plan.verdict(), PlanVerdict::Few);
    let mut short = EnrollPlan::new(3);
    short.pose_done(3);
    assert_eq!(short.next_pose(), None);
}

#[test]
fn pictures_are_half_a_second_apart() {
    let geometry = Config::default().geometry;
    let mut c = PoseCapture::new(&geometry, 3, POSE_TIMEOUT, 0);
    assert!(c.active(9_999 * MS));
    assert!(!c.active(10_000 * MS));
    assert!(matches!(c.face(&metrics(0.3, 40.0), MS), CaptureStep::Skip));
    assert!(matches!(c.face(&metrics(0.3, 60.0), 2 * MS), CaptureStep::Take));
    c.accepted(2 * MS);
    assert!(matches!(c.face(&metrics(0.3, 60.0), 501 * MS), CaptureStep::Skip));
    assert!(matches!(c.face(&metrics(0.3, 60.0), 502 * MS), CaptureStep::Take));
    match c.face(&metrics(0.01, 60.0), 900 * MS) {
        CaptureStep::Guide(text) => assert_eq!(text, "Move closer"),
        _ => panic!("no guidance"),
    }
}

#[test]
fn wizard_leads_through_the_poses() {
    let mut w = EnrollWizard::new(&Config::default());
    assert_eq!(w.label(), "Pose 1/5: Look straight ahead  [0/3]");
    assert_eq!(w.no_face(0), 1);
    let mut now = MS;
    for _ in 0..3 {
        let step = w.face(&metrics(0.3, 60.0), now);
        assert!(step.take && step.authenticating && !step.flashing);
        w.taken(true, now);
        assert!(!w.face(&metrics(0.3, 60.0), now + MS).take);
        now += 500 * MS;
    }
    assert_eq!((w.pose, w.pose_captured, w.collected), (1, 0, 3));
    let step = w.face(&metrics(0.3, 60.0), now);
    assert_eq!(w.border(&step), 2);
    w.taken(false, now);
    assert_eq!(w.collected, 3);
    let step = w.face(&metrics(0.3, 60.0), now + MS);
    assert_eq!(w.border(&step), 4);
    assert_eq!(w.no_face(now + 2 * MS), 4);
    assert_eq!(w.no_face(now + 200 * MS), 1);
    assert!(w.active());
}

#[test]
fn bad_pictures_are_dropped() {
    let all: Vec<[u32; 512]> = (0..4).map(|i| [i; 512]).collect();
    let sims = vec![num(0.9), num(0.4), num(0.5), num(0.8)];
    assert_eq!(keep_indices(&sims), vec![0, 2, 3]);
    let (kept, rejected) = score_and_filter_embeddings(all.clone(), &sims);
    assert_eq!((kept.len(), rejected), (3, 1));
    assert_eq!(kept[1], all[2]);
    let (kept, rejected) = score_and_filter_embeddings(all.clone(), &vec![num(0.1); 4]);
    assert_eq!((kept, rejected), (all.clone(), 4));
    let (kept, rejected) = score_and_filter_embeddings(all[..2].to_vec(), &vec![]);
    assert_eq!((kept.len(), rejected), (2, 0));
}

#[test]
fn grades_and_advice() {
    assert_eq!(grade(num(0.80)), "Excellent");
    assert_eq!(grade(num(0.79)), "Good");
    assert_eq!(grade(num(0.65)), "Fair");
    assert_eq!(grade(num(0.1)), "Poor (consider re-enrolling in better conditions)");
    assert_eq!(minimum(num(1.0), &vec![num(0.4), num(0.2), num(0.9)]), num(0.2));
    assert_eq!(minimum(num(0.1), &vec![num(0.4)]), num(0.1));
    assert_eq!(threshold_advice(num(0.8), num(0.7), num(0.1)), Advice::Raise);
    assert_eq!(threshold_advice(num(0.6), num(0.7), num(0.1)), Advice::Lower);
    assert_eq!(threshold_advice(num(0.71), num(0.7), num(0.01)), Advice::Keep);
}
