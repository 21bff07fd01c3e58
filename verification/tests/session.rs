use face_auth::config::{Config, NotifyConfig};
use face_auth::error::DaemonError;
use face_auth::geometry::FaceMetrics;
use face_auth::inference::InferenceResult;
use face_auth::protocol::{AuthOutcome, DaemonMessage, FeedbackState, PamRequest};
use face_auth::scalar::Scalar;
use face_auth::session::{
    failure_message, handle_request, notification, opening_message, AuthSession, Poll, RequestAction, SessionManager,
    StepAction,
};

const MS: u128 = 1_000_000;

fn num(v: f32) -> Scalar {
    Scalar::from_bits(v.to_bits())
}

#[test]
fn session_manager_start_and_end() {
    let mut sm = SessionManager::new();
    assert!(!sm.is_active());

    sm.try_start(1).unwrap();
    assert!(sm.is_active());

    assert!(sm.try_start(2).is_err());

    sm.end(1);
    assert!(!sm.is_active());

    sm.try_start(3).unwrap();
    assert!(sm.is_active());
}

#[test]
fn session_manager_end_wrong_id_no_op() {
    let mut sm = SessionManager::new();
    sm.try_start(1).unwrap();
    sm.end(999);
    assert!(sm.is_active());
}

#[test]
fn second_session_is_busy() {
    let mut sm = SessionManager::new();
    sm.try_start(1).unwrap();
    assert!(matches!(sm.try_start(1), Err(DaemonError::SessionBusy)));
}

fn auth(session_id: u64, version: u32) -> PamRequest {
    PamRequest::Auth { version, username: "ann".to_string(), session_id }
}

#[test]
fn requests_are_served_one_at_a_time() {
    let mut sm = SessionManager::new();
    match handle_request(&mut sm, auth(1, 9)) {
        RequestAction::Start { session_id, username, version_matches } => {
            assert_eq!((session_id, username.as_str(), version_matches), (1, "ann", false));
        }
        _ => panic!("the session does not start"),
    }
    match handle_request(&mut sm, auth(2, 1)) {
        RequestAction::Reject(m) => assert_eq!(
            m,
            DaemonMessage::AuthResult { session_id: 2, outcome: AuthOutcome::Failed }
        ),
        _ => panic!("two sessions run"),
    }
    assert!(matches!(
        handle_request(&mut sm, PamRequest::Cancel { session_id: 2 }),
        RequestAction::Nothing
    ));
    assert!(sm.is_active());
    handle_request(&mut sm, PamRequest::Cancel { session_id: 1 });
    assert!(!sm.is_active());
}

#[test]
fn opening_tells_who_is_enrolled() {
    assert_eq!(
        opening_message(4, true),
        DaemonMessage::Feedback { session_id: 4, state: FeedbackState::Scanning }
    );
    assert_eq!(
        opening_message(4, false),
        DaemonMessage::AuthResult { session_id: 4, outcome: AuthOutcome::Failed }
    );
}

fn frame(ratio: f32, embedded: bool, is_live: Option<bool>) -> InferenceResult {
    InferenceResult::Metrics {
        metrics: FaceMetrics {
            face_width_ratio: num(ratio),
            yaw_deg: num(0.0),
            pitch_deg: num(0.0),
            roll_deg: num(0.0),
            ir_saturated: false,
            eyes_visible: true,
            blur_score: num(100.0),
        },
        embedding: if embedded { Some(vec![num(1.0)]) } else { None },
        is_live,
    }
}

fn session() -> AuthSession {
    let mut config = Config::default();
    config.recognition.frames_required = 2;
    AuthSession::new(&config, num(val(config.recognition.threshold) + 0.1), 0)
}

fn val(s: Scalar) -> f32 {
    f32::from_bits(s.bits)
}

#[test]
fn two_matches_succeed() {
    let mut s = session();
    let good = frame(0.3, true, Some(true));
    let first = s.step(&good, &vec![num(0.1), num(0.72)], MS);
    assert_eq!(
        first,
        StepAction { send: Some(FeedbackState::Authenticating), success: false }
    );
    assert_eq!(s.consecutive_matches, 1);
    let second = s.step(&good, &vec![num(0.71)], 2 * MS);
    assert_eq!(second, StepAction { send: None, success: true });
}

#[test]
fn one_confident_match_succeeds() {
    let mut s = session();
    assert!(s.step(&frame(0.3, true, Some(true)), &vec![num(0.95)], MS).success);
}

#[test]
fn another_enrolled_face_does_no_harm() {
    for sims in [vec![num(0.95)], vec![num(0.95), num(0.1)], vec![num(-0.3), num(0.95)]] {
        assert!(session().step(&frame(0.3, true, Some(true)), &sims, MS).success);
    }
}

#[test]
fn mismatch_costs_all_matches() {
    let mut s = session();
    let good = frame(0.3, true, Some(true));
    s.step(&good, &vec![num(0.72)], MS);
    assert!(!s.step(&good, &vec![num(0.2)], 2 * MS).success);
    assert_eq!(s.consecutive_matches, 0);
}

#[test]
fn spoof_costs_everything_gathered() {
    let mut s = session();
    s.step(&frame(0.3, true, Some(true)), &vec![num(0.72)], MS);
    assert!(!s.step(&frame(0.3, true, Some(false)), &vec![num(0.99)], 2 * MS).success);
    assert_eq!(s.consecutive_matches, 0);
    // One pass in two frames is not steady.
    assert!(!s.step(&frame(0.3, true, Some(true)), &vec![num(0.99)], 3 * MS).success);
}

#[test]
fn guidance_costs_one() {
    let mut s = session();
    s.step(&frame(0.3, true, Some(true)), &vec![num(0.72)], MS);
    let far = s.step(&frame(0.01, false, None), &vec![], 500 * MS);
    assert_eq!(far.send, Some(FeedbackState::TooFar));
    assert_eq!(s.consecutive_matches, 0);
}

#[test]
fn lost_face_forgets_everything() {
    let mut s = session();
    s.step(&frame(0.3, true, Some(true)), &vec![num(0.72)], MS);
    let lost = s.step(&InferenceResult::NoFace, &vec![], 500 * MS);
    assert_eq!(lost.send, Some(FeedbackState::Scanning));
    assert_eq!(s.consecutive_matches, 0);
    assert_eq!(s.liveness.pass_count(), 0);
}

#[test]
fn unjudged_face_never_succeeds() {
    let mut s = session();
    for i in 0..20 {
        assert!(!s.step(&frame(0.3, true, None), &vec![num(0.99)], i * MS).success);
    }
}

#[test]
fn more_embeddings_never_hurt() {
    let (mut few, mut more) = (session(), session());
    for i in 1..3 {
        let f = frame(0.3, true, Some(true));
        let a = few.step(&f, &vec![num(0.72)], i * MS);
        let b = more.step(&f, &vec![num(-0.5), num(0.72), num(0.1)], i * MS);
        assert_eq!(a, b);
        assert_eq!(a.success, i == 2);
    }
}

#[test]
fn spoof_looks_like_a_stranger() {
    let (mut spoof, mut stranger) = (session(), session());
    for i in 1..6 {
        let a = spoof.step(&frame(0.3, true, Some(false)), &vec![num(1.0)], i * MS);
        let b = stranger.step(&frame(0.3, true, Some(true)), &vec![num(0.1)], i * MS);
        assert_eq!(a, b);
    }
}

#[test]
fn session_that_cannot_run_is_no_refusal() {
    let message = failure_message(9);
    assert!(matches!(
        message,
        DaemonMessage::AuthResult { session_id: 9, outcome: AuthOutcome::DaemonUnavailable }
    ));
}

#[test]
fn sessions_end_in_time() {
    let s = session();
    assert_eq!(s.timeout, 7_000 * MS);
    assert_eq!(s.poll(0), Poll::Wait(200 * MS));
    assert_eq!(s.poll(6_900 * MS), Poll::Wait(100 * MS));
    assert_eq!(s.poll(7_000 * MS), Poll::TimedOut);
}

#[test]
fn success_is_notified() {
    let wanted = NotifyConfig { enabled: true, timeout_ms: 3000 };
    let n = notification(AuthOutcome::Success, &wanted, Some(1000)).unwrap();
    assert_eq!((n.uid, n.timeout_ms), (1000, 3000));
    assert_eq!(n.address, "unix:path=/run/user/1000/bus");
    assert!(notification(AuthOutcome::Failed, &wanted, Some(1000)).is_none());
    assert!(notification(AuthOutcome::Success, &wanted, None).is_none());
    let unwanted = NotifyConfig { enabled: false, timeout_ms: 3000 };
    assert!(notification(AuthOutcome::Success, &unwanted, Some(1000)).is_none());
}
