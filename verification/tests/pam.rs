use face_auth::config::{Config, ConfigError};
use face_auth::framing::FrameError;
use face_auth::pam::{
    auth_request, feedback_to_text, get_socket_path, outcome_code, Action, Event, PamClient, PAM_AUTHINFO_UNAVAIL,
    PAM_AUTH_ERR, PAM_SUCCESS, SESSION_TIMEOUT_NS,
};
use face_auth::protocol::{AuthOutcome, DaemonMessage, FeedbackState, PamRequest};
use face_auth::test_auth::{
    after_failed_connect, client_step, feedback_label, outcome_label, read_timeout_s, ClientAction, Retry,
};

/// When the request is sent.
const SENT: u128 = 2_000_000_000;

fn receiving() -> PamClient {
    let mut c = PamClient::new(5);
    assert!(matches!(c.next(Event::User(Some("ann".to_string())), 0), Action::Connect));
    assert!(matches!(c.next(Event::Connected(true), 0), Action::SetTimeout));
    match c.next(Event::TimeoutSet(true), 0) {
        Action::Send(PamRequest::Auth { version, username, session_id }) => {
            assert_eq!((version, username.as_str(), session_id), (1, "ann", 5));
        }
        _ => panic!("no request is sent"),
    }
    assert!(matches!(c.next(Event::Sent(true), SENT), Action::Receive));
    c
}

fn returned(a: Action) -> Option<i32> {
    match a {
        Action::Return(c) => Some(c),
        Action::CancelAndReturn(_, c) => Some(c),
        _ => None,
    }
}

#[test]
fn outcome_decides_the_result() {
    for (outcome, code) in [
        (AuthOutcome::Success, PAM_SUCCESS),
        (AuthOutcome::Failed, PAM_AUTH_ERR),
        (AuthOutcome::Timeout, PAM_AUTHINFO_UNAVAIL),
        (AuthOutcome::DaemonUnavailable, PAM_AUTHINFO_UNAVAIL),
        (AuthOutcome::Cancelled, PAM_AUTHINFO_UNAVAIL),
    ] {
        assert_eq!(outcome_code(outcome), code);
        let message = DaemonMessage::AuthResult { session_id: 5, outcome };
        assert_eq!(returned(receiving().next(Event::Received(Ok(message)), SENT + 1)), Some(code));
    }
}

#[test]
fn guidance_is_shown() {
    let mut c = receiving();
    let message = DaemonMessage::Feedback { session_id: 5, state: FeedbackState::TooFar };
    match c.next(Event::Received(Ok(message)), SENT + 1) {
        Action::Show(text) => assert_eq!(text, "face-auth: move closer"),
        _ => panic!("nothing is shown"),
    }
    match c.next(Event::Received(Err(FrameError::UnexpectedEof)), SENT + 2) {
        Action::CancelAndReturn(PamRequest::Cancel { session_id }, code) => {
            assert_eq!((session_id, code), (5, PAM_AUTHINFO_UNAVAIL));
        }
        _ => panic!("the session is not cancelled"),
    }
}

#[test]
fn troubles_leave_it_to_the_password() {
    assert_eq!(returned(PamClient::new(1).next(Event::User(None), 0)), Some(PAM_AUTHINFO_UNAVAIL));
    let mut c = PamClient::new(1);
    c.next(Event::User(Some("ann".to_string())), 0);
    assert_eq!(returned(c.next(Event::Connected(false), 0)), Some(PAM_AUTHINFO_UNAVAIL));
    let mut c = PamClient::new(1);
    c.next(Event::User(Some("ann".to_string())), 0);
    c.next(Event::Connected(true), 0);
    assert_eq!(returned(c.next(Event::TimeoutSet(false), 0)), Some(PAM_AUTHINFO_UNAVAIL));
}

#[test]
fn texts_of_the_module() {
    assert_eq!(feedback_to_text(&FeedbackState::Authenticating), "face-auth: verifying...");
    assert_eq!(feedback_to_text(&FeedbackState::IRSaturated), "face-auth: move back slightly");
    match auth_request("bob".to_string(), 3) {
        PamRequest::Auth { version, username, session_id } => {
            assert_eq!((version, username.as_str(), session_id), (1, "bob", 3));
        }
        PamRequest::Cancel { .. } => panic!("another request"),
    }
}

#[test]
fn socket_path_comes_from_the_settings() {
    let mut config = Config::default();
    config.daemon.socket_path = "/tmp/s".to_string();
    assert_eq!(get_socket_path(&Ok(config)), "/tmp/s");
    let broken = Err(ConfigError::Parse("x".to_string()));
    assert_eq!(get_socket_path(&broken), "/run/face-auth/pam.sock");
}

#[test]
fn command_tries_five_times() {
    assert_eq!(after_failed_connect(0), Retry::After(500));
    assert_eq!(after_failed_connect(3), Retry::After(500));
    assert_eq!(after_failed_connect(4), Retry::GiveUp);
    assert_eq!(read_timeout_s(7), 12);
}

#[test]
fn command_prints_messages() {
    assert_eq!(feedback_label(FeedbackState::IRSaturated), "IR glare — move back");
    assert_eq!(feedback_label(FeedbackState::TiltUp), "Tilt up");
    assert_eq!(outcome_label(AuthOutcome::Cancelled), "Cancelled");
    let message = DaemonMessage::Feedback { session_id: 1, state: FeedbackState::TooClose };
    assert!(matches!(client_step(&Ok(message)), ClientAction::Print("Move back")));
    assert!(matches!(client_step(&Err(FrameError::InvalidData)), ClientAction::Lost(1)));
    for (outcome, timed, code) in [
        (AuthOutcome::Success, true, 0),
        (AuthOutcome::Timeout, true, 1),
        (AuthOutcome::Failed, false, 1),
    ] {
        match client_step(&Ok(DaemonMessage::AuthResult { session_id: 1, outcome })) {
            ClientAction::Finish(l) => {
                assert_eq!((l.outcome, l.timed, l.exit_code), (outcome, timed, code));
            }
            _ => panic!("the command goes on"),
        }
    }
}

#[test]
fn session_ends_after_fifteen_seconds() {
    let mut c = receiving();
    let guidance = || Ok(DaemonMessage::Feedback { session_id: 5, state: FeedbackState::Scanning });
    let second: u128 = 1_000_000_000;
    assert_eq!(SESSION_TIMEOUT_NS, 15 * second);
    assert_eq!(c.time_left(SENT), 15 * second);
    assert!(matches!(c.next(Event::Received(guidance()), SENT + 10 * second), Action::Show(_)));
    assert_eq!(c.time_left(SENT + 10 * second), 5 * second);
    assert_eq!(c.time_left(SENT + 15 * second - 1), 1);
    assert_eq!(c.time_left(SENT + 20 * second), 0);
    match c.next(Event::Received(guidance()), SENT + 15 * second) {
        Action::CancelAndReturn(PamRequest::Cancel { session_id }, code) => {
            assert_eq!((session_id, code), (5, PAM_AUTHINFO_UNAVAIL));
        }
        _ => panic!("the session goes on"),
    }
}
