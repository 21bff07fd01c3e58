//! The PAM module: how an answer of the daemon becomes a PAM result.
use crate::config::{Config, ConfigError};
use crate::framing::FrameError;
use crate::protocol::{AuthOutcome, DaemonMessage, FeedbackState, PamRequest, PROTOCOL_VERSION};
use vstd::prelude::*;

verus! {

/// The handle that PAM passes to a module. Nothing of it is visible.
#[derive(Debug)]
#[allow(non_camel_case_types)]
pub struct pam_handle_t {}

/// The user is authenticated.
pub const PAM_SUCCESS: i32 = 0;

/// The user is not authenticated.
pub const PAM_AUTH_ERR: i32 = 7;

/// Authentication could not be tried: the next module, a password, decides.
pub const PAM_AUTHINFO_UNAVAIL: i32 = 9;

/// How long the module waits for the connection to the daemon, in milliseconds.
pub const CONNECT_TIMEOUT_MS: u64 = 500;

/// How long the module waits for the daemon's decision once it has asked, in nanoseconds.
pub const SESSION_TIMEOUT_NS: u128 = 15_000_000_000;

/// The result for an outcome.
pub open spec fn spec_code(outcome: AuthOutcome) -> i32 {
    match outcome {
        AuthOutcome::Success => PAM_SUCCESS,
        AuthOutcome::Failed => PAM_AUTH_ERR,
        _ => PAM_AUTHINFO_UNAVAIL,
    }
}

/// The result for an outcome.
pub fn outcome_code(outcome: AuthOutcome) -> (r: i32)
    ensures
        r == spec_code(outcome),
{
    match outcome {
        AuthOutcome::Success => PAM_SUCCESS,
        AuthOutcome::Failed => PAM_AUTH_ERR,
        AuthOutcome::Timeout => PAM_AUTHINFO_UNAVAIL,
        AuthOutcome::DaemonUnavailable => PAM_AUTHINFO_UNAVAIL,
        AuthOutcome::Cancelled => PAM_AUTHINFO_UNAVAIL,
    }
}

/// What is shown for a piece of guidance.
pub open spec fn guidance_text(state: FeedbackState) -> Seq<char> {
    match state {
        FeedbackState::Scanning => "face-auth: scanning face..."@,
        FeedbackState::TooFar => "face-auth: move closer"@,
        FeedbackState::TooClose => "face-auth: move back"@,
        FeedbackState::TurnLeft => "face-auth: turn left"@,
        FeedbackState::TurnRight => "face-auth: turn right"@,
        FeedbackState::TiltUp => "face-auth: tilt up"@,
        FeedbackState::TiltDown => "face-auth: tilt down"@,
        FeedbackState::IRSaturated => "face-auth: move back slightly"@,
        FeedbackState::EyesNotVisible => "face-auth: look at camera"@,
        FeedbackState::LookAtCamera => "face-auth: look at camera"@,
        FeedbackState::Authenticating => "face-auth: verifying..."@,
    }
}

/// What is shown for a piece of guidance.
pub fn feedback_to_text(state: &FeedbackState) -> (r: &'static str)
    ensures
        r@ == guidance_text(*state),
{
    match state {
        FeedbackState::Scanning => "face-auth: scanning face...",
        FeedbackState::TooFar => "face-auth: move closer",
        FeedbackState::TooClose => "face-auth: move back",
        FeedbackState::TurnLeft => "face-auth: turn left",
        FeedbackState::TurnRight => "face-auth: turn right",
        FeedbackState::TiltUp => "face-auth: tilt up",
        FeedbackState::TiltDown => "face-auth: tilt down",
        FeedbackState::IRSaturated => "face-auth: move back slightly",
        FeedbackState::EyesNotVisible => "face-auth: look at camera",
        FeedbackState::LookAtCamera => "face-auth: look at camera",
        FeedbackState::Authenticating => "face-auth: verifying...",
    }
}

/// Where the daemon listens: as the settings say, or at the default place where they cannot be
/// read.
pub fn get_socket_path(config: &Result<Config, ConfigError>) -> (r: String)
    ensures
        r@ == match config {
            Ok(c) => c.daemon.socket_path@,
            Err(_) => "/run/face-auth/pam.sock"@,
        },
{
    match config {
        Ok(c) => c.daemon.socket_path.clone(),
        Err(_) => "/run/face-auth/pam.sock".to_owned(),
    }
}

/// The request with which a session begins.
pub fn auth_request(username: String, session_id: u64) -> (r: PamRequest)
    ensures
        r == (PamRequest::Auth { version: PROTOCOL_VERSION, username, session_id }),
{
    PamRequest::Auth { version: PROTOCOL_VERSION, username, session_id }
}

/// What has happened in the module.
#[derive(Debug)]
pub enum Event {
    /// The user's name was asked for: PAM gave it, or none that can be read.
    User(Option<String>),
    /// The connection to the daemon was tried.
    Connected(bool),
    /// The waiting time for messages was set.
    TimeoutSet(bool),
    /// The request was sent.
    Sent(bool),
    /// A message was waited for.
    Received(Result<DaemonMessage, FrameError>),
}

/// What the module does next.
#[derive(Debug)]
pub enum Action {
    Connect,
    SetTimeout,
    Send(PamRequest),
    Receive,
    /// Show the text, where the application can, and wait for the next message.
    Show(&'static str),
    /// Tell the daemon that nobody waits any more, close the connection and return the result.
    CancelAndReturn(PamRequest, i32),
    /// Close the connection, where there is one, and return the result.
    Return(i32),
}

/// The result with which the module returns, where it does.
pub open spec fn returned(a: Action) -> Option<i32> {
    match a {
        Action::Return(c) => Some(c),
        Action::CancelAndReturn(_, c) => Some(c),
        _ => None,
    }
}

/// The result that an event leads to at once, where it does. `late` is whether the time of the
/// session is over.
pub open spec fn verdict(event: Event, late: bool) -> Option<i32> {
    match event {
        Event::User(Some(_)) => None,
        Event::Connected(true) => None,
        Event::TimeoutSet(true) => None,
        Event::Sent(true) => None,
        Event::Received(Ok(DaemonMessage::Feedback { .. })) => if late {
            Some(PAM_AUTHINFO_UNAVAIL)
        } else {
            None
        },
        Event::Received(Ok(DaemonMessage::AuthResult { outcome, .. })) => Some(spec_code(outcome)),
        _ => Some(PAM_AUTHINFO_UNAVAIL),
    }
}

/// Where the module stands.
#[derive(Debug)]
pub enum Stage {
    Start,
    Connecting,
    SettingTimeout,
    Sending,
    Receiving,
    Finished,
}

/// The time left, in nanoseconds, of a session whose request was sent at `sent`.
pub open spec fn time_left_of(sent: u128, now: u128) -> int {
    let elapsed = if now > sent {
        now - sent
    } else {
        0
    };
    if elapsed >= SESSION_TIMEOUT_NS {
        0
    } else {
        SESSION_TIMEOUT_NS - elapsed
    }
}

/// The module's part of a session.
#[derive(Debug)]
pub struct PamClient {
    pub stage: Stage,
    pub session_id: u64,
    pub username: String,
    /// When the request was sent, in nanoseconds since a fixed moment.
    pub sent: u128,
}

impl PamClient {
    /// Whether `event` is what the module waits for.
    pub open spec fn expects(self, event: Event) -> bool {
        match self.stage {
            Stage::Start => event is User,
            Stage::Connecting => event is Connected,
            Stage::SettingTimeout => event is TimeoutSet,
            Stage::Sending => event is Sent,
            Stage::Receiving => event is Received,
            Stage::Finished => false,
        }
    }

    /// A module that has not begun. `session_id` is a fresh number.
    pub fn new(session_id: u64) -> (r: PamClient)
        ensures
            r.stage is Start,
            r.session_id == session_id,
            r.username@ == Seq::<char>::empty(),
            r.sent == 0,
    {
        PamClient { stage: Stage::Start, session_id, username: String::new(), sent: 0 }
    }

    /// How long a message may be waited for, in nanoseconds: until the time of the session is over.
    pub fn time_left(&self, now: u128) -> (r: u128)
        ensures
            r == time_left_of(self.sent, now),
            r <= SESSION_TIMEOUT_NS,
            now >= self.sent && r > 0 ==> now + r == self.sent + SESSION_TIMEOUT_NS,
    {
        let elapsed: u128 = if now > self.sent {
            now - self.sent
        } else {
            0
        };
        if elapsed >= SESSION_TIMEOUT_NS {
            0
        } else {
            SESSION_TIMEOUT_NS - elapsed
        }
    }

    /// Takes in what has happened and says what to do next. Guidance that comes once the time of the
    /// session is over ends it.
    pub fn next(&mut self, event: Event, now: u128) -> (r: Action)
        requires
            old(self).expects(event),
        ensures
            final(self).session_id == old(self).session_id,
            final(self).username@ == match event {
                Event::User(Some(name)) => name@,
                _ => old(self).username@,
            },
            final(self).sent == match event {
                Event::Sent(true) => now,
                _ => old(self).sent,
            },
            returned(r) == verdict(event, time_left_of(old(self).sent, now) == 0),
            final(self).stage is Finished <==> returned(r) is Some,
            match event {
                Event::User(Some(_)) => r is Connect && final(self).stage is Connecting,
                Event::Connected(true) => r is SetTimeout && final(self).stage is SettingTimeout,
                Event::TimeoutSet(true) => {
                    &&& r matches Action::Send(
                        PamRequest::Auth { version, username, session_id },
                    ) && version == PROTOCOL_VERSION && username@ == old(self).username@
                        && session_id == old(self).session_id
                    &&& final(self).stage is Sending
                },
                Event::Sent(true) => r is Receive && final(self).stage is Receiving,
                Event::Received(Ok(DaemonMessage::Feedback { state, .. })) => if time_left_of(
                    old(self).sent,
                    now,
                ) == 0 {
                    &&& r matches Action::CancelAndReturn(PamRequest::Cancel { session_id }, c)
                        && session_id == old(self).session_id && c == PAM_AUTHINFO_UNAVAIL
                    &&& final(self).stage is Finished
                } else {
                    &&& r matches Action::Show(t) && t@ == guidance_text(state)
                    &&& final(self).stage is Receiving
                },
                Event::Received(Ok(DaemonMessage::AuthResult { outcome, .. })) => {
                    &&& r matches Action::Return(c) && c == spec_code(outcome)
                    &&& final(self).stage is Finished
                },
                Event::Received(Err(_)) => {
                    &&& r matches Action::CancelAndReturn(PamRequest::Cancel { session_id }, c)
                        && session_id == old(self).session_id && c == PAM_AUTHINFO_UNAVAIL
                    &&& final(self).stage is Finished
                },
                _ => {
                    &&& r matches Action::Return(c) && c == PAM_AUTHINFO_UNAVAIL
                    &&& final(self).stage is Finished
                },
            },
    {
        match event {
            Event::User(Some(name)) => {
                self.username = name;
                self.stage = Stage::Connecting;
                Action::Connect
            },
            Event::Connected(true) => {
                self.stage = Stage::SettingTimeout;
                Action::SetTimeout
            },
            Event::TimeoutSet(true) => {
                self.stage = Stage::Sending;
                Action::Send(auth_request(self.username.clone(), self.session_id))
            },
            Event::Sent(true) => {
                self.sent = now;
                self.stage = Stage::Receiving;
                Action::Receive
            },
            Event::Received(Ok(DaemonMessage::Feedback { state, .. })) => {
                if self.time_left(now) == 0 {
                    self.stage = Stage::Finished;
                    Action::CancelAndReturn(
                        PamRequest::Cancel { session_id: self.session_id },
                        PAM_AUTHINFO_UNAVAIL,
                    )
                } else {
                    self.stage = Stage::Receiving;
                    Action::Show(feedback_to_text(&state))
                }
            },
            Event::Received(Ok(DaemonMessage::AuthResult { outcome, .. })) => {
                self.stage = Stage::Finished;
                Action::Return(outcome_code(outcome))
            },
            Event::Received(Err(_)) => {
                self.stage = Stage::Finished;
                Action::CancelAndReturn(
                    PamRequest::Cancel { session_id: self.session_id },
                    PAM_AUTHINFO_UNAVAIL,
                )
            },
            _ => {
                self.stage = Stage::Finished;
                Action::Return(PAM_AUTHINFO_UNAVAIL)
            },
        }
    }
}

/// The module lets a user in exactly when the daemon says that the face was recognised, and turns
/// one away exactly when it says that it was not. Whatever else happens, on the way to the daemon
/// or in it, and however long it takes, the next module decides.
pub proof fn only_the_daemon_decides(event: Event, late: bool)
    ensures
        verdict(event, late) == Some(PAM_SUCCESS) <==> (event matches Event::Received(
            Ok(DaemonMessage::AuthResult { outcome, .. }),
        ) && outcome == AuthOutcome::Success),
        verdict(event, late) == Some(PAM_AUTH_ERR) <==> (event matches Event::Received(
            Ok(DaemonMessage::AuthResult { outcome, .. }),
        ) && outcome == AuthOutcome::Failed),
{
}

/// The session has a hard limit: whatever is received once its time is over ends it, and until then
/// no message is waited for past that time.
pub proof fn session_has_a_limit(sent: u128, now: u128, received: Result<DaemonMessage, FrameError>)
    requires
        sent <= now,
    ensures
        now >= sent + SESSION_TIMEOUT_NS <==> time_left_of(sent, now) == 0,
        now >= sent + SESSION_TIMEOUT_NS ==> verdict(
            Event::Received(received),
            time_left_of(sent, now) == 0,
        ) is Some,
        now < sent + SESSION_TIMEOUT_NS ==> now + time_left_of(sent, now) == sent + SESSION_TIMEOUT_NS,
{
}

/// The module reports success for the outcome "success" alone, a refusal for a failed session
/// alone, and leaves everything else to the next module.
pub proof fn only_success_succeeds(outcome: AuthOutcome)
    ensures
        spec_code(outcome) == PAM_SUCCESS <==> outcome == AuthOutcome::Success,
        spec_code(outcome) == PAM_AUTH_ERR <==> outcome == AuthOutcome::Failed,
        spec_code(outcome) == PAM_AUTHINFO_UNAVAIL <==> outcome != AuthOutcome::Success && outcome
            != AuthOutcome::Failed,
{
}

/// The time of a session is fifteen seconds.
pub proof fn session_takes_fifteen_seconds(sent: u128, now: u128)
    ensures
        time_left_of(sent, now) == 0 <==> now >= sent + 15_000_000_000,
        now <= sent ==> time_left_of(sent, now) == 15_000_000_000,
        sent <= now < sent + 15_000_000_000 ==> now + time_left_of(sent, now) == sent + 15_000_000_000,
{
}

/// The codes that PAM knows: 0 for success, 7 for a refusal, 9 for no answer. A session goes on only
/// while each step works out and guidance comes in time. What breaks it off gives no answer.
pub proof fn broken_session_gives_no_answer(event: Event, late: bool)
    ensures
        verdict(event, late) matches Some(c) ==> c == 0 || c == 7 || c == 9,
        verdict(event, late) is None <==> {
            ||| event is User && event->User_0 is Some
            ||| event == Event::Connected(true)
            ||| event == Event::TimeoutSet(true)
            ||| event == Event::Sent(true)
            ||| event is Received && event->Received_0 is Ok && event->Received_0->Ok_0 is Feedback && !late
        },
        event !is Received && verdict(event, late) is Some ==> verdict(event, late) == Some(9i32),
        event is Received && event->Received_0 is Err ==> verdict(event, late) == Some(9i32),
        event is Received && event->Received_0 is Ok && event->Received_0->Ok_0 is Feedback && late
            ==> verdict(event, late) == Some(9i32),
        spec_code(AuthOutcome::Success) == 0,
        spec_code(AuthOutcome::Failed) == 7,
{
}

/// The words point the way: each piece of guidance names what is to be done.
pub proof fn words_point_the_way(f: FeedbackState)
    ensures
        f == FeedbackState::TooFar ==> crate::text::contains(guidance_text(f), "closer"@),
        f == FeedbackState::TooClose ==> crate::text::contains(guidance_text(f), "back"@),
        f == FeedbackState::TurnLeft ==> crate::text::contains(guidance_text(f), "left"@),
        f == FeedbackState::TurnRight ==> crate::text::contains(guidance_text(f), "right"@),
        f == FeedbackState::TiltUp ==> crate::text::contains(guidance_text(f), "up"@),
        f == FeedbackState::TiltDown ==> crate::text::contains(guidance_text(f), "down"@),
        f == FeedbackState::IRSaturated ==> crate::text::contains(guidance_text(f), "back"@),
        f == FeedbackState::EyesNotVisible ==> crate::text::contains(guidance_text(f), "camera"@),
        f == FeedbackState::LookAtCamera ==> crate::text::contains(guidance_text(f), "camera"@),
        f == FeedbackState::Scanning ==> crate::text::contains(guidance_text(f), "scanning"@),
        f == FeedbackState::Authenticating ==> crate::text::contains(guidance_text(f), "verifying"@),
{
    reveal_strlit("face-auth: move closer");
    reveal_strlit("closer");
    reveal_strlit("face-auth: move back");
    reveal_strlit("back");
    reveal_strlit("face-auth: turn left");
    reveal_strlit("left");
    reveal_strlit("face-auth: turn right");
    reveal_strlit("right");
    reveal_strlit("face-auth: tilt up");
    reveal_strlit("up");
    reveal_strlit("face-auth: tilt down");
    reveal_strlit("down");
    reveal_strlit("face-auth: move back slightly");
    reveal_strlit("face-auth: look at camera");
    reveal_strlit("camera");
    reveal_strlit("face-auth: scanning face...");
    reveal_strlit("scanning");
    reveal_strlit("face-auth: verifying...");
    reveal_strlit("verifying");
    assert("face-auth: move closer"@.skip(16).take(6) =~= "closer"@);
    assert("face-auth: move back"@.skip(16).take(4) =~= "back"@);
    assert("face-auth: turn left"@.skip(16).take(4) =~= "left"@);
    assert("face-auth: turn right"@.skip(16).take(5) =~= "right"@);
    assert("face-auth: tilt up"@.skip(16).take(2) =~= "up"@);
    assert("face-auth: tilt down"@.skip(16).take(4) =~= "down"@);
    assert("face-auth: move back slightly"@.skip(16).take(4) =~= "back"@);
    assert("face-auth: look at camera"@.skip(19).take(6) =~= "camera"@);
    assert("face-auth: look at camera"@.skip(19).take(6) =~= "camera"@);
    assert("face-auth: scanning face..."@.skip(11).take(8) =~= "scanning"@);
    assert("face-auth: verifying..."@.skip(11).take(9) =~= "verifying"@);
}

/// The module waits for one thing at a time, and for nothing once it has returned. It returns with a
/// code or goes on.
pub proof fn module_waits_for_one_thing(c: PamClient, a: Event, b: Event, action: Action)
    ensures
        c.expects(a) && c.expects(b) ==> {
            ||| a is User && b is User
            ||| a is Connected && b is Connected
            ||| a is TimeoutSet && b is TimeoutSet
            ||| a is Sent && b is Sent
            ||| a is Received && b is Received
        },
        c.stage is Start && a is User ==> c.expects(a),
        c.stage is Connecting && a is Connected ==> c.expects(a),
        c.stage is SettingTimeout && a is TimeoutSet ==> c.expects(a),
        c.stage is Sending && a is Sent ==> c.expects(a),
        c.stage is Receiving && a is Received ==> c.expects(a),
        c.stage is Finished ==> !c.expects(a),
        returned(action) is Some <==> action is Return || action is CancelAndReturn,
        action matches Action::Return(code) ==> returned(action) == Some(code),
        action matches Action::CancelAndReturn(_, code) ==> returned(action) == Some(code),
{
}

} // verus!
