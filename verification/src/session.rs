//! Authentication sessions: who may start one, and how the frames of one decide it.
use crate::config::{Config, NotifyConfig};
use crate::error::DaemonError;
use crate::geometry::{AuthState, FaceMetrics, StateMachine};
use crate::inference::InferenceResult;
use crate::liveness::{is_stable, recorded, LivenessWindow, WINDOW};
use crate::protocol::{AuthOutcome, DaemonMessage, FeedbackState, PamRequest, PROTOCOL_VERSION};
use crate::scalar::{is_maximum, maximum, Scalar, NEG_INFINITY};
use vstd::prelude::*;

verus! {

/// Lets one session run at a time.
#[derive(Debug)]
pub struct SessionManager {
    pub active: Option<ActiveSession>,
}

/// The session that is running.
#[derive(Debug, Clone, Copy, PartialEq, Eq, Structural)]
pub struct ActiveSession {
    pub session_id: u64,
}

impl View for SessionManager {
    type V = Option<u64>;

    open spec fn view(&self) -> Option<u64> {
        match self.active {
            Some(a) => Some(a.session_id),
            None => None,
        }
    }
}

/// What comes of starting a session while `running` runs: what runs afterwards, and whether it
/// was started.
pub open spec fn started(running: Option<u64>, id: u64) -> (Option<u64>, bool) {
    match running {
        None => (Some(id), true),
        Some(_) => (running, false),
    }
}

/// What runs after the session `id` was ended.
pub open spec fn ended(running: Option<u64>, id: u64) -> Option<u64> {
    if running == Some(id) {
        None
    } else {
        running
    }
}

impl SessionManager {
    /// A manager with no session running.
    pub fn new() -> (r: SessionManager)
        ensures
            r@ is None,
    {
        SessionManager { active: None }
    }

    /// Starts a session, unless one is running.
    pub fn try_start(&mut self, session_id: u64) -> (r: Result<(), DaemonError>)
        ensures
            (final(self)@, r is Ok) == started(old(self)@, session_id),
            r matches Err(e) ==> e is SessionBusy,
    {
        if self.active.is_some() {
            return Err(DaemonError::SessionBusy);
        }
        self.active = Some(ActiveSession { session_id });
        Ok(())
    }

    /// Ends the session with this id. Another session goes on.
    pub fn end(&mut self, session_id: u64)
        ensures
            final(self)@ == ended(old(self)@, session_id),
    {
        if let Some(active) = self.active {
            if active.session_id == session_id {
                self.active = None;
            }
        }
    }

    /// Whether a session is running.
    pub fn is_active(&self) -> (r: bool)
        ensures
            r == (self@ is Some),
    {
        self.active.is_some()
    }
}

/// What the daemon does about a request.
#[derive(Debug)]
pub enum RequestAction {
    /// Run the session.
    Start {
        session_id: u64,
        username: String,
        /// Whether the client speaks this version of the protocol. It is served either way.
        version_matches: bool,
    },
    /// Send the message and close the connection.
    Reject(DaemonMessage),
    /// Nothing is sent.
    Nothing,
}

/// Decides what a request comes to. A session is started only where none is running; a request
/// that comes too early is answered with a failure; a cancellation ends its session.
pub fn handle_request(manager: &mut SessionManager, request: PamRequest) -> (r: RequestAction)
    ensures
        match request {
            PamRequest::Auth { version, username, session_id } => match old(manager)@ {
                None => {
                    &&& final(manager)@ == Some(session_id)
                    &&& r == (RequestAction::Start {
                        session_id,
                        username,
                        version_matches: version == PROTOCOL_VERSION,
                    })
                },
                Some(_) => {
                    &&& final(manager)@ == old(manager)@
                    &&& r == RequestAction::Reject(
                        DaemonMessage::AuthResult { session_id, outcome: AuthOutcome::Failed },
                    )
                },
            },
            PamRequest::Cancel { session_id } => {
                &&& r == RequestAction::Nothing
                &&& final(manager)@ == ended(old(manager)@, session_id)
            },
        },
{
    match request {
        PamRequest::Auth { version, username, session_id } => {
            match manager.try_start(session_id) {
                Ok(()) => RequestAction::Start {
                    session_id,
                    username,
                    version_matches: version == PROTOCOL_VERSION,
                },
                Err(_) => RequestAction::Reject(
                    DaemonMessage::AuthResult { session_id, outcome: AuthOutcome::Failed },
                ),
            }
        },
        PamRequest::Cancel { session_id } => {
            manager.end(session_id);
            RequestAction::Nothing
        },
    }
}

/// The first message of a session: that scanning has begun, or, for someone who is not enrolled,
/// that the session has failed already.
pub fn opening_message(session_id: u64, enrolled: bool) -> (r: DaemonMessage)
    ensures
        r == if enrolled {
            DaemonMessage::Feedback { session_id, state: FeedbackState::Scanning }
        } else {
            DaemonMessage::AuthResult { session_id, outcome: AuthOutcome::Failed }
        },
{
    if enrolled {
        DaemonMessage::Feedback { session_id, state: FeedbackState::Scanning }
    } else {
        DaemonMessage::AuthResult { session_id, outcome: AuthOutcome::Failed }
    }
}

/// The last message of a session that could not run: it is no failure of the face, so that the
/// client leaves the decision to the password.
pub fn failure_message(session_id: u64) -> (r: DaemonMessage)
    ensures
        r == (DaemonMessage::AuthResult { session_id, outcome: AuthOutcome::DaemonUnavailable }),
{
    DaemonMessage::AuthResult { session_id, outcome: AuthOutcome::DaemonUnavailable }
}

/// What a session requires of a face.
#[derive(Debug, Clone, Copy, PartialEq, Eq, Structural)]
pub struct MatchRules {
    /// The similarity from which a face matches.
    pub threshold: Scalar,
    /// The similarity from which one match is enough: a tenth above the threshold.
    pub confident: Scalar,
    /// How many matches in a row are enough otherwise.
    pub frames_required: u32,
}

/// Whether the best of the similarities reaches the bound. Without any the best is negative
/// infinity.
pub open spec fn best_reaches(similarities: Seq<Scalar>, bound: Scalar) -> bool {
    ||| (Scalar { bits: NEG_INFINITY }).reaches(bound)
    ||| exists|i: int| 0 <= i < similarities.len() && (#[trigger] similarities[i]).reaches(bound)
}

/// The best similarity settles whether a bound is reached.
pub proof fn lemma_best_decides(best: Scalar, similarities: Seq<Scalar>, bound: Scalar)
    requires
        is_maximum(best, Scalar { bits: NEG_INFINITY }, similarities),
    ensures
        best.reaches(bound) == best_reaches(similarities, bound),
{
    let floor = Scalar { bits: NEG_INFINITY };
    assert(!floor.nan());
    if best.reaches(bound) && best != floor {
        let i = choose|i: int| 0 <= i < similarities.len() && #[trigger] similarities[i] == best;
        assert(similarities[i].reaches(bound));
    }
}

/// A session as its contracts speak of it.
pub struct SessionState {
    pub machine: StateMachine,
    pub last_feedback: Option<FeedbackState>,
    pub matches: nat,
    pub history: Seq<bool>,
}

/// A frame as a session sees it.
pub struct FrameView {
    pub metrics: Option<FaceMetrics>,
    /// The similarity of the face to each enrolled one, where it was computed.
    pub similarities: Option<Seq<Scalar>>,
    pub is_live: Option<bool>,
}

/// What a frame leads to.
pub struct Verdict {
    pub next: SessionState,
    pub send: Option<FeedbackState>,
    pub success: bool,
}

impl SessionState {
    /// The part of a step that follows once recognition is announced. The similarity counts only
    /// where the face has been live steadily; where no frame was judged, it has not.
    pub open spec fn recognise(
        self,
        rules: MatchRules,
        is_live: Option<bool>,
        similarities: Option<Seq<Scalar>>,
    ) -> (SessionState, bool) {
        let history = match is_live {
            Some(live) => recorded(self.history, live),
            None => self.history,
        };
        let s = SessionState { history, ..self };
        if is_live == Some(false) || !is_stable(history) {
            (SessionState { matches: 0, ..s }, false)
        } else {
            match similarities {
                None => (s, false),
                Some(sims) => if !best_reaches(sims, rules.threshold) {
                    (SessionState { matches: 0, ..s }, false)
                } else {
                    let matches = self.matches + 1;
                    let required = if best_reaches(sims, rules.confident) {
                        1
                    } else {
                        rules.frames_required as nat
                    };
                    (SessionState { matches, ..s }, matches >= required)
                },
            }
        }
    }

    /// One frame of a session.
    pub open spec fn step(self, rules: MatchRules, frame: FrameView, now: u128) -> Verdict {
        let (machine, feedback) = self.machine.spec_transition(frame.metrics, now);
        let s = SessionState { machine, ..self };
        match feedback {
            None => Verdict { next: s, send: None, success: false },
            Some(f) => {
                let send = if self.last_feedback == Some(f) {
                    None
                } else {
                    Some(f)
                };
                let s = SessionState { last_feedback: Some(f), ..s };
                if f == FeedbackState::Authenticating {
                    let (next, success) = s.recognise(rules, frame.is_live, frame.similarities);
                    Verdict { next, send, success }
                } else if f == FeedbackState::Scanning {
                    Verdict {
                        next: SessionState { matches: 0, history: Seq::empty(), ..s },
                        send,
                        success: false,
                    }
                } else {
                    let matches = if self.matches > 0 {
                        (self.matches - 1) as nat
                    } else {
                        0
                    };
                    Verdict { next: SessionState { matches, ..s }, send, success: false }
                }
            },
        }
    }

    /// What holds between the frames of a session: the window is not overfull, and the matches
    /// are fewer than would have ended it.
    pub open spec fn wf(self, rules: MatchRules) -> bool {
        &&& self.history.len() <= WINDOW
        &&& self.matches == 0 || self.matches < rules.frames_required
    }
}

/// A running session.
#[derive(Debug)]
pub struct AuthSession {
    pub machine: StateMachine,
    pub last_feedback: Option<FeedbackState>,
    pub consecutive_matches: u32,
    pub liveness: LivenessWindow,
    pub rules: MatchRules,
    pub start: u128,
    pub timeout: u128,
}

/// What is to be done after a frame.
#[derive(Debug, Clone, Copy, PartialEq, Eq, Structural)]
pub struct StepAction {
    /// Guidance to send to the client.
    pub send: Option<FeedbackState>,
    /// Whether the session has succeeded.
    pub success: bool,
}

/// What a session waits for.
#[derive(Debug, Clone, Copy, PartialEq, Eq, Structural)]
pub enum Poll {
    /// Wait so many nanoseconds for the next frame.
    Wait(u128),
    /// The time is over.
    TimedOut,
}

/// How the result of a frame and the similarities of its face look to a session.
pub open spec fn frame_view(result: InferenceResult, similarities: Seq<Scalar>) -> FrameView {
    match result {
        InferenceResult::NoFace => FrameView { metrics: None, similarities: None, is_live: None },
        InferenceResult::Metrics { metrics, embedding, is_live } => FrameView {
            metrics: Some(metrics),
            similarities: if embedding is Some {
                Some(similarities)
            } else {
                None
            },
            is_live,
        },
    }
}

impl View for AuthSession {
    type V = SessionState;

    open spec fn view(&self) -> SessionState {
        SessionState {
            machine: self.machine,
            last_feedback: self.last_feedback,
            matches: self.consecutive_matches as nat,
            history: self.liveness@,
        }
    }
}

impl AuthSession {
    /// What holds between the frames of a session.
    pub open spec fn wf(self) -> bool {
        self@.wf(self.rules)
    }

    /// A session that starts now. `confident` is the threshold and a tenth.
    pub fn new(config: &Config, confident: Scalar, now: u128) -> (r: AuthSession)
        ensures
            r.wf(),
            r@.machine.state == AuthState::Idle,
            r@.machine.last_guidance_change is None,
            r@.machine.geo_config == config.geometry,
            r@.machine.debounce == config.geometry.guidance_debounce_ms * 1_000_000,
            r@.last_feedback is None,
            r@.matches == 0,
            r@.history == Seq::<bool>::empty(),
            r.rules == (MatchRules {
                threshold: config.recognition.threshold,
                confident,
                frames_required: config.recognition.frames_required,
            }),
            r.start == now,
            r.timeout == config.daemon.session_timeout_s * 1_000_000_000,
    {
        AuthSession {
            machine: StateMachine::new(&config.geometry),
            last_feedback: None,
            consecutive_matches: 0,
            liveness: LivenessWindow::new(),
            rules: MatchRules {
                threshold: config.recognition.threshold,
                confident,
                frames_required: config.recognition.frames_required,
            },
            start: now,
            timeout: config.daemon.session_timeout_s as u128 * 1_000_000_000,
        }
    }

    /// Whether the session may go on, and how long it waits for the next frame: up to 200 ms,
    /// and not past its end.
    pub fn poll(&self, now: u128) -> (r: Poll)
        ensures
            r == {
                let elapsed = if now > self.start {
                    now - self.start
                } else {
                    0
                };
                if elapsed >= self.timeout {
                    Poll::TimedOut
                } else if self.timeout - elapsed < 200_000_000 {
                    Poll::Wait((self.timeout - elapsed) as u128)
                } else {
                    Poll::Wait(200_000_000)
                }
            },
            r matches Poll::Wait(t) ==> t > 0 && now + t <= self.start + self.timeout,
    {
        let elapsed: u128 = if now > self.start {
            now - self.start
        } else {
            0
        };
        if elapsed >= self.timeout {
            return Poll::TimedOut;
        }
        let remaining: u128 = self.timeout - elapsed;
        if remaining < 200_000_000 {
            Poll::Wait(remaining)
        } else {
            Poll::Wait(200_000_000)
        }
    }

    /// Takes in a frame. `similarities` holds the similarity of its face to each enrolled one,
    /// and is read only where the frame has an embedding.
    pub fn step(&mut self, result: &InferenceResult, similarities: &Vec<Scalar>, now: u128) -> (r:
        StepAction)
        requires
            old(self).wf(),
        ensures
            ({
                let v = old(self)@.step(
                    old(self).rules,
                    frame_view(*result, similarities@),
                    now,
                );
                &&& final(self)@ == v.next
                &&& r == StepAction { send: v.send, success: v.success }
            }),
            final(self).rules == old(self).rules,
            final(self).start == old(self).start,
            final(self).timeout == old(self).timeout,
            !r.success ==> final(self).wf(),
    {
        let feedback = match result {
            InferenceResult::NoFace => self.machine.transition(None, now),
            InferenceResult::Metrics { metrics, .. } => self.machine.transition(Some(metrics), now),
        };
        let f = match feedback {
            None => {
                return StepAction { send: None, success: false };
            },
            Some(f) => f,
        };
        let send = match self.last_feedback {
            Some(last) if last == f => None,
            _ => Some(f),
        };
        self.last_feedback = Some(f);
        if f == FeedbackState::Authenticating {
            let success = match result {
                InferenceResult::NoFace => false,
                InferenceResult::Metrics { embedding, is_live, .. } => self.recognise(
                    embedding.is_some(),
                    *is_live,
                    similarities,
                ),
            };
            StepAction { send, success }
        } else if f == FeedbackState::Scanning {
            self.consecutive_matches = 0;
            self.liveness.clear();
            StepAction { send, success: false }
        } else {
            if self.consecutive_matches > 0 {
                self.consecutive_matches = self.consecutive_matches - 1;
            }
            StepAction { send, success: false }
        }
    }

    fn recognise(
        &mut self,
        embedded: bool,
        is_live: Option<bool>,
        similarities: &Vec<Scalar>,
    ) -> (r: bool)
        requires
            old(self).wf(),
        ensures
            (final(self)@, r) == old(self)@.recognise(
                old(self).rules,
                is_live,
                if embedded {
                    Some(similarities@)
                } else {
                    None
                },
            ),
            final(self).rules == old(self).rules,
            final(self).start == old(self).start,
            final(self).timeout == old(self).timeout,
            !r ==> final(self).wf(),
    {
        if let Some(live) = is_live {
            self.liveness.record(live);
        }
        if let Some(live) = is_live {
            if !live {
                self.consecutive_matches = 0;
                return false;
            }
        }
        if !self.liveness.stable() {
            self.consecutive_matches = 0;
            return false;
        }
        if !embedded {
            return false;
        }
        let best = maximum(Scalar { bits: NEG_INFINITY }, similarities);
        proof {
            lemma_best_decides(best, similarities@, self.rules.threshold);
            lemma_best_decides(best, similarities@, self.rules.confident);
        }
        if best.ge(self.rules.threshold) {
            self.consecutive_matches = self.consecutive_matches + 1;
            let required: u32 = if best.ge(self.rules.confident) {
                1
            } else {
                self.rules.frames_required
            };
            self.consecutive_matches >= required
        } else {
            self.consecutive_matches = 0;
            false
        }
    }
}

/// A desktop notification about a successful authentication.
#[derive(Debug)]
pub struct Notification {
    pub uid: u32,
    /// The bus of the user's session.
    pub address: String,
    pub timeout_ms: i32,
}

/// Where the session bus of a user is.
pub open spec fn bus_address(uid: u32) -> Seq<char> {
    "unix:path=/run/user/"@ + crate::text::decimal(uid as nat) + "/bus"@
}

/// The notification to send after a session: one for a success, where notifications are wanted
/// and the user's number is known.
pub fn notification(outcome: AuthOutcome, config: &NotifyConfig, uid: Option<u32>) -> (r: Option<
    Notification,
>)
    ensures
        match r {
            Some(n) => {
                &&& outcome == AuthOutcome::Success
                &&& config.enabled
                &&& uid == Some(n.uid)
                &&& n.address@ == bus_address(n.uid)
                &&& n.timeout_ms == config.timeout_ms
            },
            None => outcome != AuthOutcome::Success || !config.enabled || uid is None,
        },
{
    if outcome != AuthOutcome::Success || !config.enabled {
        return None;
    }
    match uid {
        None => None,
        Some(uid) => {
            let mut address: String = "unix:path=/run/user/".to_owned();
            let digits = crate::text::decimal_of(uid as u64);
            address.append(digits.as_str());
            address.append("/bus");
            Some(Notification { uid, address, timeout_ms: config.timeout_ms })
        },
    }
}

// Laws of the session manager.

/// While a session runs, no other starts, and the running one goes on.
pub proof fn one_session_at_a_time(running: u64, wanted: u64)
    ensures
        started(Some(running), wanted) == (Some(running), false),
{
}

/// Ending a session that is not running changes nothing.
pub proof fn ending_another_changes_nothing(running: Option<u64>, other: u64)
    requires
        running != Some(other),
    ensures
        ended(running, other) == running,
{
}

/// A session that was started and ended leaves the manager free for any other.
pub proof fn ended_session_frees_the_manager(first: u64, second: u64)
    ensures
        started(None, first) == (Some(first), true),
        ended(Some(first), first) is None,
        started(ended(Some(first), first), second) == (Some(second), true),
{
}

// Laws of a session.

/// A step keeps what holds between frames, unless it ends the session.
pub proof fn step_keeps_wf(s: SessionState, rules: MatchRules, frame: FrameView, now: u128)
    requires
        s.wf(rules),
        !s.step(rules, frame, now).success,
    ensures
        s.step(rules, frame, now).next.wf(rules),
{
}

/// A session succeeds only on a frame with a face that gives no cause for complaint, that is not
/// known to be a spoof, after frames that were live steadily, and that resembles an enrolled
/// face closely enough.
pub proof fn success_needs_evidence(s: SessionState, rules: MatchRules, frame: FrameView, now: u128)
    requires
        s.step(rules, frame, now).success,
    ensures
        s.machine.state != AuthState::Done,
        frame.metrics matches Some(m) && crate::geometry::spec_classify(m, s.machine.geo_config)
            == FeedbackState::Authenticating,
        frame.is_live != Some(false),
        is_stable(s.step(rules, frame, now).next.history),
        frame.similarities matches Some(sims) && best_reaches(sims, rules.threshold),
{
}

/// A frame known to be a spoof never succeeds, and costs all matches gathered so far where
/// recognition was under way.
pub proof fn spoof_costs_all_matches(s: SessionState, rules: MatchRules, frame: FrameView, now: u128)
    requires
        frame.is_live == Some(false),
    ensures
        !s.step(rules, frame, now).success,
        s.machine.spec_transition(frame.metrics, now).1 == Some(FeedbackState::Authenticating)
            ==> s.step(rules, frame, now).next.matches == 0,
{
}

/// A face that is lost costs all matches and all liveness gathered so far.
pub proof fn lost_face_starts_over(s: SessionState, rules: MatchRules, frame: FrameView, now: u128)
    requires
        s.machine.spec_transition(frame.metrics, now).1 == Some(FeedbackState::Scanning),
    ensures
        s.step(rules, frame, now).next.matches == 0,
        s.step(rules, frame, now).next.history == Seq::<bool>::empty(),
{
}

/// Guidance in between costs one match only.
pub proof fn guidance_costs_one_match(
    s: SessionState,
    rules: MatchRules,
    frame: FrameView,
    now: u128,
    f: FeedbackState,
)
    requires
        s.machine.spec_transition(frame.metrics, now).1 == Some(f),
        f != FeedbackState::Authenticating,
        f != FeedbackState::Scanning,
    ensures
        s.step(rules, frame, now).next.history == s.history,
        s.matches > 0 ==> s.step(rules, frame, now).next.matches == s.matches - 1,
        s.matches == 0 ==> s.step(rules, frame, now).next.matches == 0,
{
}

/// One match with high confidence is enough.
pub proof fn confident_match_is_enough(
    s: SessionState,
    rules: MatchRules,
    frame: FrameView,
    now: u128,
)
    requires
        s.machine.spec_transition(frame.metrics, now).1 == Some(FeedbackState::Authenticating),
        frame.is_live == Some(true),
        is_stable(recorded(s.history, true)),
        frame.similarities matches Some(sims) && best_reaches(sims, rules.threshold)
            && best_reaches(sims, rules.confident),
    ensures
        s.step(rules, frame, now).success,
{
}

/// The same feedback is not sent twice in a row.
pub proof fn feedback_is_sent_once(s: SessionState, rules: MatchRules, frame: FrameView, now: u128)
    ensures
        s.step(rules, frame, now).send matches Some(f) ==> s.last_feedback != Some(f) && s.step(
            rules,
            frame,
            now,
        ).next.last_feedback == Some(f),
{
}

/// The state after all the frames, each with its time, provided none of them ended the session.
pub open spec fn run(s: SessionState, rules: MatchRules, frames: Seq<(FrameView, u128)>) -> SessionState
    decreases frames.len(),
{
    if frames.len() == 0 {
        s
    } else {
        run(s, rules, frames.drop_last()).step(rules, frames.last().0, frames.last().1).next
    }
}

/// Without a match of high confidence a session needs at least as many frames as are required.
pub proof fn success_takes_enough_frames(
    s: SessionState,
    rules: MatchRules,
    frames: Seq<(FrameView, u128)>,
    frame: FrameView,
    now: u128,
)
    requires
        s.matches == 0,
        run(s, rules, frames).step(rules, frame, now).success,
        frame.similarities matches Some(sims) ==> !best_reaches(sims, rules.confident),
    ensures
        frames.len() + 1 >= rules.frames_required,
{
    lemma_matches_bound(s, rules, frames);
}

proof fn lemma_matches_bound(s: SessionState, rules: MatchRules, frames: Seq<(FrameView, u128)>)
    requires
        s.matches == 0,
    ensures
        run(s, rules, frames).matches <= frames.len(),
    decreases frames.len(),
{
    if frames.len() > 0 {
        lemma_matches_bound(s, rules, frames.drop_last());
    }
}

/// A session in which liveness is never judged never succeeds.
pub proof fn unjudged_session_never_succeeds(
    s: SessionState,
    rules: MatchRules,
    frames: Seq<(FrameView, u128)>,
    frame: FrameView,
    now: u128,
)
    requires
        s.history == Seq::<bool>::empty(),
        forall|i: int| 0 <= i < frames.len() ==> (#[trigger] frames[i]).0.is_live is None,
        frame.is_live is None,
    ensures
        !run(s, rules, frames).step(rules, frame, now).success,
{
    lemma_no_history(s, rules, frames);
}

proof fn lemma_no_history(s: SessionState, rules: MatchRules, frames: Seq<(FrameView, u128)>)
    requires
        s.history == Seq::<bool>::empty(),
        forall|i: int| 0 <= i < frames.len() ==> (#[trigger] frames[i]).0.is_live is None,
    ensures
        run(s, rules, frames).history == Seq::<bool>::empty(),
    decreases frames.len(),
{
    if frames.len() > 0 {
        let prior = frames.drop_last();
        assert forall|i: int| 0 <= i < prior.len() implies (#[trigger] prior[i]).0.is_live is None by {
            assert(prior[i] == frames[i]);
        }
        lemma_no_history(s, rules, prior);
    }
}

/// What the frame `i` of a session leads to.
pub open spec fn verdict_at(
    s: SessionState,
    rules: MatchRules,
    frames: Seq<(FrameView, u128)>,
    i: int,
) -> Verdict {
    run(s, rules, frames.take(i)).step(rules, frames[i].0, frames[i].1)
}

/// Whether a session has succeeded by the frame `n`.
pub open spec fn succeeded_by(
    s: SessionState,
    rules: MatchRules,
    frames: Seq<(FrameView, u128)>,
    n: int,
) -> bool {
    exists|i: int| 0 <= i <= n && i < frames.len() && (#[trigger] verdict_at(s, rules, frames, i)).success
}

/// Whether every similarity of `few` is among those of `more`, in whatever order.
pub open spec fn included(few: Seq<Scalar>, more: Seq<Scalar>) -> bool {
    forall|i: int| 0 <= i < few.len() ==> more.contains(#[trigger] few[i])
}

/// Whether two frames differ in their similarities alone, and those of the first are among those
/// of the second.
pub open spec fn extends(few: FrameView, more: FrameView) -> bool {
    &&& few.metrics == more.metrics
    &&& few.is_live == more.is_live
    &&& match (few.similarities, more.similarities) {
        (Some(a), Some(b)) => included(a, b),
        (None, None) => true,
        _ => false,
    }
}

proof fn lemma_included_reaches(few: Seq<Scalar>, more: Seq<Scalar>, bound: Scalar)
    requires
        included(few, more),
    ensures
        best_reaches(few, bound) ==> best_reaches(more, bound),
{
    if best_reaches(few, bound) && !(Scalar { bits: NEG_INFINITY }).reaches(bound) {
        let i = choose|i: int| 0 <= i < few.len() && (#[trigger] few[i]).reaches(bound);
        let k = choose|k: int| 0 <= k < more.len() && more[k] == few[i];
        assert(more[k].reaches(bound));
    }
}

/// Whether two states of a session differ in their matches alone, and `b` has no fewer.
spec fn no_worse(a: SessionState, b: SessionState) -> bool {
    &&& a.machine == b.machine
    &&& a.last_feedback == b.last_feedback
    &&& a.history == b.history
    &&& a.matches <= b.matches
}

proof fn lemma_step_no_worse(
    a: SessionState,
    b: SessionState,
    rules: MatchRules,
    few: FrameView,
    more: FrameView,
    now: u128,
)
    requires
        no_worse(a, b),
        extends(few, more),
    ensures
        no_worse(a.step(rules, few, now).next, b.step(rules, more, now).next),
        a.step(rules, few, now).success ==> b.step(rules, more, now).success,
{
    if let (Some(x), Some(y)) = (few.similarities, more.similarities) {
        lemma_included_reaches(x, y, rules.threshold);
        lemma_included_reaches(x, y, rules.confident);
    }
}

proof fn lemma_run_no_worse(
    s: SessionState,
    rules: MatchRules,
    few: Seq<(FrameView, u128)>,
    more: Seq<(FrameView, u128)>,
)
    requires
        few.len() == more.len(),
        forall|i: int|
            0 <= i < few.len() ==> extends((#[trigger] few[i]).0, more[i].0) && few[i].1 == more[i].1,
    ensures
        no_worse(run(s, rules, few), run(s, rules, more)),
    decreases few.len(),
{
    if few.len() > 0 {
        let (a, b) = (few.drop_last(), more.drop_last());
        assert forall|i: int| 0 <= i < a.len() implies extends((#[trigger] a[i]).0, b[i].0) && a[i].1
            == b[i].1 by {
            assert(a[i] == few[i]);
        }
        lemma_run_no_worse(s, rules, a, b);
        let last = few.len() - 1;
        assert(extends(few[last].0, more[last].0));
        lemma_step_no_worse(
            run(s, rules, a),
            run(s, rules, b),
            rules,
            few[last].0,
            more[last].0,
            few[last].1,
        );
    }
}

/// More enrolled faces never hurt: a session that succeeds with some of them has succeeded with all
/// of them by the same frame, in whatever order they are kept.
pub proof fn more_embeddings_never_hurt(
    s: SessionState,
    rules: MatchRules,
    few: Seq<(FrameView, u128)>,
    more: Seq<(FrameView, u128)>,
    n: int,
)
    requires
        few.len() == more.len(),
        forall|i: int|
            0 <= i < few.len() ==> extends((#[trigger] few[i]).0, more[i].0) && few[i].1 == more[i].1,
        succeeded_by(s, rules, few, n),
    ensures
        succeeded_by(s, rules, more, n),
{
    let i = choose|i: int|
        0 <= i <= n && i < few.len() && (#[trigger] verdict_at(s, rules, few, i)).success;
    let (a, b) = (few.take(i), more.take(i));
    assert forall|k: int| 0 <= k < a.len() implies extends((#[trigger] a[k]).0, b[k].0) && a[k].1
        == b[k].1 by {
        assert(a[k] == few[k]);
    }
    lemma_run_no_worse(s, rules, a, b);
    assert(extends(few[i].0, more[i].0));
    lemma_step_no_worse(run(s, rules, a), run(s, rules, b), rules, few[i].0, more[i].0, few[i].1);
    assert(verdict_at(s, rules, more, i).success);
}

proof fn lemma_same_course(
    s: SessionState,
    rules: MatchRules,
    a: Seq<(FrameView, u128)>,
    b: Seq<(FrameView, u128)>,
)
    requires
        a.len() == b.len(),
        forall|i: int|
            0 <= i < a.len() ==> (#[trigger] a[i]).0.metrics == b[i].0.metrics && a[i].1 == b[i].1,
    ensures
        run(s, rules, a).machine == run(s, rules, b).machine,
        run(s, rules, a).last_feedback == run(s, rules, b).last_feedback,
    decreases a.len(),
{
    if a.len() > 0 {
        let (x, y) = (a.drop_last(), b.drop_last());
        assert forall|i: int| 0 <= i < x.len() implies (#[trigger] x[i]).0.metrics == y[i].0.metrics
            && x[i].1 == y[i].1 by {
            assert(x[i] == a[i]);
        }
        lemma_same_course(s, rules, x, y);
        assert(a[a.len() - 1].0.metrics == b[b.len() - 1].0.metrics);
    }
}

/// From outside a spoof cannot be told from a face that does not match: as long as neither succeeds,
/// two sessions with the same measurements send the same, whatever was judged of liveness and
/// however similar the faces are.
pub proof fn spoof_looks_like_a_stranger(
    s: SessionState,
    rules: MatchRules,
    a: Seq<(FrameView, u128)>,
    b: Seq<(FrameView, u128)>,
    n: int,
)
    requires
        a.len() == b.len(),
        forall|i: int|
            0 <= i < a.len() ==> (#[trigger] a[i]).0.metrics == b[i].0.metrics && a[i].1 == b[i].1,
        0 <= n < a.len(),
        !succeeded_by(s, rules, a, n),
        !succeeded_by(s, rules, b, n),
    ensures
        verdict_at(s, rules, a, n).send == verdict_at(s, rules, b, n).send,
        !verdict_at(s, rules, a, n).success,
        !verdict_at(s, rules, b, n).success,
{
    let (x, y) = (a.take(n), b.take(n));
    assert forall|i: int| 0 <= i < x.len() implies (#[trigger] x[i]).0.metrics == y[i].0.metrics
        && x[i].1 == y[i].1 by {
        assert(x[i] == a[i]);
    }
    lemma_same_course(s, rules, x, y);
    assert(a[n].0.metrics == b[n].0.metrics);
}

/// Whether a frame shows a face that gives no cause for complaint.
pub open spec fn recognisable(machine: StateMachine, frame: FrameView) -> bool {
    frame.metrics matches Some(m) && crate::geometry::spec_classify(m, machine.geo_config)
        == FeedbackState::Authenticating
}

/// Whether the face of a frame was compared and resembles an enrolled one closely enough.
pub open spec fn matching(machine: StateMachine, rules: MatchRules, frame: FrameView) -> bool {
    &&& recognisable(machine, frame)
    &&& frame.is_live != Some(false)
    &&& frame.similarities matches Some(sims) && best_reaches(sims, rules.threshold)
}

/// Whether a frame breaks a row of matches: its face is a spoof, or was compared and resembles no
/// enrolled one closely enough.
pub open spec fn breaking(machine: StateMachine, rules: MatchRules, frame: FrameView) -> bool {
    &&& recognisable(machine, frame)
    &&& frame.is_live == Some(false) || (frame.similarities matches Some(sims) && !best_reaches(
        sims,
        rules.threshold,
    ))
}

/// How many of the frames from `from` up to `to` match.
pub open spec fn matching_count(
    machine: StateMachine,
    rules: MatchRules,
    frames: Seq<(FrameView, u128)>,
    from: int,
    to: int,
) -> nat
    decreases to - from,
{
    if to <= from {
        0
    } else {
        matching_count(machine, rules, frames, from, to - 1) + if matching(
            machine,
            rules,
            frames[to - 1].0,
        ) {
            1nat
        } else {
            0nat
        }
    }
}

/// Whether no frame from `from` up to `to` breaks a row of matches.
pub open spec fn unbroken(
    machine: StateMachine,
    rules: MatchRules,
    frames: Seq<(FrameView, u128)>,
    from: int,
    to: int,
) -> bool {
    forall|k: int| from <= k < to ==> !breaking(machine, rules, (#[trigger] frames[k]).0)
}

proof fn lemma_row(s: SessionState, rules: MatchRules, frames: Seq<(FrameView, u128)>, n: int) -> (from:
    int)
    requires
        s.matches == 0,
        s.machine.state != AuthState::Done,
        0 <= n <= frames.len(),
    ensures
        0 <= from <= n,
        unbroken(s.machine, rules, frames, from, n),
        ({
            let t = run(s, rules, frames.take(n));
            &&& t.machine.geo_config == s.machine.geo_config
            &&& t.machine.state != AuthState::Done
            &&& t.matches <= matching_count(s.machine, rules, frames, from, n)
        }),
    decreases n,
{
    if n == 0 {
        0
    } else {
        let from = lemma_row(s, rules, frames, n - 1);
        let now = frames.take(n);
        assert(now.drop_last() =~= frames.take(n - 1));
        assert(now.last() == frames[n - 1]);
        if breaking(s.machine, rules, frames[n - 1].0) {
            n
        } else {
            from
        }
    }
}

/// Without a match of high confidence a session succeeds only by as many matches as are required,
/// with no spoof and no mismatch between them: they are matches in a row.
pub proof fn success_needs_matches_in_a_row(
    s: SessionState,
    rules: MatchRules,
    frames: Seq<(FrameView, u128)>,
    n: int,
)
    requires
        s.matches == 0,
        s.machine.state != AuthState::Done,
        0 <= n < frames.len(),
        verdict_at(s, rules, frames, n).success,
        frames[n].0.similarities matches Some(sims) ==> !best_reaches(sims, rules.confident),
    ensures
        matching(s.machine, rules, frames[n].0),
        exists|from: int|
            0 <= from <= n && #[trigger] unbroken(s.machine, rules, frames, from, n + 1)
                && matching_count(s.machine, rules, frames, from, n + 1) >= rules.frames_required,
{
    let from = lemma_row(s, rules, frames, n);
    assert(unbroken(s.machine, rules, frames, from, n + 1));
}

/// A face that was compared and resembles no enrolled one closely enough costs all matches gathered
/// so far, however many they are.
pub proof fn mismatch_costs_all_matches(s: SessionState, rules: MatchRules, frame: FrameView, now: u128)
    requires
        s.machine.state != AuthState::Done,
        recognisable(s.machine, frame),
        frame.similarities matches Some(sims) && (forall|i: int|
            0 <= i < sims.len() ==> !(#[trigger] sims[i]).reaches(rules.threshold)),
        !(Scalar { bits: 0xff80_0000 }).reaches(rules.threshold),
    ensures
        s.step(rules, frame, now).next.matches == 0,
        !s.step(rules, frame, now).success,
{
}

/// A face that was live steadily and resembles an enrolled one closely enough is one more match, and
/// the session succeeds with it where that is enough: one of high confidence, or as many in a row as
/// are required.
pub proof fn match_adds_one(s: SessionState, rules: MatchRules, frame: FrameView, now: u128, best: int)
    requires
        s.machine.state != AuthState::Done,
        recognisable(s.machine, frame),
        frame.is_live != Some(false),
        is_stable(
            match frame.is_live {
                Some(live) => recorded(s.history, live),
                None => s.history,
            },
        ),
        frame.similarities matches Some(sims) && 0 <= best < sims.len() && sims[best].reaches(
            rules.threshold,
        ) && (forall|i: int| 0 <= i < sims.len() ==> !sims[best].below(#[trigger] sims[i])) && (
        forall|i: int| 0 <= i < sims.len() ==> !(#[trigger] sims[i]).nan()),
    ensures
        s.step(rules, frame, now).next.matches == s.matches + 1,
        ({
            let sims = frame.similarities->0;
            let sure = sims[best].reaches(rules.confident) || (Scalar { bits: 0xff80_0000 }).reaches(
                rules.confident,
            );
            s.step(rules, frame, now).success <==> sure || s.matches + 1 >= rules.frames_required
        }),
{
    let sims = frame.similarities->0;
    assert(sims[best].reaches(rules.threshold));
    if best_reaches(sims, rules.confident) && !(Scalar { bits: NEG_INFINITY }).reaches(
        rules.confident,
    ) {
        let i = choose|i: int| 0 <= i < sims.len() && (#[trigger] sims[i]).reaches(rules.confident);
        assert(!sims[best].below(sims[i]));
    }
}

/// A face that was not live steadily costs all matches, however similar it is.
pub proof fn unsteady_face_costs_all_matches(
    s: SessionState,
    rules: MatchRules,
    frame: FrameView,
    now: u128,
)
    requires
        s.machine.state != AuthState::Done,
        recognisable(s.machine, frame),
        !is_stable(
            match frame.is_live {
                Some(live) => recorded(s.history, live),
                None => s.history,
            },
        ),
    ensures
        s.step(rules, frame, now).next.matches == 0,
        !s.step(rules, frame, now).success,
{
}

/// A steady face that was not compared adds no match and costs none.
pub proof fn face_not_compared_changes_nothing(
    s: SessionState,
    rules: MatchRules,
    frame: FrameView,
    now: u128,
)
    requires
        recognisable(s.machine, frame),
        frame.is_live == Some(true),
        is_stable(recorded(s.history, true)),
        frame.similarities is None,
    ensures
        s.step(rules, frame, now).next.matches == s.matches,
        !s.step(rules, frame, now).success,
{
}

/// Whether a face is live is noted exactly for a face that is being recognised, and only where it was
/// judged. Nothing else but a lost face changes what was noted.
pub proof fn liveness_is_noted(s: SessionState, rules: MatchRules, frame: FrameView, now: u128)
    requires
        s.machine.state != AuthState::Done,
    ensures
        s.step(rules, frame, now).next.history == if recognisable(s.machine, frame) {
            match frame.is_live {
                Some(live) => recorded(s.history, live),
                None => s.history,
            }
        } else if s.machine.spec_transition(frame.metrics, now).1 == Some(FeedbackState::Scanning) {
            Seq::empty()
        } else {
            s.history
        },
{
}

/// A frame that brings no feedback changes nothing but the machine, and every other brings the
/// feedback that is due: it is remembered, and sent unless it was the last.
pub proof fn due_feedback_is_sent(s: SessionState, rules: MatchRules, frame: FrameView, now: u128)
    ensures
        ({
            let (machine, due) = s.machine.spec_transition(frame.metrics, now);
            let v = s.step(rules, frame, now);
            &&& v.next.machine == machine
            &&& due is None ==> v.next == (SessionState { machine, ..s }) && v.send is None
                && !v.success
            &&& due is Some ==> v.next.last_feedback == due
            &&& due is Some && s.last_feedback != due ==> v.send == due
            &&& due is Some && s.last_feedback == due ==> v.send is None
        }),
{
}

proof fn lemma_all_live(h: Seq<bool>, live: bool)
    requires
        forall|i: int| 0 <= i < h.len() ==> h[i],
        live,
    ensures
        forall|i: int| 0 <= i < recorded(h, live).len() ==> recorded(h, live)[i],
        recorded(h, live).len() > 0,
{
    let w = recorded(h, live);
    assert forall|i: int| 0 <= i < w.len() implies w[i] by {
        if i < w.len() - 1 {
            if h.len() >= WINDOW {
                assert(w[i] == h[i + 1]);
            } else {
                assert(w[i] == h[i]);
            }
        }
    }
}

proof fn lemma_matches_add_up(
    s: SessionState,
    rules: MatchRules,
    frames: Seq<(FrameView, u128)>,
    n: int,
)
    requires
        s.machine.state != AuthState::Done,
        forall|i: int| 0 <= i < s.history.len() ==> s.history[i],
        0 <= n <= frames.len(),
        forall|k: int|
            0 <= k < frames.len() ==> matching(s.machine, rules, (#[trigger] frames[k]).0)
                && frames[k].0.is_live == Some(true),
    ensures
        ({
            let t = run(s, rules, frames.take(n));
            &&& t.machine.geo_config == s.machine.geo_config
            &&& t.machine.state != AuthState::Done
            &&& t.matches == s.matches + n
            &&& forall|i: int| 0 <= i < t.history.len() ==> t.history[i]
        }),
        n < frames.len() ==> (verdict_at(s, rules, frames, n).success <== s.matches + n + 1
            >= rules.frames_required),
    decreases n,
{
    if n > 0 {
        lemma_matches_add_up(s, rules, frames, n - 1);
        let now = frames.take(n);
        assert(now.drop_last() =~= frames.take(n - 1));
        assert(now.last() == frames[n - 1]);
        assert(matching(s.machine, rules, frames[n - 1].0));
        let t = run(s, rules, frames.take(n - 1));
        lemma_all_live(t.history, true);
        crate::liveness::unanimous_frames_decide(recorded(t.history, true));
    } else {
        assert(frames.take(0) =~= Seq::<(FrameView, u128)>::empty());
    }
    if n < frames.len() {
        let t = run(s, rules, frames.take(n));
        assert(matching(s.machine, rules, frames[n].0));
        lemma_all_live(t.history, true);
        crate::liveness::unanimous_frames_decide(recorded(t.history, true));
    }
}

/// As many matching frames in a row as are required, all of them live, are enough.
pub proof fn matches_in_a_row_are_enough(
    s: SessionState,
    rules: MatchRules,
    frames: Seq<(FrameView, u128)>,
)
    requires
        s.machine.state != AuthState::Done,
        forall|i: int| 0 <= i < s.history.len() ==> s.history[i],
        frames.len() > 0,
        frames.len() >= rules.frames_required,
        forall|k: int|
            0 <= k < frames.len() ==> matching(s.machine, rules, (#[trigger] frames[k]).0)
                && frames[k].0.is_live == Some(true),
    ensures
        verdict_at(s, rules, frames, frames.len() - 1).success,
        succeeded_by(s, rules, frames, frames.len() - 1),
{
    lemma_matches_add_up(s, rules, frames, frames.len() - 1);
}

/// A bound is reached exactly where one of the similarities reaches it, unless everything does.
pub proof fn best_similarity_decides(similarities: Seq<Scalar>, bound: Scalar)
    requires
        !(Scalar { bits: 0xff80_0000 }).reaches(bound),
    ensures
        best_reaches(similarities, bound) <==> exists|i: int|
            0 <= i < similarities.len() && (#[trigger] similarities[i]).reaches(bound),
{
}

/// A frame without a face has nothing to compare, and one whose face was not looked at closely enough
/// has no similarities.
pub proof fn only_an_embedding_is_compared(result: InferenceResult, similarities: Seq<Scalar>)
    ensures
        ({
            let v = frame_view(result, similarities);
            &&& v.metrics is None <==> result is NoFace
            &&& v.similarities is Some <==> result is Metrics && result->embedding is Some
            &&& v.similarities is Some ==> v.similarities == Some(similarities)
            &&& result is Metrics ==> v.metrics == Some(result->metrics) && v.is_live == result->is_live
            &&& result is NoFace ==> v.is_live is None
        }),
{
}

/// Every user has a bus of their own.
pub proof fn buses_differ(a: u32, b: u32)
    ensures
        bus_address(a) == bus_address(b) <==> a == b,
{
    if bus_address(a) == bus_address(b) {
        let front = "unix:path=/run/user/"@;
        let back = "/bus"@;
        let (x, y) = (crate::text::decimal(a as nat), crate::text::decimal(b as nat));
        assert((front + x + back).len() == (front + y + back).len());
        assert(x =~= (front + x + back).subrange(front.len() as int, (front.len() + x.len()) as int));
        assert(y =~= (front + y + back).subrange(front.len() as int, (front.len() + y.len()) as int));
        crate::text::decimals_differ(a as nat, b as nat);
    }
}

/// A session waits for a frame up to a fifth of a second, and never past its end.
pub proof fn waiting_ends_with_the_session(s: AuthSession, now: u128, r: Poll)
    requires
        call_ensures(AuthSession::poll, (&s, now), r),
        s.start <= now,
    ensures
        r == Poll::TimedOut <==> now >= s.start + s.timeout,
        r matches Poll::Wait(t) ==> {
            &&& 0 < t <= 200_000_000
            &&& now + t <= s.start + s.timeout
            &&& t == 200_000_000 || now + t == s.start + s.timeout
        },
{
}

/// Someone who is not enrolled is turned away at once. A session that could not run leaves the
/// decision to others.
pub proof fn first_and_last_messages(id: u64, enrolled: bool, first: DaemonMessage, last: DaemonMessage)
    requires
        call_ensures(opening_message, (id, enrolled), first),
        call_ensures(failure_message, (id,), last),
    ensures
        enrolled <==> first is Feedback,
        first matches DaemonMessage::Feedback { session_id, state } ==> session_id == id && state
            == FeedbackState::Scanning,
        first matches DaemonMessage::AuthResult { session_id, outcome } ==> session_id == id && outcome
            == AuthOutcome::Failed,
        last matches DaemonMessage::AuthResult { session_id, outcome } && session_id == id && outcome
            == AuthOutcome::DaemonUnavailable,
{
}

/// Success alone is told on the desktop, where that is wanted and the user is known.
pub proof fn success_alone_is_notified(
    outcome: AuthOutcome,
    config: NotifyConfig,
    uid: Option<u32>,
    r: Option<Notification>,
)
    requires
        call_ensures(notification, (outcome, &config, uid), r),
    ensures
        r is Some <==> outcome == AuthOutcome::Success && config.enabled && uid is Some,
        r matches Some(n) ==> Some(n.uid) == uid && n.timeout_ms == config.timeout_ms,
{
}

} // verus!
