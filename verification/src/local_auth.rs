//! Authentication tests that run without the daemon: one with a debug window, one in the
//! graphical interface. Both keep the best similarity of the whole test.
use crate::config::Config;
use crate::geometry::{AuthState, BBox, FaceMetrics, Landmarks, StateMachine};
use crate::gui::{feedback_str, feedback_text, state_label, state_text, Light};
use crate::liveness::{is_stable, recorded, LivenessWindow, WINDOW};
use crate::protocol::FeedbackState;
use crate::quality::IrLivenessScores;
use crate::scalar::{maximum, spec_maximum, Scalar};
use crate::session::MatchRules;
use vstd::prelude::*;

verus! {

/// Matches in a row, and the best similarity so far.
#[derive(Debug, Clone, Copy, PartialEq, Eq, Structural)]
pub struct Tally {
    pub matches: u32,
    pub best: Scalar,
}

impl Tally {
    /// What holds between frames: the matches are fewer than would have ended the test.
    pub open spec fn wf(self, rules: MatchRules) -> bool {
        self.matches == 0 || self.matches < rules.frames_required
    }

    /// The tally with one more similarity.
    pub open spec fn scored(self, rules: MatchRules, sim: Scalar) -> Tally {
        Tally {
            matches: if sim.reaches(rules.threshold) {
                (self.matches + 1) as u32
            } else {
                0
            },
            best: if self.best.below(sim) {
                sim
            } else {
                self.best
            },
        }
    }

    /// How many matches in a row are enough: one, once a similarity was high; otherwise as many
    /// as the settings ask for.
    pub open spec fn required(self, rules: MatchRules) -> u32 {
        if self.best.reaches(rules.confident) {
            1
        } else {
            rules.frames_required
        }
    }

    /// Whether the matches are enough.
    pub open spec fn enough(self, rules: MatchRules) -> bool {
        self.matches >= self.required(rules)
    }

    fn score(&mut self, rules: &MatchRules, sim: Scalar)
        requires
            old(self).matches < u32::MAX,
        ensures
            *final(self) == old(self).scored(*rules, sim),
    {
        if sim.gt(self.best) {
            self.best = sim;
        }
        if sim.ge(rules.threshold) {
            self.matches = self.matches + 1;
        } else {
            self.matches = 0;
        }
    }

    fn is_enough(&self, rules: &MatchRules) -> (r: bool)
        ensures
            r == self.enough(*rules),
    {
        let required: u32 = if self.best.ge(rules.confident) {
            1
        } else {
            rules.frames_required
        };
        self.matches >= required
    }
}

/// The similarity of nothing, zero.
pub open spec fn zero() -> Scalar {
    Scalar { bits: 0 }
}

/// A border of the debug window: 1 for scanning, 2 for authenticating, 3 for success, 4 for
/// failure.
pub type BorderMode = u8;

/// What the debug window says for a piece of guidance. Recognition needs no words.
pub open spec fn debug_text(f: FeedbackState) -> Seq<char> {
    if f == FeedbackState::Authenticating {
        ""@
    } else {
        feedback_text(f)
    }
}

/// What the debug window says for a piece of guidance.
pub fn feedback_to_string(fb: &FeedbackState) -> (r: &'static str)
    ensures
        r@ == debug_text(*fb),
{
    if *fb == FeedbackState::Authenticating {
        ""
    } else {
        feedback_str(fb)
    }
}

/// The test with the debug window.
#[derive(Debug)]
pub struct DebugAuth {
    pub machine: StateMachine,
    pub liveness: LivenessWindow,
    pub tally: Tally,
    pub rules: MatchRules,
    pub start: u128,
    pub timeout: u128,
}

/// What a face leads to before it is recognised.
#[derive(Debug, Clone, Copy, PartialEq, Eq, Structural)]
pub struct FaceStage {
    /// New guidance.
    pub feedback: Option<FeedbackState>,
    /// Whether the machine is at recognition.
    pub authenticating: bool,
    /// Whether the face has been live steadily.
    pub stable: bool,
}

impl FaceStage {
    /// Whether the face is to be recognised.
    pub open spec fn spec_wants_embedding(self) -> bool {
        self.authenticating && self.stable
    }

    /// Whether the face is to be recognised.
    pub fn wants_embedding(&self) -> (r: bool)
        ensures
            r == self.spec_wants_embedding(),
    {
        self.authenticating && self.stable
    }

    /// Whether the aligned picture is shown: for a face that is recognised, and for one that is
    /// still being guided.
    pub fn shows_crops(&self) -> (r: bool)
        ensures
            r == (self.spec_wants_embedding() || !self.authenticating),
    {
        self.stable || !self.authenticating
    }

    /// What the window says.
    pub fn label(&self) -> (r: &'static str)
        ensures
            r@ == match self.feedback {
                Some(f) => debug_text(f),
                None => if self.authenticating {
                    "Authenticating..."@
                } else {
                    "Detecting..."@
                },
            },
    {
        match &self.feedback {
            Some(f) => feedback_to_string(f),
            None => if self.authenticating {
                "Authenticating..."
            } else {
                "Detecting..."
            },
        }
    }

    /// The border of the window.
    pub fn border(&self) -> (r: BorderMode)
        ensures
            r == if self.authenticating {
                2u8
            } else {
                1u8
            },
    {
        if self.authenticating {
            2
        } else {
            1
        }
    }
}

impl DebugAuth {
    /// What holds between frames.
    pub open spec fn wf(self) -> bool {
        &&& self.liveness@.len() <= WINDOW
        &&& self.tally.wf(self.rules)
    }

    /// A test that starts now. `confident` is the threshold and a tenth.
    pub fn new(config: &Config, confident: Scalar, now: u128) -> (r: DebugAuth)
        ensures
            r.wf(),
            r.machine.state == AuthState::Idle,
            r.machine.last_guidance_change is None,
            r.machine.geo_config == config.geometry,
            r.machine.debounce == config.geometry.guidance_debounce_ms * 1_000_000,
            r.liveness@ == Seq::<bool>::empty(),
            r.tally == (Tally { matches: 0, best: zero() }),
            r.rules == (MatchRules {
                threshold: config.recognition.threshold,
                confident,
                frames_required: config.recognition.frames_required,
            }),
            r.start == now,
            r.timeout == config.daemon.session_timeout_s * 1_000_000_000,
    {
        DebugAuth {
            machine: StateMachine::new(&config.geometry),
            liveness: LivenessWindow::new(),
            tally: Tally { matches: 0, best: Scalar { bits: 0 } },
            rules: MatchRules {
                threshold: config.recognition.threshold,
                confident,
                frames_required: config.recognition.frames_required,
            },
            start: now,
            timeout: config.daemon.session_timeout_s as u128 * 1_000_000_000,
        }
    }

    /// Whether there is time left.
    pub fn in_time(&self, now: u128) -> (r: bool)
        ensures
            r == (self.timeout > 0 && now - self.start < self.timeout),
    {
        if now > self.start {
            now - self.start < self.timeout
        } else {
            self.timeout > 0
        }
    }

    /// Takes in a frame without a face. Returns what the window says. Once scanning is announced,
    /// all that was gathered is forgotten.
    pub fn no_face(&mut self, now: u128) -> (r: &'static str)
        requires
            old(self).wf(),
        ensures
            final(self).wf(),
            final(self).rules == old(self).rules,
            final(self).start == old(self).start,
            final(self).timeout == old(self).timeout,
            final(self).tally.best == old(self).tally.best,
            ({
                let (machine, feedback) = old(self).machine.spec_transition(None, now);
                let forget = machine.state == AuthState::Idle || machine.state
                    == AuthState::Guidance(FeedbackState::Scanning);
                &&& final(self).machine == machine
                &&& final(self).liveness@ == if forget {
                    Seq::empty()
                } else {
                    old(self).liveness@
                }
                &&& final(self).tally.matches == if forget {
                    0
                } else {
                    old(self).tally.matches
                }
                &&& r@ == match feedback {
                    Some(f) => debug_text(f),
                    None => "Scanning..."@,
                }
            }),
    {
        let feedback = self.machine.transition(None, now);
        let forget = match self.machine.state {
            AuthState::Idle => true,
            AuthState::Guidance(f) => f == FeedbackState::Scanning,
            _ => false,
        };
        if forget {
            self.liveness.clear();
            self.tally.matches = 0;
        }
        match &feedback {
            Some(f) => feedback_to_string(f),
            None => "Scanning...",
        }
    }

    /// Takes in a face and whether its texture is live.
    pub fn face(&mut self, metrics: &FaceMetrics, live: bool, now: u128) -> (r: FaceStage)
        requires
            old(self).wf(),
        ensures
            final(self).wf(),
            final(self).rules == old(self).rules,
            final(self).start == old(self).start,
            final(self).timeout == old(self).timeout,
            final(self).tally.best == old(self).tally.best,
            ({
                let (machine, feedback) = old(self).machine.spec_transition(Some(*metrics), now);
                let authenticating = machine.state == AuthState::Authenticating;
                let history = recorded(old(self).liveness@, live);
                &&& final(self).machine == machine
                &&& final(self).liveness@ == history
                &&& final(self).tally.matches == if authenticating {
                    old(self).tally.matches
                } else {
                    0
                }
                &&& r == FaceStage { feedback, authenticating, stable: is_stable(history) }
            }),
    {
        let feedback = self.machine.transition(Some(metrics), now);
        self.liveness.record(live);
        let stable = self.liveness.stable();
        let authenticating = self.machine.state == AuthState::Authenticating;
        if !authenticating {
            self.tally.matches = 0;
        }
        FaceStage { feedback, authenticating, stable }
    }

    /// Takes in the similarities of the face to the enrolled ones, where they were computed, and
    /// says whether the test has succeeded.
    pub fn judge(&mut self, similarities: Option<&Vec<Scalar>>) -> (r: bool)
        requires
            old(self).wf(),
        ensures
            final(self).machine == old(self).machine,
            final(self).liveness@ == old(self).liveness@,
            final(self).rules == old(self).rules,
            final(self).start == old(self).start,
            final(self).timeout == old(self).timeout,
            final(self).tally == match similarities {
                None => old(self).tally,
                Some(sims) => old(self).tally.scored(
                    old(self).rules,
                    spec_maximum(zero(), sims@),
                ),
            },
            r == final(self).tally.enough(old(self).rules),
            !r ==> final(self).wf(),
    {
        if let Some(sims) = similarities {
            let sim = maximum(Scalar { bits: 0 }, sims);
            let rules = self.rules;
            let mut tally = self.tally;
            tally.score(&rules, sim);
            self.tally = tally;
        }
        let rules = self.rules;
        self.tally.is_enough(&rules)
    }
}

/// A face in a frame, as the graphical interface gets it.
#[derive(Debug)]
pub struct FrameResult {
    pub bbox: BBox,
    pub landmarks: Landmarks,
    pub metrics: FaceMetrics,
    pub embedding: Option<Vec<Scalar>>,
    pub liveness_pass: bool,
    pub liveness_scores: IrLivenessScores,
}

/// A frame, as the graphical interface gets it.
#[derive(Debug)]
pub enum WorkerResult {
    Face(FrameResult),
    NoFace,
}

/// What is drawn over the picture.
#[derive(Debug, Clone, Copy, PartialEq, Eq, Structural)]
pub struct Overlay {
    pub bbox: Option<BBox>,
    pub landmarks: Option<Landmarks>,
    pub liveness_pass: bool,
    pub sim: Option<Scalar>,
}

/// Where the test in the graphical interface stands.
#[derive(Debug)]
pub enum LocalAuthState {
    Idle,
    LoadingModels,
    Running { state_label: &'static str },
    Done { outcome: &'static str, light: Light, elapsed: u128, best_sim: Scalar },
    Error(String),
}

/// The tab with the test.
#[derive(Debug)]
pub struct TestAuthTab {
    pub state: LocalAuthState,
    pub machine: Option<StateMachine>,
    pub tally: Tally,
    pub rules: MatchRules,
    pub start: u128,
    pub timeout: u128,
    pub overlay: Overlay,
    pub username: String,
}

/// Nothing drawn.
pub open spec fn no_overlay() -> Overlay {
    Overlay { bbox: None, landmarks: None, liveness_pass: false, sim: None }
}

fn clean_overlay() -> (r: Overlay)
    ensures
        r == no_overlay(),
{
    Overlay { bbox: None, landmarks: None, liveness_pass: false, sim: None }
}

/// What starting the test comes to, by what it needs: enrolled faces, models, a camera.
#[derive(Debug)]
pub enum StartOutcome {
    NotEnrolled,
    ModelsFailed(String),
    CameraFailed(String),
    Ready,
}

/// What a frame leads to in the graphical interface.
#[derive(Debug, Clone, Copy, PartialEq, Eq, Structural)]
pub enum LocalOutcome {
    /// The test is not running.
    Ignored,
    Running,
    Timeout,
    Success,
}

impl TestAuthTab {
    /// What holds between frames.
    pub open spec fn wf(self) -> bool {
        self.tally.wf(self.rules)
    }

    /// Whether the test runs and can take in frames.
    pub open spec fn running(self) -> bool {
        self.state is Running && self.machine is Some
    }

    /// A tab in which no test runs.
    pub fn new(username: String) -> (r: TestAuthTab)
        ensures
            r.wf(),
            r.state is Idle,
            r.machine is None,
            r.tally == (Tally { matches: 0, best: zero() }),
            r.overlay == no_overlay(),
            r.username == username,
    {
        TestAuthTab {
            state: LocalAuthState::Idle,
            machine: None,
            tally: Tally { matches: 0, best: Scalar { bits: 0 } },
            rules: MatchRules {
                threshold: Scalar { bits: 0 },
                confident: Scalar { bits: 0 },
                frames_required: 0,
            },
            start: 0,
            timeout: 0,
            overlay: clean_overlay(),
            username,
        }
    }

    /// Leaves the tab: the test ends and its overlay goes.
    pub fn deactivate(&mut self)
        ensures
            final(self).state is Idle,
            final(self).machine is None,
            final(self).overlay == (Overlay {
                bbox: None,
                landmarks: None,
                ..old(self).overlay
            }),
            final(self).tally == old(self).tally,
            final(self).rules == old(self).rules,
            final(self).start == old(self).start,
            final(self).timeout == old(self).timeout,
            final(self).username == old(self).username,
    {
        self.state = LocalAuthState::Idle;
        self.machine = None;
        self.overlay = Overlay { bbox: None, landmarks: None, ..self.overlay };
    }

    /// Starts the test, or says why it cannot start. `confident` is the threshold and a tenth.
    pub fn start_auth(&mut self, config: &Config, confident: Scalar, how: StartOutcome, now: u128)
        ensures
            final(self).username == old(self).username,
            final(self).overlay == old(self).overlay,
            how !is Ready ==> {
                &&& final(self).machine == old(self).machine
                &&& final(self).tally == old(self).tally
                &&& final(self).rules == old(self).rules
                &&& final(self).start == old(self).start
                &&& final(self).timeout == old(self).timeout
            },
            match how {
                StartOutcome::NotEnrolled => final(self).state matches LocalAuthState::Error(t)
                    && t@ == "No enrollment found for '"@ + old(self).username@
                    + "'.\nRun enrollment first."@,
                StartOutcome::ModelsFailed(e) => final(self).state matches LocalAuthState::Error(t)
                    && t@ == "Model load failed: "@ + e@,
                StartOutcome::CameraFailed(e) => final(self).state matches LocalAuthState::Error(t)
                    && t@ == "Camera: "@ + e@,
                StartOutcome::Ready => {
                    &&& final(self).wf()
                    &&& final(self).state matches LocalAuthState::Running { state_label }
                        && state_label@ == "Scanning..."@
                    &&& final(self).machine matches Some(m) && m.state == AuthState::Idle
                        && m.last_guidance_change is None && m.geo_config == config.geometry
                        && m.debounce == config.geometry.guidance_debounce_ms * 1_000_000
                    &&& final(self).tally == (Tally { matches: 0, best: zero() })
                    &&& final(self).rules == (MatchRules {
                        threshold: config.recognition.threshold,
                        confident,
                        frames_required: config.recognition.frames_required,
                    })
                    &&& final(self).start == now
                    &&& final(self).timeout == config.daemon.session_timeout_s * 1_000_000_000
                },
            },
    {
        match how {
            StartOutcome::NotEnrolled => {
                let mut t: String = "No enrollment found for '".to_owned();
                t.append(self.username.as_str());
                t.append("'.\nRun enrollment first.");
                self.state = LocalAuthState::Error(t);
            },
            StartOutcome::ModelsFailed(e) => {
                let mut t: String = "Model load failed: ".to_owned();
                t.append(e.as_str());
                self.state = LocalAuthState::Error(t);
            },
            StartOutcome::CameraFailed(e) => {
                let mut t: String = "Camera: ".to_owned();
                t.append(e.as_str());
                self.state = LocalAuthState::Error(t);
            },
            StartOutcome::Ready => {
                self.machine = Some(StateMachine::new(&config.geometry));
                self.tally = Tally { matches: 0, best: Scalar { bits: 0 } };
                self.rules = MatchRules {
                    threshold: config.recognition.threshold,
                    confident,
                    frames_required: config.recognition.frames_required,
                };
                self.start = now;
                self.timeout = config.daemon.session_timeout_s as u128 * 1_000_000_000;
                self.state = LocalAuthState::Running { state_label: "Scanning..." };
            },
        }
    }

    /// Ends the test with a result.
    fn done(&mut self, outcome: &'static str, light: Light, elapsed: u128)
        ensures
            final(self).state == (LocalAuthState::Done {
                outcome,
                light,
                elapsed,
                best_sim: old(self).tally.best,
            }),
            final(self).machine is None,
            final(self).tally == old(self).tally,
            final(self).rules == old(self).rules,
            final(self).start == old(self).start,
            final(self).timeout == old(self).timeout,
            final(self).overlay == old(self).overlay,
            final(self).username == old(self).username,
    {
        self.state = LocalAuthState::Done { outcome, light, elapsed, best_sim: self.tally.best };
        self.machine = None;
    }

    /// How the tally and the drawn similarity change with a frame that came in time.
    pub open spec fn counts(
        self,
        machine: StateMachine,
        result: WorkerResult,
        sim: Scalar,
    ) -> (Tally, Option<Scalar>) {
        match result {
            WorkerResult::Face(fr) if machine.state == AuthState::Authenticating
                && fr.embedding is Some => (self.tally.scored(self.rules, sim), Some(sim)),
            _ => (Tally { matches: 0, ..self.tally }, None),
        }
    }

    /// Whether a frame that came in time ends the test.
    pub open spec fn succeeds(self, machine: StateMachine, result: WorkerResult, sim: Scalar) -> bool {
        &&& result matches WorkerResult::Face(fr) && fr.embedding is Some
        &&& machine.state == AuthState::Authenticating
        &&& self.tally.scored(self.rules, sim).enough(self.rules)
    }

    /// Takes in a frame. `similarities` holds the similarity of its face to each enrolled one,
    /// and is read only where the frame has an embedding.
    pub fn process_result(
        &mut self,
        result: &WorkerResult,
        similarities: &Vec<Scalar>,
        now: u128,
    ) -> (r: LocalOutcome)
        requires
            old(self).wf(),
        ensures
            final(self).rules == old(self).rules,
            final(self).start == old(self).start,
            final(self).timeout == old(self).timeout,
            final(self).username == old(self).username,
            r != LocalOutcome::Success ==> final(self).wf(),
            ({
                let late = now - old(self).start >= old(self).timeout || old(self).timeout == 0;
                if !old(self).running() {
                    r == LocalOutcome::Ignored && *final(self) == *old(self)
                } else if late {
                    &&& r == LocalOutcome::Timeout
                    &&& final(self).state matches LocalAuthState::Done {
                        outcome,
                        light,
                        elapsed,
                        best_sim,
                    } && outcome@ == "TIMEOUT"@ && light == Light::Yellow && best_sim == old(
                        self,
                    ).tally.best && elapsed == if now > old(self).start {
                        now - old(self).start
                    } else {
                        0
                    }
                    &&& final(self).machine is None
                    &&& final(self).tally == old(self).tally
                    &&& final(self).overlay == old(self).overlay
                } else {
                    let (machine, feedback) = old(self).machine->0.spec_transition(
                        match *result {
                            WorkerResult::Face(fr) => Some(fr.metrics),
                            WorkerResult::NoFace => None,
                        },
                        now,
                    );
                    let sim = spec_maximum(zero(), similarities@);
                    let (tally, shown) = old(self).counts(machine, *result, sim);
                    &&& final(self).tally == tally
                    &&& final(self).overlay == match *result {
                        WorkerResult::NoFace => Overlay {
                            bbox: None,
                            landmarks: None,
                            liveness_pass: old(self).overlay.liveness_pass,
                            sim: None,
                        },
                        WorkerResult::Face(fr) => Overlay {
                            bbox: Some(fr.bbox),
                            landmarks: Some(fr.landmarks),
                            liveness_pass: fr.liveness_pass,
                            sim: shown,
                        },
                    }
                    &&& if old(self).succeeds(machine, *result, sim) {
                        &&& r == LocalOutcome::Success
                        &&& final(self).machine is None
                        &&& final(self).state matches LocalAuthState::Done {
                            outcome,
                            light,
                            elapsed,
                            best_sim,
                        } && outcome@ == "SUCCESS"@ && light == Light::Green && best_sim
                            == tally.best && elapsed == if now > old(self).start {
                            now - old(self).start
                        } else {
                            0
                        }
                    } else {
                        &&& r == LocalOutcome::Running
                        &&& final(self).machine == Some(machine)
                        &&& final(self).state matches LocalAuthState::Running { state_label }
                            && state_label@ == match (*result, feedback) {
                            (WorkerResult::Face(_), Some(f)) => feedback_text(f),
                            _ => state_text(machine.state),
                        }
                    }
                }
            }),
    {
        let mut machine = match (&self.state, self.machine) {
            (LocalAuthState::Running { .. }, Some(m)) => m,
            _ => {
                return LocalOutcome::Ignored;
            },
        };
        let elapsed: u128 = if now > self.start {
            now - self.start
        } else {
            0
        };
        if elapsed >= self.timeout {
            self.done("TIMEOUT", Light::Yellow, elapsed);
            return LocalOutcome::Timeout;
        }
        let sim = maximum(Scalar { bits: 0 }, similarities);
        match result {
            WorkerResult::NoFace => {
                let _ = machine.transition(None, now);
                self.overlay = Overlay { bbox: None, landmarks: None, sim: None, ..self.overlay };
                self.tally = Tally { matches: 0, ..self.tally };
                let label = state_label(&machine);
                self.machine = Some(machine);
                self.state = LocalAuthState::Running { state_label: label };
                assert(old(self).counts(machine, *result, sim).0 == self.tally);
                LocalOutcome::Running
            },
            WorkerResult::Face(fr) => {
                let feedback = machine.transition(Some(&fr.metrics), now);
                let recognised = machine.state == AuthState::Authenticating
                    && fr.embedding.is_some();
                let shown = if recognised {
                    Some(sim)
                } else {
                    None
                };
                self.overlay = Overlay {
                    bbox: Some(fr.bbox),
                    landmarks: Some(fr.landmarks),
                    liveness_pass: fr.liveness_pass,
                    sim: shown,
                };
                let rules = self.rules;
                let mut tally = self.tally;
                if recognised {
                    tally.score(&rules, sim);
                    self.tally = tally;
                    if tally.is_enough(&rules) {
                        self.done("SUCCESS", Light::Green, elapsed);
                        assert(old(self).counts(machine, *result, sim).0 == self.tally);
                        return LocalOutcome::Success;
                    }
                } else {
                    self.tally = Tally { matches: 0, ..tally };
                }
                let label = match &feedback {
                    Some(f) => feedback_str(f),
                    None => state_label(&machine),
                };
                self.machine = Some(machine);
                self.state = LocalAuthState::Running { state_label: label };
                assert(old(self).counts(machine, *result, sim).0 == self.tally);
                LocalOutcome::Running
            },
        }
    }
}

/// A similarity below the threshold costs all matches, and one that reaches it adds one. The best
/// similarity never falls.
pub proof fn tally_counts_in_a_row(t: Tally, rules: MatchRules, sim: Scalar)
    requires
        t.wf(rules),
    ensures
        !sim.reaches(rules.threshold) ==> t.scored(rules, sim).matches == 0,
        sim.reaches(rules.threshold) ==> t.scored(rules, sim).matches == t.matches + 1,
        !t.scored(rules, sim).best.below(t.best),
        !t.scored(rules, sim).enough(rules) ==> t.scored(rules, sim).wf(rules),
{
}

/// Without a high similarity a test needs as many matches as the settings ask for.
pub proof fn enough_means_required(t: Tally, rules: MatchRules)
    requires
        t.enough(rules),
    ensures
        t.matches >= rules.frames_required || (t.best.reaches(rules.confident) && t.matches >= 1),
{
}

/// As many matches as the settings ask for are enough, and so is one after a similarity that was high.
/// Nothing else is.
pub proof fn enough_is_required_or_confident(t: Tally, rules: MatchRules)
    ensures
        rules.frames_required >= 1 ==> (t.enough(rules) <==> t.matches >= rules.frames_required || (
        t.matches >= 1 && t.best.reaches(rules.confident))),
        t.matches == 0 && t.best.reaches(rules.confident) ==> !t.enough(rules),
        rules.frames_required == 0 && !t.best.reaches(rules.confident) ==> t.enough(rules),
{
}

/// The best similarity is the higher one of the last and the best before it.
pub proof fn best_is_the_higher(t: Tally, rules: MatchRules, sim: Scalar)
    requires
        !t.best.nan(),
    ensures
        ({
            let best = t.scored(rules, sim).best;
            &&& best == t.best || best == sim
            &&& !best.nan()
            &&& !best.below(t.best)
            &&& !best.below(sim)
        }),
{
}

/// A frame without a face that can be recognised costs all matches, keeps the best similarity, and
/// never ends the test.
pub proof fn unrecognised_frame_starts_over(
    tab: TestAuthTab,
    machine: StateMachine,
    result: WorkerResult,
    sim: Scalar,
)
    requires
        result is NoFace || result->Face_0.embedding is None || machine.state
            != AuthState::Authenticating,
    ensures
        tab.counts(machine, result, sim).0.matches == 0,
        tab.counts(machine, result, sim).0.best == tab.tally.best,
        tab.counts(machine, result, sim).1 is None,
        !tab.succeeds(machine, result, sim),
{
}

/// A face that can be recognised adds a match or costs all of them, is shown with its similarity, and
/// ends the test exactly where the matches are now enough.
pub proof fn recognised_frame_counts(
    tab: TestAuthTab,
    machine: StateMachine,
    result: WorkerResult,
    sim: Scalar,
)
    requires
        tab.wf(),
        result is Face,
        result->Face_0.embedding is Some,
        machine.state == AuthState::Authenticating,
        tab.rules.frames_required >= 1,
        !tab.tally.best.nan(),
    ensures
        ({
            let (tally, shown) = tab.counts(machine, result, sim);
            &&& shown == Some(sim)
            &&& sim.reaches(tab.rules.threshold) ==> tally.matches == tab.tally.matches + 1
            &&& !sim.reaches(tab.rules.threshold) ==> tally.matches == 0
            &&& tab.succeeds(machine, result, sim) <==> tally.matches >= tab.rules.frames_required
                || (tally.matches >= 1 && (tab.tally.best.reaches(tab.rules.confident)
                || sim.reaches(tab.rules.confident)))
        }),
{
}

/// The debug window is silent about recognition, and says the same as the interface about all else. A
/// face is recognised only where the machine is at recognition and the face was live steadily.
pub proof fn window_is_silent_about_recognition(f: FeedbackState, stage: FaceStage)
    ensures
        debug_text(FeedbackState::Authenticating) == ""@,
        f != FeedbackState::Authenticating ==> debug_text(f) == feedback_text(f),
        stage.spec_wants_embedding() ==> stage.authenticating,
        stage.spec_wants_embedding() ==> stage.stable,
        stage.authenticating && stage.stable ==> stage.spec_wants_embedding(),
{
}

/// The test goes on as long as its time is not over.
pub proof fn test_has_a_limit(t: DebugAuth, now: u128, r: bool)
    requires
        call_ensures(DebugAuth::in_time, (&t, now), r),
        t.start <= now,
    ensures
        r <==> now < t.start + t.timeout,
{
}

} // verus!
