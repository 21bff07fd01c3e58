//! Where the face is, and what to tell the person about it.
//!
//! Points in time are nanoseconds since a fixed moment.
use crate::config::GeometryConfig;
use crate::protocol::FeedbackState;
use crate::scalar::Scalar;
use vstd::prelude::*;

verus! {

/// A point of the frame, in pixels.
#[derive(Debug, Clone, Copy, PartialEq, Eq, Structural)]
pub struct Point {
    pub x: Scalar,
    pub y: Scalar,
}

/// The five points of a face that the detector finds.
#[derive(Debug, Clone, Copy, PartialEq, Eq, Structural)]
pub struct Landmarks {
    pub left_eye: Point,
    pub right_eye: Point,
    pub nose: Point,
    pub left_mouth: Point,
    pub right_mouth: Point,
    pub left_eye_conf: Scalar,
    pub right_eye_conf: Scalar,
}

/// The rectangle round a face, in pixels.
#[derive(Debug, Clone, Copy, PartialEq, Eq, Structural)]
pub struct BBox {
    pub x1: Scalar,
    pub y1: Scalar,
    pub x2: Scalar,
    pub y2: Scalar,
}

/// What was measured of a face in a frame.
#[derive(Debug, Clone, Copy, PartialEq, Eq, Structural)]
pub struct FaceMetrics {
    pub face_width_ratio: Scalar,
    pub yaw_deg: Scalar,
    pub pitch_deg: Scalar,
    pub roll_deg: Scalar,
    pub ir_saturated: bool,
    pub eyes_visible: bool,
    pub blur_score: Scalar,
}

/// Where an authentication stands.
#[derive(Debug, Clone, Copy, PartialEq, Eq, Structural)]
pub enum AuthState {
    Idle,
    Guidance(FeedbackState),
    Authenticating,
    Done,
}

impl Landmarks {
    /// Whether the detector is surer than 0.5 of both eyes.
    pub open spec fn spec_eyes_visible(self) -> bool {
        let half = Scalar { bits: 0x3f00_0000 };
        half.below(self.left_eye_conf) && half.below(self.right_eye_conf)
    }

    /// Whether the detector is surer than 0.5 of both eyes.
    pub fn eyes_visible(&self) -> (r: bool)
        ensures
            r == self.spec_eyes_visible(),
    {
        let half = Scalar { bits: 0x3f00_0000 };
        self.left_eye_conf.gt(half) && self.right_eye_conf.gt(half)
    }
}

/// What the person is to be told of a face with these measurements: the first complaint in a
/// fixed order, or that recognition can begin.
pub open spec fn spec_classify(m: FaceMetrics, cfg: GeometryConfig) -> FeedbackState {
    if m.ir_saturated {
        FeedbackState::IRSaturated
    } else if !m.eyes_visible {
        FeedbackState::EyesNotVisible
    } else if m.face_width_ratio.below(cfg.distance_min) {
        FeedbackState::TooFar
    } else if cfg.distance_max.below(m.face_width_ratio) {
        FeedbackState::TooClose
    } else if cfg.roll_max_deg.below(m.roll_deg.spec_abs()) {
        FeedbackState::LookAtCamera
    } else if cfg.yaw_max_deg.below(m.yaw_deg) {
        FeedbackState::TurnLeft
    } else if m.yaw_deg.below(cfg.yaw_max_deg.spec_neg()) {
        FeedbackState::TurnRight
    } else if cfg.pitch_max_deg.below(m.pitch_deg) {
        FeedbackState::TiltUp
    } else if m.pitch_deg.below(cfg.pitch_max_deg.spec_neg()) {
        FeedbackState::TiltDown
    } else {
        FeedbackState::Authenticating
    }
}

/// What the person is to be told of a face with these measurements.
pub fn classify(m: &FaceMetrics, cfg: &GeometryConfig) -> (r: FeedbackState)
    ensures
        r == spec_classify(*m, *cfg),
{
    if m.ir_saturated {
        return FeedbackState::IRSaturated;
    }
    if !m.eyes_visible {
        return FeedbackState::EyesNotVisible;
    }
    if m.face_width_ratio.lt(cfg.distance_min) {
        return FeedbackState::TooFar;
    }
    if m.face_width_ratio.gt(cfg.distance_max) {
        return FeedbackState::TooClose;
    }
    if m.roll_deg.abs().gt(cfg.roll_max_deg) {
        return FeedbackState::LookAtCamera;
    }
    if m.yaw_deg.gt(cfg.yaw_max_deg) {
        return FeedbackState::TurnLeft;
    }
    if m.yaw_deg.lt(cfg.yaw_max_deg.neg()) {
        return FeedbackState::TurnRight;
    }
    if m.pitch_deg.gt(cfg.pitch_max_deg) {
        return FeedbackState::TiltUp;
    }
    if m.pitch_deg.lt(cfg.pitch_max_deg.neg()) {
        return FeedbackState::TiltDown;
    }
    FeedbackState::Authenticating
}

/// Follows the faces of a session and decides when new guidance is due.
#[derive(Debug, Clone, Copy, PartialEq, Eq, Structural)]
pub struct StateMachine {
    pub state: AuthState,
    pub last_guidance_change: Option<u128>,
    pub debounce: u128,
    pub geo_config: GeometryConfig,
}

impl StateMachine {
    /// What a frame calls for: guidance about its face, or scanning where it shows none.
    pub open spec fn desired(self, metrics: Option<FaceMetrics>) -> FeedbackState {
        match metrics {
            None => FeedbackState::Scanning,
            Some(m) => spec_classify(m, self.geo_config),
        }
    }

    /// Whether so much time has passed since the last change of guidance that another may
    /// follow.
    pub open spec fn settled(self, now: u128) -> bool {
        match self.last_guidance_change {
            None => true,
            Some(t) => self.debounce == 0 || now - t >= self.debounce,
        }
    }

    /// The state after a frame, and what is to be told of it.
    pub open spec fn spec_transition(self, metrics: Option<FaceMetrics>, now: u128) -> (
        StateMachine,
        Option<FeedbackState>,
    ) {
        let desired = self.desired(metrics);
        if self.state == AuthState::Done {
            (self, None)
        } else if desired == FeedbackState::Authenticating {
            (StateMachine { state: AuthState::Authenticating, ..self }, Some(desired))
        } else if self.state == AuthState::Guidance(desired) || !self.settled(now) {
            (self, None)
        } else {
            (
                StateMachine {
                    state: AuthState::Guidance(desired),
                    last_guidance_change: Some(now),
                    ..self
                },
                Some(desired),
            )
        }
    }

    /// A machine at the start of a session.
    pub fn new(geo_config: &GeometryConfig) -> (r: StateMachine)
        ensures
            r.state == AuthState::Idle,
            r.last_guidance_change is None,
            r.debounce == geo_config.guidance_debounce_ms * 1_000_000,
            r.geo_config == *geo_config,
    {
        StateMachine {
            state: AuthState::Idle,
            last_guidance_change: None,
            debounce: geo_config.guidance_debounce_ms as u128 * 1_000_000,
            geo_config: *geo_config,
        }
    }

    /// Takes in a frame: `None` where it shows no face. Returns the guidance that is due.
    pub fn transition(&mut self, metrics: Option<&FaceMetrics>, now: u128) -> (r: Option<
        FeedbackState,
    >)
        ensures
            (*final(self), r) == old(self).spec_transition(
                match metrics {
                    Some(m) => Some(*m),
                    None => None,
                },
                now,
            ),
    {
        if self.state == AuthState::Done {
            return None;
        }
        let desired = match metrics {
            None => FeedbackState::Scanning,
            Some(m) => classify(m, &self.geo_config),
        };
        if desired == FeedbackState::Authenticating {
            self.state = AuthState::Authenticating;
            return Some(FeedbackState::Authenticating);
        }
        let should_emit = match self.state {
            AuthState::Guidance(current) if current == desired => false,
            _ => match self.last_guidance_change {
                None => true,
                Some(t) => {
                    let elapsed: u128 = if now > t {
                        now - t
                    } else {
                        0
                    };
                    elapsed >= self.debounce
                },
            },
        };
        if should_emit {
            self.state = AuthState::Guidance(desired);
            self.last_guidance_change = Some(now);
            Some(desired)
        } else {
            None
        }
    }

    /// Ends the session.
    pub fn finish(&mut self)
        ensures
            *final(self) == (StateMachine { state: AuthState::Done, ..*old(self) }),
    {
        self.state = AuthState::Done;
    }
}

/// Recognition begins exactly for a face that gives no cause for complaint.
pub proof fn authenticating_means_no_complaint(m: FaceMetrics, cfg: GeometryConfig)
    ensures
        spec_classify(m, cfg) == FeedbackState::Authenticating <==> {
            &&& !m.ir_saturated
            &&& m.eyes_visible
            &&& !m.face_width_ratio.below(cfg.distance_min)
            &&& !cfg.distance_max.below(m.face_width_ratio)
            &&& !cfg.roll_max_deg.below(m.roll_deg.spec_abs())
            &&& !cfg.yaw_max_deg.below(m.yaw_deg)
            &&& !m.yaw_deg.below(cfg.yaw_max_deg.spec_neg())
            &&& !cfg.pitch_max_deg.below(m.pitch_deg)
            &&& !m.pitch_deg.below(cfg.pitch_max_deg.spec_neg())
        },
{
}

/// Glare comes before hidden eyes, and hidden eyes before everything else.
pub proof fn complaints_have_an_order(m: FaceMetrics, cfg: GeometryConfig)
    ensures
        m.ir_saturated ==> spec_classify(m, cfg) == FeedbackState::IRSaturated,
        !m.ir_saturated && !m.eyes_visible ==> spec_classify(m, cfg)
            == FeedbackState::EyesNotVisible,
{
}

/// A finished session gives no more guidance and does not change.
pub proof fn done_is_terminal(s: StateMachine, metrics: Option<FaceMetrics>, now: u128)
    requires
        s.state == AuthState::Done,
    ensures
        s.spec_transition(metrics, now) == (s, None::<FeedbackState>),
{
}

/// The first frame of a session always brings an answer.
pub proof fn first_frame_is_answered(s: StateMachine, metrics: Option<FaceMetrics>, now: u128)
    requires
        s.state == AuthState::Idle,
        s.last_guidance_change is None,
    ensures
        s.spec_transition(metrics, now).1 == Some(s.desired(metrics)),
{
}

/// A face that can be recognised is announced at once, however recent the last guidance is.
pub proof fn recognition_waits_for_nothing(s: StateMachine, m: FaceMetrics, now: u128)
    requires
        s.state != AuthState::Done,
        spec_classify(m, s.geo_config) == FeedbackState::Authenticating,
    ensures
        s.spec_transition(Some(m), now).1 == Some(FeedbackState::Authenticating),
        s.spec_transition(Some(m), now).0.state == AuthState::Authenticating,
{
}

/// Guidance that was given is not given again by the next frame, however late, as long as that
/// frame calls for the same.
pub proof fn guidance_is_not_repeated(
    s: StateMachine,
    first: Option<FaceMetrics>,
    t1: u128,
    second: Option<FaceMetrics>,
    t2: u128,
)
    requires
        s.spec_transition(first, t1).1 is Some,
        s.desired(first) != FeedbackState::Authenticating,
        s.desired(second) == s.desired(first),
    ensures
        s.spec_transition(first, t1).0.spec_transition(second, t2).1 is None,
{
}

/// The machine after all the frames, each with its time.
pub open spec fn after(s: StateMachine, frames: Seq<(Option<FaceMetrics>, u128)>) -> StateMachine
    decreases frames.len(),
{
    if frames.len() == 0 {
        s
    } else {
        after(s, frames.drop_last()).spec_transition(frames.last().0, frames.last().1).0
    }
}

/// What is told of the frame `i`.
pub open spec fn told(s: StateMachine, frames: Seq<(Option<FaceMetrics>, u128)>, i: int) -> Option<
    FeedbackState,
> {
    after(s, frames.take(i)).spec_transition(frames[i].0, frames[i].1).1
}

/// Whether the frame `i` brings guidance: something other than that recognition has begun.
pub open spec fn guided(s: StateMachine, frames: Seq<(Option<FaceMetrics>, u128)>, i: int) -> bool {
    told(s, frames, i) matches Some(f) && f != FeedbackState::Authenticating
}

/// Once guidance was given, the time of the last is never before it, nor after the last frame.
proof fn lemma_guidance_is_remembered(
    s: StateMachine,
    frames: Seq<(Option<FaceMetrics>, u128)>,
    i: int,
    n: int,
)
    requires
        0 <= i < n <= frames.len(),
        forall|k: int, m: int| 0 <= k <= m < frames.len() ==> (#[trigger] frames[k]).1 <= (
        #[trigger] frames[m]).1,
        guided(s, frames, i),
    ensures
        after(s, frames.take(n)).debounce == s.debounce,
        after(s, frames.take(n)).last_guidance_change matches Some(t) && frames[i].1 <= t <= frames[n
            - 1].1,
    decreases n,
{
    let now = frames.take(n);
    assert(now.drop_last() =~= frames.take(n - 1));
    assert(now.last() == frames[n - 1]);
    if n == i + 1 {
        lemma_debounce_stays(s, frames.take(i));
    } else {
        lemma_guidance_is_remembered(s, frames, i, n - 1);
        assert(frames[i].1 <= frames[n - 1].1);
        assert(frames[n - 2].1 <= frames[n - 1].1);
    }
}

proof fn lemma_debounce_stays(s: StateMachine, frames: Seq<(Option<FaceMetrics>, u128)>)
    ensures
        after(s, frames).debounce == s.debounce,
    decreases frames.len(),
{
    if frames.len() > 0 {
        lemma_debounce_stays(s, frames.drop_last());
    }
}

/// Any two pieces of guidance of a session are at least the debounce time apart, however many
/// frames come between them.
pub proof fn guidance_keeps_its_distance(
    s: StateMachine,
    frames: Seq<(Option<FaceMetrics>, u128)>,
    i: int,
    j: int,
)
    requires
        0 <= i < j < frames.len(),
        forall|k: int, m: int| 0 <= k <= m < frames.len() ==> (#[trigger] frames[k]).1 <= (
        #[trigger] frames[m]).1,
        guided(s, frames, i),
        guided(s, frames, j),
    ensures
        frames[j].1 - frames[i].1 >= s.debounce,
{
    lemma_guidance_is_remembered(s, frames, i, j);
    assert(frames[i].1 <= frames[j].1);
}

/// A session whose face is lost leaves recognition: the next frame without a face, after the
/// debounce time, brings scanning back.
pub proof fn lost_face_brings_scanning_back(s: StateMachine, now: u128)
    requires
        s.state == AuthState::Authenticating,
        s.settled(now),
    ensures
        s.spec_transition(None, now).1 == Some(FeedbackState::Scanning),
{
}

/// Guidance follows the face: once the debounce time is over, a frame that calls for anything but the
/// guidance given last is answered with what it calls for, and that is what the machine remembers.
pub proof fn settled_change_is_told(s: StateMachine, metrics: Option<FaceMetrics>, now: u128, wanted: FeedbackState)
    requires
        s.state != AuthState::Done,
        s.last_guidance_change matches Some(t) ==> s.debounce == 0 || now >= t + s.debounce,
        wanted == match metrics {
            None => FeedbackState::Scanning,
            Some(m) => spec_classify(m, s.geo_config),
        },
        s.state != AuthState::Guidance(wanted),
    ensures
        s.spec_transition(metrics, now).1 == Some(wanted),
        wanted != FeedbackState::Authenticating ==> {
            let next = s.spec_transition(metrics, now).0;
            next.state == AuthState::Guidance(wanted) && next.last_guidance_change == Some(now)
        },
        wanted == FeedbackState::Authenticating ==> {
            let next = s.spec_transition(metrics, now).0;
            next.state == AuthState::Authenticating && next.last_guidance_change
                == s.last_guidance_change
        },
{
}

/// Within the debounce time nothing but recognition is announced, and a frame that calls for the
/// guidance given last is not answered at any time. The machine then stays as it is.
pub proof fn guidance_is_held_back(s: StateMachine, metrics: Option<FaceMetrics>, now: u128, wanted: FeedbackState)
    requires
        wanted == match metrics {
            None => FeedbackState::Scanning,
            Some(m) => spec_classify(m, s.geo_config),
        },
        wanted != FeedbackState::Authenticating,
        s.state == AuthState::Guidance(wanted) || (s.last_guidance_change matches Some(t) && s.debounce
            > 0 && now < t + s.debounce),
    ensures
        s.spec_transition(metrics, now) == (s, None::<FeedbackState>),
{
}

/// A frame changes neither the limits nor the debounce time, and a session that is not over does not
/// end by a frame.
pub proof fn limits_stay(s: StateMachine, metrics: Option<FaceMetrics>, now: u128)
    ensures
        s.spec_transition(metrics, now).0.geo_config == s.geo_config,
        s.spec_transition(metrics, now).0.debounce == s.debounce,
        s.spec_transition(metrics, now).0.state == AuthState::Done <==> s.state == AuthState::Done,
{
}

/// What the person is told is true of the face, and nothing that comes before it in the order of
/// complaints is: glare, hidden eyes, the distance, the roll, the yaw, the pitch.
pub proof fn complaint_is_true(m: FaceMetrics, cfg: GeometryConfig)
    ensures
        ({
            let told = spec_classify(m, cfg);
            let seen = !m.ir_saturated && m.eyes_visible;
            let far = m.face_width_ratio.below(cfg.distance_min);
            let near = cfg.distance_max.below(m.face_width_ratio);
            let tilted = cfg.roll_max_deg.below(m.roll_deg.spec_abs());
            let right = cfg.yaw_max_deg.below(m.yaw_deg);
            let left = m.yaw_deg.below(cfg.yaw_max_deg.spec_neg());
            let down = cfg.pitch_max_deg.below(m.pitch_deg);
            let up = m.pitch_deg.below(cfg.pitch_max_deg.spec_neg());
            let placed = seen && !far && !near;
            &&& told != FeedbackState::Scanning
            &&& told == FeedbackState::IRSaturated ==> m.ir_saturated
            &&& told == FeedbackState::EyesNotVisible ==> !m.ir_saturated && !m.eyes_visible
            &&& told == FeedbackState::TooFar ==> seen && far
            &&& told == FeedbackState::TooClose ==> seen && near && !far
            &&& told == FeedbackState::LookAtCamera ==> placed && tilted
            &&& told == FeedbackState::TurnLeft ==> placed && !tilted && right
            &&& told == FeedbackState::TurnRight ==> placed && !tilted && left && !right
            &&& told == FeedbackState::TiltUp ==> placed && !tilted && !left && !right && down
            &&& told == FeedbackState::TiltDown ==> placed && !tilted && !left && !right && up && !down
            &&& told == FeedbackState::Authenticating ==> placed && !tilted && !left && !right && !up
                && !down
        }),
{
}

/// A face that looks the other way is told the opposite.
pub proof fn mirrored_face_is_told_the_opposite(m: FaceMetrics, n: FaceMetrics, cfg: GeometryConfig)
    requires
        n == (FaceMetrics { yaw_deg: m.yaw_deg.spec_neg(), pitch_deg: m.pitch_deg.spec_neg(), ..m }),
        !cfg.yaw_max_deg.is_negative(),
        !cfg.pitch_max_deg.is_negative(),
    ensures
        spec_classify(m, cfg) == FeedbackState::TurnLeft <==> spec_classify(n, cfg)
            == FeedbackState::TurnRight,
        spec_classify(m, cfg) == FeedbackState::TiltUp <==> spec_classify(n, cfg)
            == FeedbackState::TiltDown,
        spec_classify(m, cfg) == FeedbackState::Authenticating <==> spec_classify(n, cfg)
            == FeedbackState::Authenticating,
{
}

/// The eyes are visible exactly where the detector is surer than 0.5 of each.
pub proof fn both_eyes_count(lm: Landmarks)
    ensures
        lm.spec_eyes_visible() <==> (Scalar { bits: 0x3f00_0000 }).below(lm.left_eye_conf) && (Scalar {
            bits: 0x3f00_0000,
        }).below(lm.right_eye_conf),
{
}

} // verus!
