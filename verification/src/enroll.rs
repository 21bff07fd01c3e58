//! Enrolling a face: the poses, the pictures that are taken, and which of them are kept.
use crate::config::{Config, GeometryConfig};
use crate::geometry::{AuthState, FaceMetrics, StateMachine};
use crate::inference::SHARP;
use crate::local_auth::{debug_text, feedback_to_string, BorderMode};
use crate::protocol::FeedbackState;
use crate::scalar::Scalar;
use crate::text::{decimal, decimal_of};
use vstd::prelude::*;

verus! {

/// How many poses there are.
pub const POSES: usize = 5;

/// How many pictures are taken of each pose.
pub const EMBEDDINGS_PER_POSE: usize = 3;

/// The least time between two pictures, in nanoseconds.
pub const MIN_INTERVAL: u128 = 500_000_000;

/// How long a pose is waited for, in nanoseconds.
pub const POSE_TIMEOUT: u128 = 10_000_000_000;

/// How long the border flashes, in nanoseconds.
pub const FLASH: u128 = 200_000_000;

/// From how many pictures on an enrollment is a good one.
pub const RECOMMENDED: usize = 5;

/// A pose in words.
pub open spec fn pose_text(i: int) -> Seq<char> {
    if i == 0 {
        "straight ahead"@
    } else if i == 1 {
        "slightly LEFT"@
    } else if i == 2 {
        "slightly RIGHT"@
    } else if i == 3 {
        "slightly UP"@
    } else {
        "slightly DOWN"@
    }
}

/// A pose in words.
pub fn pose_name(i: usize) -> (r: &'static str)
    requires
        i < POSES,
    ensures
        r@ == pose_text(i as int),
{
    match i {
        0 => "straight ahead",
        1 => "slightly LEFT",
        2 => "slightly RIGHT",
        3 => "slightly UP",
        _ => "slightly DOWN",
    }
}

/// How many pictures are wanted: three of each pose, but no more than the settings allow.
pub open spec fn spec_max_target(max_enrollment: u32) -> nat {
    crate::raster::min_of(max_enrollment as int, 15) as nat
}

/// How many pictures are wanted.
pub fn max_target(max_enrollment: u32) -> (r: usize)
    ensures
        r == spec_max_target(max_enrollment),
{
    if max_enrollment < 15 {
        max_enrollment as usize
    } else {
        15
    }
}

/// Whether so much time has passed since the last picture that another may be taken.
pub open spec fn rested(last_accepted: Option<u128>, now: u128) -> bool {
    last_accepted matches Some(t) ==> now - t >= MIN_INTERVAL
}

fn is_rested(last_accepted: Option<u128>, now: u128) -> (r: bool)
    ensures
        r == rested(last_accepted, now),
{
    match last_accepted {
        None => true,
        Some(t) => now > t && now - t >= MIN_INTERVAL,
    }
}

/// The enrollment at the command line: one pose after the other.
#[derive(Debug, Clone, Copy, PartialEq, Eq, Structural)]
pub struct EnrollPlan {
    /// The pose that is next.
    pub pose: usize,
    /// How many pictures there are.
    pub collected: usize,
    /// How many are wanted.
    pub target: usize,
}

impl EnrollPlan {
    /// What holds at any time: no pose gives more than its share.
    pub open spec fn wf(self) -> bool {
        &&& self.pose <= POSES
        &&& self.collected <= 3 * self.pose
    }

    /// A plan in which no picture has been taken.
    pub fn new(max_enrollment: u32) -> (r: EnrollPlan)
        ensures
            r.wf(),
            r.pose == 0,
            r.collected == 0,
            r.target == spec_max_target(max_enrollment),
    {
        EnrollPlan { pose: 0, collected: 0, target: max_target(max_enrollment) }
    }

    /// The pose to take pictures of next, unless all poses are done or there are pictures enough.
    pub fn next_pose(&self) -> (r: Option<usize>)
        ensures
            r == if self.pose < POSES && self.collected < self.target {
                Some(self.pose)
            } else {
                None
            },
    {
        if self.pose < POSES && self.collected < self.target {
            Some(self.pose)
        } else {
            None
        }
    }

    /// Notes how many pictures were taken of the pose.
    pub fn pose_done(&mut self, captured: usize)
        requires
            old(self).wf(),
            old(self).pose < POSES,
            captured <= EMBEDDINGS_PER_POSE,
        ensures
            final(self).wf(),
            final(self).pose == old(self).pose + 1,
            final(self).collected == old(self).collected + captured,
            final(self).target == old(self).target,
    {
        self.pose = self.pose + 1;
        self.collected = self.collected + captured;
    }

    /// What the enrollment has come to.
    pub fn verdict(&self) -> (r: PlanVerdict)
        ensures
            r == if self.collected == 0 {
                PlanVerdict::Failed
            } else if self.collected < RECOMMENDED {
                PlanVerdict::Few
            } else {
                PlanVerdict::Good
            },
    {
        if self.collected == 0 {
            PlanVerdict::Failed
        } else if self.collected < RECOMMENDED {
            PlanVerdict::Few
        } else {
            PlanVerdict::Good
        }
    }
}

/// What an enrollment has come to.
#[derive(Debug, Clone, Copy, PartialEq, Eq, Structural)]
pub enum PlanVerdict {
    /// No picture was taken.
    Failed,
    /// Fewer pictures than recommended were taken.
    Few,
    Good,
}

/// The pictures of one pose.
#[derive(Debug)]
pub struct PoseCapture {
    pub machine: StateMachine,
    pub captured: usize,
    pub target: usize,
    pub start: u128,
    pub timeout: u128,
    pub last_accepted: Option<u128>,
}

/// What a face leads to.
#[derive(Debug)]
pub enum CaptureStep {
    /// Nothing.
    Skip,
    /// Show the words.
    Guide(&'static str),
    /// Take the picture.
    Take,
}

impl PoseCapture {
    /// Starts with a pose.
    pub fn new(geometry: &GeometryConfig, target: usize, timeout: u128, now: u128) -> (r: PoseCapture)
        ensures
            r.machine.state == AuthState::Idle,
            r.machine.last_guidance_change is None,
            r.machine.geo_config == *geometry,
            r.machine.debounce == geometry.guidance_debounce_ms * 1_000_000,
            r.captured == 0,
            r.target == target,
            r.start == now,
            r.timeout == timeout,
            r.last_accepted is None,
    {
        PoseCapture {
            machine: StateMachine::new(geometry),
            captured: 0,
            target,
            start: now,
            timeout,
            last_accepted: None,
        }
    }

    /// Whether more pictures are wanted and there is time left.
    pub fn active(&self, now: u128) -> (r: bool)
        ensures
            r == (self.captured < self.target && self.timeout > 0 && now - self.start
                < self.timeout),
    {
        let in_time = if now > self.start {
            now - self.start < self.timeout
        } else {
            self.timeout > 0
        };
        self.captured < self.target && in_time
    }

    /// Takes in a face. A picture is taken of one that can be recognised, has no glare, is not
    /// blurred, and comes late enough after the last.
    pub fn face(&mut self, metrics: &FaceMetrics, now: u128) -> (r: CaptureStep)
        ensures
            final(self).captured == old(self).captured,
            final(self).target == old(self).target,
            final(self).start == old(self).start,
            final(self).timeout == old(self).timeout,
            final(self).last_accepted == old(self).last_accepted,
            ({
                let (machine, feedback) = old(self).machine.spec_transition(Some(*metrics), now);
                &&& final(self).machine == machine
                &&& match feedback {
                    None => r is Skip,
                    Some(FeedbackState::Authenticating) => if !metrics.ir_saturated
                        && !metrics.blur_score.below(Scalar { bits: SHARP }) && rested(
                        old(self).last_accepted,
                        now,
                    ) {
                        r is Take
                    } else {
                        r is Skip
                    },
                    Some(f) => r matches CaptureStep::Guide(t) && t@ == debug_text(f),
                }
            }),
    {
        match self.machine.transition(Some(metrics), now) {
            None => CaptureStep::Skip,
            Some(FeedbackState::Authenticating) => {
                if metrics.ir_saturated || metrics.blur_score.lt(Scalar { bits: SHARP }) {
                    return CaptureStep::Skip;
                }
                if is_rested(self.last_accepted, now) {
                    CaptureStep::Take
                } else {
                    CaptureStep::Skip
                }
            },
            Some(f) => CaptureStep::Guide(feedback_to_string(&f)),
        }
    }

    /// Notes that a picture was taken and could be used.
    pub fn accepted(&mut self, now: u128)
        requires
            old(self).captured < old(self).target,
        ensures
            final(self).captured == old(self).captured + 1,
            final(self).last_accepted == Some(now),
            final(self).machine == old(self).machine,
            final(self).target == old(self).target,
            final(self).start == old(self).start,
            final(self).timeout == old(self).timeout,
    {
        self.captured = self.captured + 1;
        self.last_accepted = Some(now);
    }
}

/// The enrollment with the debug window, which leads through the poses by itself.
#[derive(Debug)]
pub struct EnrollWizard {
    pub machine: StateMachine,
    pub pose: usize,
    /// How many pictures there are of the pose.
    pub pose_captured: usize,
    /// How many pictures there are.
    pub collected: usize,
    pub target: usize,
    pub last_accepted: Option<u128>,
    /// Until when the border flashes, and how.
    pub flash: Option<(u128, BorderMode)>,
}

/// What a face leads to in the debug window.
#[derive(Debug, Clone, Copy, PartialEq, Eq, Structural)]
pub struct WizardStep {
    /// Whether a picture is to be taken.
    pub take: bool,
    /// Whether the machine is at recognition.
    pub authenticating: bool,
    /// Whether the border was flashing when the frame came.
    pub flashing: bool,
}

impl EnrollWizard {
    /// What holds at any time: three pictures for each finished pose and fewer for the current
    /// one, and no more than are wanted.
    pub open spec fn wf(self) -> bool {
        &&& self.pose <= POSES
        &&& self.pose_captured < EMBEDDINGS_PER_POSE
        &&& self.collected == 3 * self.pose + self.pose_captured
        &&& self.collected <= self.target
        &&& self.target <= 15
    }

    /// Whether there is a pose left and more pictures are wanted.
    pub open spec fn spec_active(self) -> bool {
        self.pose < POSES && self.collected < self.target
    }

    /// Whether the border flashes.
    pub open spec fn spec_flashing(self, now: u128) -> bool {
        self.flash matches Some((deadline, _)) && now < deadline
    }

    /// A wizard at the first pose.
    pub fn new(config: &Config) -> (r: EnrollWizard)
        ensures
            r.wf(),
            r.machine.state == AuthState::Idle,
            r.machine.last_guidance_change is None,
            r.machine.geo_config == config.geometry,
            r.machine.debounce == config.geometry.guidance_debounce_ms * 1_000_000,
            r.pose == 0,
            r.collected == 0,
            r.target == spec_max_target(config.recognition.max_enrollment),
            r.last_accepted is None,
            r.flash is None,
    {
        EnrollWizard {
            machine: StateMachine::new(&config.geometry),
            pose: 0,
            pose_captured: 0,
            collected: 0,
            target: max_target(config.recognition.max_enrollment),
            last_accepted: None,
            flash: None,
        }
    }

    /// Whether there is a pose left and more pictures are wanted.
    pub fn active(&self) -> (r: bool)
        ensures
            r == self.spec_active(),
    {
        self.pose < POSES && self.collected < self.target
    }

    /// What the window says.
    pub fn label(&self) -> (r: String)
        requires
            self.pose < POSES,
        ensures
            r@ == "Pose "@ + decimal((self.pose + 1) as nat) + "/"@ + decimal(5) + ": Look "@
                + pose_text(self.pose as int) + "  ["@ + decimal(self.pose_captured as nat) + "/"@
                + decimal(3) + "]"@,
    {
        let mut r: String = "Pose ".to_owned();
        let number = decimal_of((self.pose + 1) as u64);
        let poses = decimal_of(5);
        let taken = decimal_of(self.pose_captured as u64);
        let each = decimal_of(3);
        r.append(number.as_str());
        r.append("/");
        r.append(poses.as_str());
        r.append(": Look ");
        r.append(pose_name(self.pose));
        r.append("  [");
        r.append(taken.as_str());
        r.append("/");
        r.append(each.as_str());
        r.append("]");
        r
    }

    fn flashing(&self, now: u128) -> (r: bool)
        ensures
            r == self.spec_flashing(now),
    {
        match self.flash {
            Some((deadline, _)) => now < deadline,
            None => false,
        }
    }

    /// Takes in a frame without a face. Returns the border.
    pub fn no_face(&mut self, now: u128) -> (r: BorderMode)
        requires
            old(self).wf(),
        ensures
            *final(self) == (EnrollWizard {
                machine: old(self).machine.spec_transition(None, now).0,
                ..*old(self)
            }),
            r == match old(self).flash {
                Some((deadline, mode)) if now < deadline => mode,
                _ => 1u8,
            },
    {
        let _ = self.machine.transition(None, now);
        match self.flash {
            Some((deadline, mode)) if now < deadline => mode,
            _ => 1,
        }
    }

    /// Takes in a face. A picture is taken of one that can be recognised, has no glare, is sharp,
    /// and comes late enough after the last.
    pub fn face(&mut self, metrics: &FaceMetrics, now: u128) -> (r: WizardStep)
        requires
            old(self).wf(),
        ensures
            ({
                let machine = old(self).machine.spec_transition(Some(*metrics), now).0;
                let authenticating = machine.state == AuthState::Authenticating;
                &&& *final(self) == (EnrollWizard { machine, ..*old(self) })
                &&& r == WizardStep {
                    take: authenticating && !metrics.ir_saturated && metrics.blur_score.reaches(
                        Scalar { bits: SHARP },
                    ) && rested(old(self).last_accepted, now),
                    authenticating,
                    flashing: old(self).spec_flashing(now),
                }
            }),
    {
        let flashing = self.flashing(now);
        let _ = self.machine.transition(Some(metrics), now);
        let authenticating = self.machine.state == AuthState::Authenticating;
        let take = authenticating && !metrics.ir_saturated && metrics.blur_score.ge(
            Scalar { bits: SHARP },
        ) && is_rested(self.last_accepted, now);
        WizardStep { take, authenticating, flashing }
    }

    /// Notes whether the picture could be used. If so the border flashes green, and after three
    /// pictures the next pose begins; if not it flashes red.
    pub fn taken(&mut self, usable: bool, now: u128)
        requires
            old(self).wf(),
            old(self).spec_active(),
            now + FLASH <= u128::MAX,
        ensures
            final(self).wf(),
            final(self).machine == old(self).machine,
            final(self).target == old(self).target,
            final(self).flash == Some(
                (
                    (now + FLASH) as u128,
                    if usable {
                        3u8
                    } else {
                        4u8
                    },
                ),
            ),
            usable ==> {
                &&& final(self).collected == old(self).collected + 1
                &&& final(self).last_accepted == Some(now)
                &&& if old(self).pose_captured == 2 {
                    final(self).pose == old(self).pose + 1 && final(self).pose_captured == 0
                } else {
                    final(self).pose == old(self).pose && final(self).pose_captured == old(
                        self,
                    ).pose_captured + 1
                }
            },
            !usable ==> {
                &&& final(self).collected == old(self).collected
                &&& final(self).last_accepted == old(self).last_accepted
                &&& final(self).pose == old(self).pose
                &&& final(self).pose_captured == old(self).pose_captured
            },
    {
        if usable {
            self.collected = self.collected + 1;
            self.pose_captured = self.pose_captured + 1;
            self.last_accepted = Some(now);
            self.flash = Some((now + FLASH, 3));
            if self.pose_captured >= EMBEDDINGS_PER_POSE {
                self.pose = self.pose + 1;
                self.pose_captured = 0;
            }
        } else {
            self.flash = Some((now + FLASH, 4));
        }
    }

    /// The border for a frame with a face.
    pub fn border(&self, step: &WizardStep) -> (r: BorderMode)
        ensures
            r == match self.flash {
                Some((_, mode)) if step.flashing => mode,
                _ => if step.authenticating {
                    2u8
                } else {
                    1u8
                },
            },
    {
        match self.flash {
            Some((_, mode)) if step.flashing => mode,
            _ => if step.authenticating {
                2
            } else {
                1
            },
        }
    }
}

/// The wizard never collects more pictures than the settings allow, so saving them cannot fail for
/// their number.
pub proof fn wizard_stays_within_the_limit(w: EnrollWizard, max_enrollment: u32)
    requires
        w.wf(),
        w.target == spec_max_target(max_enrollment),
    ensures
        w.collected <= max_enrollment,
{
}

// Quality.

/// Bit pattern of the average similarity below which a picture is rejected, 0.5.
pub const REJECT: u32 = 0x3f00_0000;

/// The least number of pictures whose quality is judged.
pub const SCORABLE: usize = 3;

/// The indices among the first `n` whose similarity is not below the bound.
pub open spec fn good_indices(avg: Seq<Scalar>, n: int) -> Seq<usize>
    decreases n,
{
    if n <= 0 {
        Seq::empty()
    } else {
        let prior = good_indices(avg, n - 1);
        if avg[n - 1].below(Scalar { bits: REJECT }) {
            prior
        } else {
            prior.push((n - 1) as usize)
        }
    }
}

/// The indices of the pictures that are good enough, by the average similarity of each to all
/// others.
pub fn keep_indices(avg_sims: &Vec<Scalar>) -> (r: Vec<usize>)
    ensures
        r@ == good_indices(avg_sims@, avg_sims@.len() as int),
        forall|k: int| 0 <= k < r@.len() ==> #[trigger] r@[k] < avg_sims@.len(),
{
    let mut r: Vec<usize> = Vec::new();
    let mut i: usize = 0;
    while i < avg_sims.len()
        invariant
            i <= avg_sims@.len(),
            r@ == good_indices(avg_sims@, i as int),
            forall|k: int| 0 <= k < r@.len() ==> #[trigger] r@[k] < i,
        decreases avg_sims.len() - i,
    {
        if !avg_sims[i].lt(Scalar { bits: REJECT }) {
            r.push(i);
        }
        i += 1;
    }
    r
}

/// The embeddings that are kept: those of good pictures, but all where there are too few to judge
/// or none is good.
pub open spec fn kept_embeddings(all: Seq<[u32; 512]>, avg: Seq<Scalar>) -> Seq<[u32; 512]> {
    let good = good_indices(avg, avg.len() as int);
    if all.len() < SCORABLE || good.len() == 0 {
        all
    } else {
        Seq::new(good.len(), |k: int| all[good[k] as int])
    }
}

/// Drops the embeddings of bad pictures. Returns what is kept and how many were bad. The
/// similarities are not read where there are too few embeddings to judge.
pub fn score_and_filter_embeddings(embeddings: Vec<[u32; 512]>, avg_sims: &Vec<Scalar>) -> (r: (
    Vec<[u32; 512]>,
    usize,
))
    requires
        embeddings@.len() >= SCORABLE ==> avg_sims@.len() == embeddings@.len(),
    ensures
        r.0@ == kept_embeddings(embeddings@, avg_sims@),
        r.1 == if embeddings@.len() < SCORABLE {
            0
        } else {
            embeddings@.len() - good_indices(avg_sims@, avg_sims@.len() as int).len()
        },
        r.1 < embeddings@.len() ==> r.0@.len() + r.1 == embeddings@.len(),
        r.1 >= embeddings@.len() ==> r.0@ == embeddings@,
{
    if embeddings.len() < SCORABLE {
        return (embeddings, 0);
    }
    let good = keep_indices(avg_sims);
    proof {
        lemma_good_count(avg_sims@, avg_sims@.len() as int);
    }
    let rejected: usize = embeddings.len() - good.len();
    if good.len() == 0 {
        return (embeddings, rejected);
    }
    let mut kept: Vec<[u32; 512]> = Vec::new();
    let mut i: usize = 0;
    while i < good.len()
        invariant
            i <= good@.len(),
            embeddings@.len() == avg_sims@.len(),
            forall|k: int| 0 <= k < good@.len() ==> #[trigger] good@[k] < avg_sims@.len(),
            kept@.len() == i,
            forall|k: int| 0 <= k < i ==> #[trigger] kept@[k] == embeddings@[good@[k] as int],
        decreases good.len() - i,
    {
        kept.push(embeddings[good[i]]);
        i += 1;
    }
    assert(kept@ =~= kept_embeddings(embeddings@, avg_sims@));
    (kept, rejected)
}

proof fn lemma_good_count(avg: Seq<Scalar>, n: int)
    requires
        0 <= n,
    ensures
        good_indices(avg, n).len() <= n,
    decreases n,
{
    if n > 0 {
        lemma_good_count(avg, n - 1);
    }
}

/// Dropping bad pictures never leaves an enrollment empty, and never makes it larger.
pub proof fn filter_leaves_something(all: Seq<[u32; 512]>, avg: Seq<Scalar>)
    requires
        avg.len() == all.len(),
    ensures
        all.len() > 0 ==> kept_embeddings(all, avg).len() > 0,
        kept_embeddings(all, avg).len() <= all.len(),
{
    lemma_good_count(avg, avg.len() as int);
}

/// Bit patterns of 0.80, 0.70 and 0.60.
pub const EXCELLENT: u32 = 0x3f4c_cccd;

pub const GOOD: u32 = 0x3f33_3333;

pub const FAIR: u32 = 0x3f19_999a;

/// The grade of an enrollment, by the average similarity of its pictures.
pub open spec fn grade_text(overall: Scalar) -> Seq<char> {
    if overall.reaches(Scalar { bits: EXCELLENT }) {
        "Excellent"@
    } else if overall.reaches(Scalar { bits: GOOD }) {
        "Good"@
    } else if overall.reaches(Scalar { bits: FAIR }) {
        "Fair"@
    } else {
        "Poor (consider re-enrolling in better conditions)"@
    }
}

/// The grade of an enrollment, by the average similarity of its pictures.
pub fn grade(overall: Scalar) -> (r: &'static str)
    ensures
        r@ == grade_text(overall),
{
    if overall.ge(Scalar { bits: EXCELLENT }) {
        "Excellent"
    } else if overall.ge(Scalar { bits: GOOD }) {
        "Good"
    } else if overall.ge(Scalar { bits: FAIR }) {
        "Fair"
    } else {
        "Poor (consider re-enrolling in better conditions)"
    }
}

/// The smallest of `values`, or `ceiling` where none is smaller. Of equal numbers the first
/// counts.
pub open spec fn spec_minimum(ceiling: Scalar, values: Seq<Scalar>) -> Scalar
    decreases values.len(),
{
    if values.len() == 0 {
        ceiling
    } else {
        let least = spec_minimum(ceiling, values.drop_last());
        if values.last().below(least) {
            values.last()
        } else {
            least
        }
    }
}

/// The smallest of `values`, or `ceiling` where none is smaller.
pub fn minimum(ceiling: Scalar, values: &Vec<Scalar>) -> (r: Scalar)
    ensures
        r == spec_minimum(ceiling, values@),
{
    let mut least = ceiling;
    let mut i: usize = 0;
    assert(values@.take(0) == Seq::<Scalar>::empty());
    while i < values.len()
        invariant
            i <= values@.len(),
            least == spec_minimum(ceiling, values@.take(i as int)),
        decreases values.len() - i,
    {
        proof {
            let now = values@.take(i + 1);
            assert(now.drop_last() == values@.take(i as int));
            assert(now.last() == values@[i as int]);
        }
        if values[i].lt(least) {
            least = values[i];
        }
        i += 1;
    }
    assert(values@.take(values@.len() as int) == values@);
    least
}

/// What to say of the threshold.
#[derive(Debug, Clone, Copy, PartialEq, Eq, Structural)]
pub enum Advice {
    /// It could be raised.
    Raise,
    /// It may be too high.
    Lower,
    /// It is right.
    Keep,
}

/// Bit pattern of the difference from which a change is worth it, 0.05.
pub const WORTH_IT: u32 = 0x3d4c_cccd;

/// What to say of the threshold in force. `gap` is the amount by which it differs from the
/// suggested one.
pub fn threshold_advice(suggested: Scalar, current: Scalar, gap: Scalar) -> (r: Advice)
    ensures
        r == if (Scalar { bits: WORTH_IT }).below(gap) {
            if current.below(suggested) {
                Advice::Raise
            } else {
                Advice::Lower
            }
        } else {
            Advice::Keep
        },
{
    if gap.gt(Scalar { bits: WORTH_IT }) {
        if suggested.gt(current) {
            Advice::Raise
        } else {
            Advice::Lower
        }
    } else {
        Advice::Keep
    }
}

/// How many of the first `n` pictures are good enough: their average similarity is not below 0.5.
pub open spec fn good_before(avg: Seq<Scalar>, n: int) -> nat
    decreases n,
{
    if n <= 0 {
        0
    } else {
        good_before(avg, n - 1) + if avg[n - 1].below(Scalar { bits: 0x3f00_0000 }) {
            0nat
        } else {
            1nat
        }
    }
}

proof fn lemma_good_places(avg: Seq<Scalar>, n: int, i: int)
    requires
        0 <= i < n <= avg.len(),
        avg.len() <= usize::MAX,
    ensures
        good_indices(avg, n).len() == good_before(avg, n),
        !avg[i].below(Scalar { bits: 0x3f00_0000 }) ==> good_before(avg, i) < good_before(avg, n)
            && good_indices(avg, n)[good_before(avg, i) as int] == i,
    decreases n,
{
    reveal_with_fuel(good_indices, 2);
    reveal_with_fuel(good_before, 2);
    if i < n - 1 {
        lemma_good_places(avg, n - 1, i);
    } else if n > 1 {
        lemma_good_places(avg, n - 1, 0);
    }
}

/// Of at least three embeddings, exactly those are kept whose average similarity is not below 0.5,
/// each at the place that the number of good ones before it gives, where there is any.
pub proof fn good_embeddings_are_kept(all: Seq<[u32; 512]>, avg: Seq<Scalar>, i: int, good: int)
    requires
        all.len() >= 3,
        avg.len() == all.len(),
        all.len() <= usize::MAX,
        0 <= i < all.len(),
        0 <= good < all.len(),
        !avg[good].below(Scalar { bits: 0x3f00_0000 }),
    ensures
        kept_embeddings(all, avg).len() == good_before(avg, avg.len() as int),
        !avg[i].below(Scalar { bits: 0x3f00_0000 }) ==> good_before(avg, i) < kept_embeddings(
            all,
            avg,
        ).len() && kept_embeddings(all, avg)[good_before(avg, i) as int] == all[i],
        ({
            let rejected = all.len() - good_indices(avg, avg.len() as int).len();
            kept_embeddings(all, avg).len() + rejected == all.len()
        }),
{
    lemma_good_places(avg, avg.len() as int, good);
    lemma_good_places(avg, avg.len() as int, i);
}

/// Where no embedding is good enough, or there are fewer than three, all are kept.
pub proof fn nothing_is_dropped_without_a_good_one(all: Seq<[u32; 512]>, avg: Seq<Scalar>)
    requires
        avg.len() <= usize::MAX,
        all.len() < 3 || (forall|i: int|
            0 <= i < avg.len() ==> (#[trigger] avg[i]).below(Scalar { bits: 0x3f00_0000 })),
    ensures
        kept_embeddings(all, avg) == all,
{
    if all.len() >= 3 {
        lemma_none_good(avg, avg.len() as int);
    }
}

proof fn lemma_none_good(avg: Seq<Scalar>, n: int)
    requires
        0 <= n <= avg.len(),
        forall|i: int| 0 <= i < avg.len() ==> (#[trigger] avg[i]).below(Scalar { bits: 0x3f00_0000 }),
    ensures
        good_indices(avg, n).len() == 0,
    decreases n,
{
    if n > 0 {
        lemma_none_good(avg, n - 1);
        assert(avg[n - 1].below(Scalar { bits: 0x3f00_0000 }));
    }
}

/// The wanted number is the smaller one of three for each of five poses and what the settings allow.
pub proof fn target_is_the_smaller_limit(max_enrollment: u32)
    ensures
        spec_max_target(max_enrollment) <= 15,
        spec_max_target(max_enrollment) <= max_enrollment,
        spec_max_target(max_enrollment) == 15 || spec_max_target(max_enrollment) == max_enrollment,
{
}

/// Half a second lies between two pictures.
pub proof fn pictures_keep_their_distance(last: u128, now: u128)
    ensures
        rested(Some(last), now) <==> now >= last + 500_000_000,
        rested(None, now),
{
}

/// The grades and their bounds: 0.80, 0.70 and 0.60.
pub proof fn grades_have_bounds(overall: Scalar)
    ensures
        overall.reaches(Scalar { bits: 0x3f4c_cccd }) <==> grade_text(overall) == "Excellent"@,
        overall.reaches(Scalar { bits: 0x3f33_3333 }) <==> grade_text(overall) == "Excellent"@
            || grade_text(overall) == "Good"@,
        overall.reaches(Scalar { bits: 0x3f19_999a }) <==> grade_text(overall) == "Excellent"@
            || grade_text(overall) == "Good"@ || grade_text(overall) == "Fair"@,
{
    reveal_strlit("Excellent");
    reveal_strlit("Good");
    reveal_strlit("Fair");
    reveal_strlit("Poor (consider re-enrolling in better conditions)");
    assert("Excellent"@.len() == 9 && "Good"@.len() == 4 && "Fair"@.len() == 4);
    assert("Poor (consider re-enrolling in better conditions)"@.len() == 49);
    assert("Good"@[0] != "Fair"@[0]);
}

/// The smallest number is not above any other, and is one of them, or the ceiling.
pub proof fn minimum_is_the_smallest(ceiling: Scalar, values: Seq<Scalar>)
    requires
        !ceiling.nan(),
    ensures
        ({
            let least = spec_minimum(ceiling, values);
            &&& !ceiling.below(least)
            &&& forall|i: int| 0 <= i < values.len() ==> !(#[trigger] values[i]).below(least)
            &&& least == ceiling || values.contains(least)
            &&& !least.nan()
        }),
    decreases values.len(),
{
    if values.len() > 0 {
        let prior = values.drop_last();
        minimum_is_the_smallest(ceiling, prior);
        let least = spec_minimum(ceiling, values);
        assert forall|i: int| 0 <= i < values.len() implies !(#[trigger] values[i]).below(least) by {
            if i < prior.len() {
                assert(values[i] == prior[i]);
            }
        }
        if least == values.last() {
            assert(values[values.len() - 1] == least);
        } else if least != ceiling {
            let k = choose|k: int| 0 <= k < prior.len() && prior[k] == least;
            assert(values[k] == least);
        }
    }
}

/// The words for a pose name the direction.
pub proof fn poses_name_their_direction(i: int)
    ensures
        i == 0 ==> crate::text::contains(pose_text(i), "straight"@),
        i == 1 ==> crate::text::contains(pose_text(i), "LEFT"@),
        i == 2 ==> crate::text::contains(pose_text(i), "RIGHT"@),
        i == 3 ==> crate::text::contains(pose_text(i), "UP"@),
        i == 4 ==> crate::text::contains(pose_text(i), "DOWN"@),
{
    reveal_strlit("straight ahead");
    reveal_strlit("slightly LEFT");
    reveal_strlit("slightly RIGHT");
    reveal_strlit("slightly UP");
    reveal_strlit("slightly DOWN");
    reveal_strlit("straight");
    reveal_strlit("LEFT");
    reveal_strlit("RIGHT");
    reveal_strlit("UP");
    reveal_strlit("DOWN");
    assert("straight ahead"@.skip(0).take(8) =~= "straight"@);
    assert("slightly LEFT"@.skip(9).take(4) =~= "LEFT"@);
    assert("slightly RIGHT"@.skip(9).take(5) =~= "RIGHT"@);
    assert("slightly UP"@.skip(9).take(2) =~= "UP"@);
    assert("slightly DOWN"@.skip(9).take(4) =~= "DOWN"@);
}

/// The wizard goes on exactly until as many pictures are there as are wanted.
pub proof fn wizard_goes_on_until_done(w: EnrollWizard)
    requires
        w.wf(),
    ensures
        w.spec_active() <==> w.collected < w.target,
        w.spec_active() ==> w.pose < 5,
{
}

/// The border flashes until its time is over.
pub proof fn flash_has_an_end(w: EnrollWizard, now: u128, later: u128)
    requires
        now <= later,
    ensures
        w.spec_flashing(later) ==> w.spec_flashing(now),
        w.flash is None ==> !w.spec_flashing(now),
        w.flash matches Some((deadline, _)) ==> !w.spec_flashing(deadline) && (deadline > 0
            ==> w.spec_flashing((deadline - 1) as u128)),
{
}

/// The poses follow one another until there are pictures enough. An enrollment without a picture has
/// failed, and five are recommended.
pub proof fn plan_goes_through_the_poses(p: EnrollPlan, next: Option<usize>, v: PlanVerdict)
    requires
        call_ensures(EnrollPlan::next_pose, (&p,), next),
        call_ensures(EnrollPlan::verdict, (&p,), v),
    ensures
        next is Some <==> p.pose < 5 && p.collected < p.target,
        next is Some ==> next == Some(p.pose),
        v == PlanVerdict::Failed <==> p.collected == 0,
        v == PlanVerdict::Good <==> p.collected >= 5,
{
}

/// Pictures of a pose are taken until there are enough or its time is over.
pub proof fn pose_has_a_limit(c: PoseCapture, now: u128, r: bool)
    requires
        call_ensures(PoseCapture::active, (&c, now), r),
        c.start <= now,
    ensures
        r <==> c.captured < c.target && now < c.start + c.timeout,
{
}

/// A threshold is worth changing where it differs by more than 0.05, in the direction of the suggested
/// one.
pub proof fn advice_goes_towards_the_suggestion(suggested: Scalar, current: Scalar, gap: Scalar, r: Advice)
    requires
        call_ensures(threshold_advice, (suggested, current, gap), r),
    ensures
        r == Advice::Keep <==> !(Scalar { bits: 0x3d4c_cccd }).below(gap),
        r == Advice::Raise <==> (Scalar { bits: 0x3d4c_cccd }).below(gap) && current.below(suggested),
{
}

/// The filter keeps the good embeddings, each at the place that the number of good ones before it
/// gives, and rejects all others. Where there are fewer than three or none is good, it keeps all.
pub proof fn filter_keeps_the_good(
    embeddings: Vec<[u32; 512]>,
    avg_sims: Vec<Scalar>,
    r: (Vec<[u32; 512]>, usize),
    i: int,
    good: int,
)
    requires
        call_ensures(score_and_filter_embeddings, (embeddings, &avg_sims), r),
        avg_sims@.len() == embeddings@.len(),
        embeddings@.len() <= usize::MAX,
        0 <= i < embeddings@.len(),
        0 <= good < embeddings@.len(),
    ensures
        embeddings@.len() < 3 ==> r.0@ == embeddings@ && r.1 == 0,
        embeddings@.len() >= 3 && !avg_sims@[good].below(Scalar { bits: 0x3f00_0000 }) ==> {
            &&& r.0@.len() == good_before(avg_sims@, avg_sims@.len() as int)
            &&& r.0@.len() + r.1 == embeddings@.len()
            &&& !avg_sims@[i].below(Scalar { bits: 0x3f00_0000 }) ==> r.0@[good_before(
                avg_sims@,
                i,
            ) as int] == embeddings@[i]
        },
{
    if embeddings@.len() >= 3 && !avg_sims@[good].below(Scalar { bits: 0x3f00_0000 }) {
        good_embeddings_are_kept(embeddings@, avg_sims@, i, good);
    }
}

} // verus!
