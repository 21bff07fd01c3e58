//! Whether the camera sees a living face, judged over several frames.
use crate::scalar::Scalar;
use std::collections::VecDeque;
use vstd::prelude::*;

verus! {

/// What the anti-spoofing model says of a face.
#[derive(Debug, Clone, Copy, PartialEq, Eq, Structural)]
pub struct LivenessResult {
    /// Probability that the face is real.
    pub real_score: Scalar,
    /// Probability that the face is a spoof.
    pub spoof_score: Scalar,
}

impl LivenessResult {
    /// Whether the face counts as real.
    pub fn is_real(&self, threshold: Scalar) -> (r: bool)
        ensures
            r == self.real_score.reaches(threshold),
    {
        self.real_score.ge(threshold)
    }
}

/// Why the anti-spoofing model could not be used.
#[derive(Debug)]
pub enum LivenessError {
    ModelNotFound(String),
    Ort(String),
    Inference(String),
}

impl LivenessError {
    /// The error in words.
    pub fn message(&self) -> (r: String)
        ensures
            r@ == match self {
                LivenessError::ModelNotFound(p) => "model file not found: "@ + p@,
                LivenessError::Ort(e) => "ort error: "@ + e@,
                LivenessError::Inference(e) => "inference error: "@ + e@,
            },
    {
        let (mut r, e) = match self {
            LivenessError::ModelNotFound(p) => ("model file not found: ".to_owned(), p),
            LivenessError::Ort(e) => ("ort error: ".to_owned(), e),
            LivenessError::Inference(e) => ("inference error: ".to_owned(), e),
        };
        r.append(e.as_str());
        r
    }
}

/// Checks that the anti-spoofing model gave a score for each of the two possibilities.
pub fn check_scores(len: usize) -> (r: Result<(), LivenessError>)
    ensures
        match r {
            Ok(()) => len >= 2,
            Err(e) => len < 2 && (e matches LivenessError::Inference(t) && t@
                == "expected 2 outputs, got "@ + crate::text::decimal(len as nat)),
        },
{
    if len >= 2 {
        Ok(())
    } else {
        let mut t: String = "expected 2 outputs, got ".to_owned();
        let digits = crate::text::decimal_of(len as u64);
        t.append(digits.as_str());
        Err(LivenessError::Inference(t))
    }
}

/// How many frames the judgement looks back.
pub const WINDOW: usize = 10;

/// How many of the entries are `true`.
pub open spec fn passes(h: Seq<bool>) -> nat
    decreases h.len(),
{
    if h.len() == 0 {
        0
    } else {
        passes(h.drop_last()) + if h.last() {
            1nat
        } else {
            0nat
        }
    }
}

/// Whether at least 80 % of the frames looked at, and at least one, passed.
pub open spec fn is_stable(h: Seq<bool>) -> bool {
    h.len() > 0 && 100 * passes(h) >= 80 * h.len()
}

/// The frames looked at after one more: the last ten.
pub open spec fn recorded(h: Seq<bool>, live: bool) -> Seq<bool> {
    if h.len() >= WINDOW {
        h.drop_first().push(live)
    } else {
        h.push(live)
    }
}

/// The liveness of the last frames.
#[derive(Debug)]
pub struct LivenessWindow {
    pub history: VecDeque<bool>,
}

impl View for LivenessWindow {
    type V = Seq<bool>;

    open spec fn view(&self) -> Seq<bool> {
        self.history@
    }
}

impl LivenessWindow {
    /// A window that has seen no frame.
    pub fn new() -> (r: LivenessWindow)
        ensures
            r@ == Seq::<bool>::empty(),
    {
        LivenessWindow { history: VecDeque::with_capacity(WINDOW) }
    }

    /// Takes in a frame, and lets the oldest of ten go.
    pub fn record(&mut self, live: bool)
        ensures
            final(self)@ == recorded(old(self)@, live),
    {
        let ghost before = self@;
        if self.history.len() >= WINDOW {
            let _ = self.history.pop_front();
            assert(self.history@ == before.drop_first());
        }
        self.history.push_back(live);
    }

    /// Forgets all frames.
    pub fn clear(&mut self)
        ensures
            final(self)@ == Seq::<bool>::empty(),
    {
        self.history.clear();
    }

    /// How many of the frames passed.
    pub fn pass_count(&self) -> (r: usize)
        ensures
            r == passes(self@),
            r <= self@.len(),
    {
        let mut n: usize = 0;
        let mut i: usize = 0;
        assert(self@.take(0) == Seq::<bool>::empty());
        while i < self.history.len()
            invariant
                i <= self.history.len(),
                n == passes(self@.take(i as int)),
                n <= i,
            decreases self.history.len() - i,
        {
            proof {
                let now = self@.take(i + 1);
                assert(now.drop_last() == self@.take(i as int));
                assert(now.last() == self@[i as int]);
            }
            if self.history[i] {
                n += 1;
            }
            i += 1;
        }
        assert(self@.take(self@.len() as int) == self@);
        n
    }

    /// Whether the face has been live steadily enough.
    pub fn stable(&self) -> (r: bool)
        requires
            self@.len() <= WINDOW,
        ensures
            r == is_stable(self@),
    {
        let total: usize = self.history.len();
        let n: usize = self.pass_count();
        if total == 0 {
            return false;
        }
        let share: usize = n * 100 / total;
        assert(share >= 80 <==> n * 100 >= 80 * total) by (nonlinear_arith)
            requires
                total > 0,
                share == (n * 100) / (total as int),
        ;
        share >= 80
    }
}

/// The window never holds more than ten frames.
pub proof fn window_is_bounded(h: Seq<bool>, live: bool)
    requires
        h.len() <= WINDOW,
    ensures
        recorded(h, live).len() <= WINDOW,
        recorded(h, live).last() == live,
{
}

/// Frames that all passed are steady, and frames of which none passed are not.
pub proof fn unanimous_frames_decide(h: Seq<bool>)
    requires
        h.len() > 0,
    ensures
        (forall|i: int| 0 <= i < h.len() ==> h[i]) ==> is_stable(h),
        (forall|i: int| 0 <= i < h.len() ==> !h[i]) ==> !is_stable(h),
{
    if forall|i: int| 0 <= i < h.len() ==> h[i] {
        lemma_all_pass(h);
    }
    if forall|i: int| 0 <= i < h.len() ==> !h[i] {
        lemma_none_pass(h);
    }
}

proof fn lemma_all_pass(h: Seq<bool>)
    requires
        forall|i: int| 0 <= i < h.len() ==> h[i],
    ensures
        passes(h) == h.len(),
    decreases h.len(),
{
    if h.len() > 0 {
        lemma_all_pass(h.drop_last());
    }
}

proof fn lemma_none_pass(h: Seq<bool>)
    requires
        forall|i: int| 0 <= i < h.len() ==> !h[i],
    ensures
        passes(h) == 0,
    decreases h.len(),
{
    if h.len() > 0 {
        lemma_none_pass(h.drop_last());
    }
}

/// The frames that passed, by their places.
pub open spec fn passing(h: Seq<bool>) -> Set<int> {
    Set::new(|i: int| 0 <= i < h.len() && h[i])
}

/// The passes are counted one by one.
pub proof fn passes_are_counted(h: Seq<bool>)
    ensures
        passing(h).finite(),
        passes(h) == passing(h).len(),
        passes(h) <= h.len(),
    decreases h.len(),
{
    if h.len() == 0 {
        assert(passing(h) =~= Set::<int>::empty());
    } else {
        let prior = h.drop_last();
        passes_are_counted(prior);
        assert forall|i: int| passing(prior).contains(i) implies i != h.len() - 1 by {}
        if h.last() {
            assert(passing(h) =~= passing(prior).insert(h.len() - 1));
        } else {
            assert(passing(h) =~= passing(prior));
        }
    }
}

/// A face is live steadily exactly where there are frames to judge by and four in five of them
/// passed.
pub proof fn four_in_five_must_pass(h: Seq<bool>)
    ensures
        is_stable(h) <==> h.len() > 0 && 5 * passing(h).len() >= 4 * h.len(),
{
    passes_are_counted(h);
}

/// The window after all the frames.
pub open spec fn recorded_all(h: Seq<bool>, frames: Seq<bool>) -> Seq<bool>
    decreases frames.len(),
{
    if frames.len() == 0 {
        h
    } else {
        recorded(recorded_all(h, frames.drop_last()), frames.last())
    }
}

/// The window holds the last ten frames in their order, or all where there were no more.
pub proof fn window_holds_the_last_ten(frames: Seq<bool>)
    ensures
        recorded_all(Seq::empty(), frames) == if frames.len() <= 10 {
            frames
        } else {
            frames.skip(frames.len() - 10)
        },
    decreases frames.len(),
{
    let w = recorded_all(Seq::empty(), frames);
    if frames.len() == 0 {
        assert(w =~= frames);
    } else {
        window_holds_the_last_ten(frames.drop_last());
        if frames.len() <= 10 {
            assert(w =~= frames);
        } else {
            assert(w =~= frames.skip(frames.len() - 10));
        }
    }
}

} // verus!
