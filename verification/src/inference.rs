//! What one frame yields: the decisions between detection, liveness and recognition.
//!
//! The models run outside. A [`FramePipeline`] says which of them is to look at the face next
//! and takes in what it says.
use crate::config::LivenessConfig;
use crate::detection::{Detection, DetectionError};
use crate::geometry::FaceMetrics;
use crate::liveness::LivenessResult;
use crate::quality::IrLivenessScores;
use crate::scalar::Scalar;
use vstd::prelude::*;

verus! {

/// What was found in a frame.
#[derive(Debug)]
pub enum InferenceResult {
    Metrics {
        metrics: FaceMetrics,
        /// The embedding of the face, where it was computed.
        embedding: Option<Vec<Scalar>>,
        /// Whether the face is live, where that was judged.
        is_live: Option<bool>,
    },
    NoFace,
}

/// Bit pattern of the width ratio above which a face is looked at closely, 0.10.
pub const CLOSE_RATIO: u32 = 0x3dcc_cccd;

/// Bit pattern of the sharpness from which a picture counts as sharp, 50.
pub const SHARP: u32 = 0x4248_0000;

/// Age from which a frame is too old for the daemon, in nanoseconds.
pub const DAEMON_STALE: u128 = 500_000_000;

/// Age from which a frame is too old for the graphical interface, in nanoseconds.
pub const GUI_STALE: u128 = 200_000_000;

/// Whether a frame taken at `taken` is older than `limit` now.
pub fn is_stale(taken: u128, now: u128, limit: u128) -> (r: bool)
    ensures
        r == (now - taken > limit),
{
    now > taken && now - taken > limit
}

/// Whether the face is positioned well enough to be looked at closely.
pub open spec fn well_positioned(m: FaceMetrics) -> bool {
    &&& (Scalar { bits: CLOSE_RATIO }).below(m.face_width_ratio)
    &&& m.eyes_visible
    &&& !m.ir_saturated
}

/// Whether the face is positioned well enough to be looked at closely.
pub fn should_process(m: &FaceMetrics) -> (r: bool)
    ensures
        r == well_positioned(*m),
{
    m.face_width_ratio.gt(Scalar { bits: CLOSE_RATIO }) && m.eyes_visible && !m.ir_saturated
}

/// Whether the picture of a face is sharp.
pub fn is_sharp(m: &FaceMetrics) -> (r: bool)
    ensures
        r == m.blur_score.reaches(Scalar { bits: SHARP }),
{
    m.blur_score.ge(Scalar { bits: SHARP })
}

/// Whether the graphical interface computes an embedding of the face: where it is well
/// positioned, sharp and live.
pub fn worth_embedding(m: &FaceMetrics, liveness_pass: bool) -> (r: bool)
    ensures
        r == (well_positioned(*m) && m.blur_score.reaches(Scalar { bits: SHARP }) && liveness_pass),
{
    should_process(m) && is_sharp(m) && liveness_pass
}

/// The face that a frame is judged by: the first of those found, which is the surest; none where
/// the detection failed or found nothing.
pub open spec fn face_of(found: Result<Vec<Detection>, DetectionError>) -> Option<Detection> {
    match found {
        Ok(faces) => if faces@.len() == 0 {
            None
        } else {
            Some(faces@[0])
        },
        Err(_) => None,
    }
}

/// The face that a frame is judged by.
pub fn first_face(found: &Result<Vec<Detection>, DetectionError>) -> (r: Option<Detection>)
    ensures
        r == face_of(*found),
{
    match found {
        Ok(faces) => if faces.len() == 0 {
            None
        } else {
            Some(faces[0])
        },
        Err(_) => None,
    }
}

/// What is to be done about the face next.
#[derive(Debug, Clone, Copy, PartialEq, Eq, Structural)]
pub enum Work {
    /// Measure the face.
    Measure,
    /// Measure the texture of the face.
    Texture,
    /// Ask the anti-spoofing model.
    Model,
    /// Compute the embedding.
    Embedding,
    /// Nothing more.
    Done,
}

/// What is asked of a live face.
#[derive(Debug, Clone, Copy, PartialEq, Eq, Structural)]
pub struct LivenessLimits {
    pub lbp_entropy_min: Scalar,
    pub local_contrast_cv_min: Scalar,
    pub local_contrast_cv_max: Scalar,
    pub model_threshold: Scalar,
}

/// The limits that the settings give.
pub open spec fn limits_of(c: LivenessConfig) -> LivenessLimits {
    LivenessLimits {
        lbp_entropy_min: c.lbp_entropy_min,
        local_contrast_cv_min: c.local_contrast_cv_min,
        local_contrast_cv_max: c.local_contrast_cv_max,
        model_threshold: c.model_threshold,
    }
}

/// The work on one frame.
#[derive(Debug)]
pub struct FramePipeline {
    /// The face that the frame is judged by, where it shows one.
    pub face: Option<Detection>,
    /// What was measured of the face.
    pub metrics: Option<FaceMetrics>,
    /// Whether the texture of the face is to be judged.
    pub texture_wanted: bool,
    pub limits: LivenessLimits,
    /// Whether the anti-spoofing model is loaded.
    pub has_model: bool,
    /// Whether the recognition model is loaded.
    pub has_recognizer: bool,
    pub is_live: Option<bool>,
    pub embedding: Option<Vec<Scalar>>,
    pub work: Work,
}

impl FramePipeline {
    /// What follows once the face has passed for live, or was not asked to.
    pub open spec fn after_liveness(has_recognizer: bool) -> Work {
        if has_recognizer {
            Work::Embedding
        } else {
            Work::Done
        }
    }

    /// What follows once the texture has passed, or was not measured.
    pub open spec fn after_texture(has_model: bool, has_recognizer: bool) -> Work {
        if has_model {
            Work::Model
        } else {
            Self::after_liveness(has_recognizer)
        }
    }

    /// The work on a frame at its beginning. Without a face there is none.
    pub open spec fn started(
        face: Option<Detection>,
        config: LivenessConfig,
        has_model: bool,
        has_recognizer: bool,
    ) -> FramePipeline {
        FramePipeline {
            face,
            metrics: None,
            texture_wanted: config.enabled,
            limits: limits_of(config),
            has_model,
            has_recognizer,
            is_live: None,
            embedding: None,
            work: if face is Some {
                Work::Measure
            } else {
                Work::Done
            },
        }
    }

    /// The work once the face was measured. A face that is not well positioned ends it.
    pub open spec fn positioned(self, metrics: FaceMetrics) -> FramePipeline {
        FramePipeline {
            metrics: Some(metrics),
            work: if !well_positioned(metrics) {
                Work::Done
            } else if self.texture_wanted {
                Work::Texture
            } else {
                Self::after_texture(self.has_model, self.has_recognizer)
            },
            ..self
        }
    }

    /// The work once the texture is known. A texture that is not live ends it.
    pub open spec fn textured(self, scores: IrLivenessScores) -> FramePipeline {
        let live = scores.live(
            self.limits.lbp_entropy_min,
            self.limits.local_contrast_cv_min,
            self.limits.local_contrast_cv_max,
        );
        FramePipeline {
            is_live: Some(live),
            work: if live {
                Self::after_texture(self.has_model, self.has_recognizer)
            } else {
                Work::Done
            },
            ..self
        }
    }

    /// The work once the anti-spoofing model was asked. A spoof ends it; a failure does not.
    pub open spec fn modelled(self, result: Option<LivenessResult>) -> FramePipeline {
        if result matches Some(r) && !r.real_score.reaches(self.limits.model_threshold) {
            FramePipeline { is_live: Some(false), work: Work::Done, ..self }
        } else {
            FramePipeline { work: Self::after_liveness(self.has_recognizer), ..self }
        }
    }

    /// The work once the embedding was asked for.
    pub open spec fn recognised(self, embedding: Option<Vec<Scalar>>) -> FramePipeline {
        FramePipeline { embedding, work: Work::Done, ..self }
    }

    /// What the work has come to: without a face, that there is none.
    pub open spec fn result(self) -> InferenceResult {
        match self.metrics {
            None => InferenceResult::NoFace,
            Some(metrics) => InferenceResult::Metrics {
                metrics,
                embedding: self.embedding,
                is_live: self.is_live,
            },
        }
    }

    /// What holds of the work on a frame at any time: a face is measured first, and only a face is;
    /// only a well positioned face is worked on further; a face that did not pass for live is not,
    /// and has no embedding.
    pub open spec fn wf(self) -> bool {
        &&& self.face is None ==> self.metrics is None && self.work == Work::Done
        &&& self.face is Some ==> (self.metrics is None <==> self.work == Work::Measure)
        &&& self.metrics is None ==> self.is_live is None && self.embedding is None
        &&& self.metrics matches Some(m) ==> {
            self.work != Work::Done || self.embedding is Some ==> well_positioned(m)
        }
        &&& self.is_live == Some(false) ==> self.work == Work::Done && self.embedding is None
        &&& self.work != Work::Done ==> self.embedding is None
        &&& self.work == Work::Texture ==> self.is_live is None
    }

    /// Begins the work on a frame, by what the detection found in it.
    pub fn start(
        found: &Result<Vec<Detection>, DetectionError>,
        config: &LivenessConfig,
        has_model: bool,
        has_recognizer: bool,
    ) -> (r: FramePipeline)
        ensures
            r.wf(),
            r == Self::started(face_of(*found), *config, has_model, has_recognizer),
    {
        let face = first_face(found);
        FramePipeline {
            face,
            metrics: None,
            texture_wanted: config.enabled,
            limits: LivenessLimits {
                lbp_entropy_min: config.lbp_entropy_min,
                local_contrast_cv_min: config.local_contrast_cv_min,
                local_contrast_cv_max: config.local_contrast_cv_max,
                model_threshold: config.model_threshold,
            },
            has_model,
            has_recognizer,
            is_live: None,
            embedding: None,
            work: if face.is_some() {
                Work::Measure
            } else {
                Work::Done
            },
        }
    }

    /// Takes in what was measured of the face.
    pub fn measured(&mut self, metrics: FaceMetrics)
        requires
            old(self).wf(),
            old(self).work == Work::Measure,
        ensures
            final(self).wf(),
            *final(self) == old(self).positioned(metrics),
    {
        self.work = if !should_process(&metrics) {
            Work::Done
        } else if self.texture_wanted {
            Work::Texture
        } else if self.has_model {
            Work::Model
        } else if self.has_recognizer {
            Work::Embedding
        } else {
            Work::Done
        };
        self.metrics = Some(metrics);
    }

    /// Takes in the texture of the face.
    pub fn texture(&mut self, scores: &IrLivenessScores)
        requires
            old(self).wf(),
            old(self).work == Work::Texture,
        ensures
            final(self).wf(),
            *final(self) == old(self).textured(*scores),
    {
        let live = scores.is_live(
            self.limits.lbp_entropy_min,
            self.limits.local_contrast_cv_min,
            self.limits.local_contrast_cv_max,
        );
        self.is_live = Some(live);
        self.work = if !live {
            Work::Done
        } else if self.has_model {
            Work::Model
        } else if self.has_recognizer {
            Work::Embedding
        } else {
            Work::Done
        };
    }

    /// Takes in what the anti-spoofing model says, `None` where it failed.
    pub fn model(&mut self, result: Option<LivenessResult>)
        requires
            old(self).wf(),
            old(self).work == Work::Model,
        ensures
            final(self).wf(),
            *final(self) == old(self).modelled(result),
    {
        let spoof = match result {
            Some(r) => !r.is_real(self.limits.model_threshold),
            None => false,
        };
        if spoof {
            self.is_live = Some(false);
            self.work = Work::Done;
        } else if self.has_recognizer {
            self.work = Work::Embedding;
        } else {
            self.work = Work::Done;
        }
    }

    /// Takes in the embedding, `None` where it could not be computed.
    pub fn embedded(&mut self, embedding: Option<Vec<Scalar>>)
        requires
            old(self).wf(),
            old(self).work == Work::Embedding,
        ensures
            final(self).wf(),
            *final(self) == old(self).recognised(embedding),
    {
        self.embedding = embedding;
        self.work = Work::Done;
    }

    /// The result of the frame, once the work is done: that there is no face exactly where none was
    /// found.
    pub fn finish(self) -> (r: InferenceResult)
        requires
            self.wf(),
            self.work == Work::Done,
        ensures
            r == self.result(),
            r is NoFace <==> self.face is None,
    {
        match self.metrics {
            None => InferenceResult::NoFace,
            Some(metrics) => InferenceResult::Metrics {
                metrics,
                embedding: self.embedding,
                is_live: self.is_live,
            },
        }
    }
}

/// What the models say of a face, whether or not they are asked.
pub struct Answers {
    pub metrics: FaceMetrics,
    pub scores: IrLivenessScores,
    /// What the anti-spoofing model says, where it is loaded and does not fail.
    pub model: Option<LivenessResult>,
    /// The embedding, where the recognition model is loaded and does not fail.
    pub embedding: Option<Vec<Scalar>>,
}

/// Whether a face passes every check of its liveness: the texture where that is wanted, and the
/// anti-spoofing model where it answers.
pub open spec fn passes(config: LivenessConfig, answers: Answers) -> bool {
    &&& config.enabled ==> answers.scores.live(
        config.lbp_entropy_min,
        config.local_contrast_cv_min,
        config.local_contrast_cv_max,
    )
    &&& answers.model matches Some(r) ==> r.real_score.reaches(config.model_threshold)
}

/// What a frame comes to, all answers about its first face known. Where there is no face, it says
/// so. The liveness of a face is judged where it is well positioned, and a face that passes every
/// check is recognised.
pub open spec fn frame_result(
    found: Result<Vec<Detection>, DetectionError>,
    config: LivenessConfig,
    answers: spec_fn(Detection) -> Answers,
) -> InferenceResult {
    match face_of(found) {
        None => InferenceResult::NoFace,
        Some(face) => {
            let said = answers(face);
            let metrics = said.metrics;
            if !well_positioned(metrics) {
                InferenceResult::Metrics { metrics, embedding: None, is_live: None }
            } else if !passes(config, said) {
                InferenceResult::Metrics { metrics, embedding: None, is_live: Some(false) }
            } else {
                InferenceResult::Metrics {
                    metrics,
                    embedding: said.embedding,
                    is_live: if config.enabled {
                        Some(true)
                    } else {
                        None
                    },
                }
            }
        },
    }
}

/// The work on a frame from its beginning to its end, each model asked in its turn about the first
/// face.
pub open spec fn worked_out(
    found: Result<Vec<Detection>, DetectionError>,
    config: LivenessConfig,
    has_model: bool,
    has_recognizer: bool,
    answers: spec_fn(Detection) -> Answers,
) -> FramePipeline {
    let begun = FramePipeline::started(face_of(found), config, has_model, has_recognizer);
    let said = answers(begun.face->0);
    let positioned = if begun.work == Work::Measure {
        begun.positioned(said.metrics)
    } else {
        begun
    };
    let textured = if positioned.work == Work::Texture {
        positioned.textured(said.scores)
    } else {
        positioned
    };
    let modelled = if textured.work == Work::Model {
        textured.modelled(said.model)
    } else {
        textured
    };
    if modelled.work == Work::Embedding {
        modelled.recognised(said.embedding)
    } else {
        modelled
    }
}

/// The work on a frame ends, and comes to what the answers about its first face call for. A model
/// that is not loaded gives no answer.
pub proof fn work_comes_to_the_result(
    found: Result<Vec<Detection>, DetectionError>,
    config: LivenessConfig,
    has_model: bool,
    has_recognizer: bool,
    answers: spec_fn(Detection) -> Answers,
)
    requires
        forall|face: Detection| !has_model ==> (#[trigger] answers(face)).model is None,
        forall|face: Detection| !has_recognizer ==> (#[trigger] answers(face)).embedding is None,
    ensures
        ({
            let p = worked_out(found, config, has_model, has_recognizer, answers);
            p.work == Work::Done && p.result() == frame_result(found, config, answers)
        }),
{
}

/// A frame shows no face exactly where the detection failed or found nothing. Otherwise its result
/// is that of the first face: recognised only where it is well positioned and passes every check
/// of its liveness, and never where it did not pass for live. A model that fails blocks nothing.
pub proof fn first_face_decides(
    found: Result<Vec<Detection>, DetectionError>,
    config: LivenessConfig,
    answers: spec_fn(Detection) -> Answers,
)
    ensures
        frame_result(found, config, answers) is NoFace <==> (found is Err || found->Ok_0@.len() == 0),
        found is Ok && found->Ok_0@.len() > 0 ==> {
            let said = answers(found->Ok_0@[0]);
            &&& frame_result(found, config, answers) matches InferenceResult::Metrics {
                metrics,
                embedding,
                is_live,
            }
            &&& metrics == said.metrics
            &&& embedding is Some ==> well_positioned(metrics) && passes(config, said)
            &&& is_live == Some(false) ==> embedding is None
            &&& said.model is None && well_positioned(metrics) && (config.enabled
                ==> said.scores.live(
                config.lbp_entropy_min,
                config.local_contrast_cv_min,
                config.local_contrast_cv_max,
            )) ==> embedding == said.embedding
        },
{
}

/// A face is recognised only where it is well positioned and did not fail to pass for live.
pub proof fn embedding_needs_liveness(p: FramePipeline)
    requires
        p.wf(),
        p.embedding is Some,
    ensures
        p.face is Some,
        p.metrics matches Some(m) && well_positioned(m),
        p.is_live != Some(false),
        p.work == Work::Done,
{
}

/// A face is looked at closely exactly where it is wider than a tenth of the frame, shows both eyes and
/// does not glare.
pub proof fn close_faces_are_looked_at(m: FaceMetrics)
    ensures
        well_positioned(m) <==> (Scalar { bits: 0x3dcc_cccd }).below(m.face_width_ratio)
            && m.eyes_visible && !m.ir_saturated,
{
}

/// What becomes of the first face, check by check: one that is badly positioned is not judged, one
/// that fails the texture or the model is no living face, and any other is recognised.
pub proof fn each_check_can_stop_a_face(
    found: Result<Vec<Detection>, DetectionError>,
    config: LivenessConfig,
    answers: spec_fn(Detection) -> Answers,
)
    requires
        found is Ok,
        found->Ok_0@.len() > 0,
    ensures
        ({
            let said = answers(found->Ok_0@[0]);
            let m = said.metrics;
            let s = said.scores;
            let r = frame_result(found, config, answers);
            let near = (Scalar { bits: 0x3dcc_cccd }).below(m.face_width_ratio) && m.eyes_visible
                && !m.ir_saturated;
            let flat = config.enabled && !s.lbp_entropy.reaches(config.lbp_entropy_min);
            let even = config.enabled && !s.local_contrast_cv.reaches(config.local_contrast_cv_min);
            let rough = config.enabled && !config.local_contrast_cv_max.reaches(s.local_contrast_cv);
            let fake = said.model is Some && !said.model->0.real_score.reaches(
                config.model_threshold,
            );
            &&& r is Metrics
            &&& !near ==> r->is_live is None && r->embedding is None
            &&& near && (flat || even || rough || fake) ==> r->is_live == Some(false)
                && r->embedding is None
            &&& near && !flat && !even && !rough && !fake ==> r->embedding == said.embedding
                && r->is_live == if config.enabled {
                Some(true)
            } else {
                None::<bool>
            }
        }),
{
}

/// A frame is stale once it is older than the limit, and an embedding is worth its while for a face
/// that is near, sharp and alive.
pub proof fn old_frames_are_stale(
    taken: u128,
    now: u128,
    limit: u128,
    stale: bool,
    m: FaceMetrics,
    alive: bool,
    worth: bool,
)
    requires
        call_ensures(is_stale, (taken, now, limit), stale),
        call_ensures(worth_embedding, (&m, alive), worth),
    ensures
        stale <==> now > taken + limit,
        worth <==> (Scalar { bits: 0x3dcc_cccd }).below(m.face_width_ratio) && m.eyes_visible
            && !m.ir_saturated && m.blur_score.reaches(Scalar { bits: 0x4248_0000 }) && alive,
{
}

} // verus!
