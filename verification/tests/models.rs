use face_auth::config::{Config, LivenessConfig};
use face_auth::detection::{
    candidate_anchors, check_outputs, large_enough, nms, rank_by_confidence, suppress, Anchor, Detection,
    DetectionError,
};
use face_auth::error::DaemonError;
use face_auth::geometry::{BBox, FaceMetrics, Landmarks, Point};
use face_auth::inference::{
    first_face, is_sharp, is_stale, should_process, worth_embedding, FramePipeline, InferenceResult, Work, DAEMON_STALE,
};
use face_auth::ir_emitter::IrEmitterError;
use face_auth::liveness::LivenessResult;
use face_auth::model_store::ModelStore;
use face_auth::models::{execution_providers, Model, Provider};
use face_auth::quality::IrLivenessScores;
use face_auth::scalar::Scalar;

const S: u128 = 1_000_000_000;

fn num(v: f32) -> Scalar {
    Scalar::from_bits(v.to_bits())
}

fn detection(confidence: f32) -> Detection {
    let p = Point { x: num(0.0), y: num(0.0) };
    Detection {
        bbox: BBox { x1: num(0.0), y1: num(0.0), x2: num(9.0), y2: num(9.0) },
        landmarks: Landmarks {
            left_eye: p,
            right_eye: p,
            nose: p,
            left_mouth: p,
            right_mouth: p,
            left_eye_conf: num(1.0),
            right_eye_conf: num(1.0),
        },
        confidence: num(confidence),
    }
}

#[test]
fn providers_fall_back_on_the_processor() {
    assert_eq!(execution_providers("cpu"), vec![Provider::Cpu]);
    assert_eq!(execution_providers("cuda"), vec![Provider::Cuda, Provider::Cpu]);
    assert_eq!(execution_providers("rocm"), vec![Provider::Rocm, Provider::Cpu]);
    assert_eq!(execution_providers("openvino"), vec![Provider::OpenVino, Provider::Cpu]);
    assert_eq!(execution_providers("xdna"), vec![Provider::Vitis, Provider::Cpu]);
    assert_eq!(execution_providers("vitis"), vec![Provider::Vitis, Provider::Cpu]);
    assert_eq!(execution_providers("typo"), vec![Provider::Cpu]);
}

#[test]
fn models_are_looked_for_in_order() {
    assert_eq!(
        Model::Recognition.places(),
        vec![
            "models/w600k_mbf.onnx",
            "/usr/share/face-auth/models/w600k_mbf.onnx",
            "/var/lib/face-auth/models/w600k_mbf.onnx"
        ]
    );
    assert_eq!(Model::Detection.locate(&vec![false, true, true]), Ok(1));
    assert_eq!(
        Model::AntiSpoof.locate(&vec![false, false, false]),
        Err("antispoof_q.onnx not found in ./models/, /usr/share/face-auth/models/, or /var/lib/face-auth/models/"
            .to_string())
    );
}

#[test]
fn detector_outputs_are_checked() {
    assert!(check_outputs(9).is_ok());
    assert_eq!(check_outputs(6).unwrap_err().message(), "inference error: expected 9 outputs, got 6");
    assert_eq!(DetectionError::Ort("o".to_string()).message(), "ort error: o");
    assert_eq!(
        DetectionError::ModelNotFound("m".to_string()).message(),
        "model file not found: m"
    );
}

#[test]
fn anchors_lie_in_a_grid() {
    let mut scores = vec![num(0.1); 2 * 20 * 20];
    scores[0] = num(0.5);
    scores[47] = num(0.9);
    assert_eq!(
        candidate_anchors(&scores, 32),
        vec![Anchor { index: 0, row: 0, col: 0 }, Anchor { index: 47, row: 1, col: 3 }]
    );
    assert_eq!(candidate_anchors(&vec![num(0.6); 3], 640).len(), 2);
}

#[test]
fn tiny_faces_do_not_count() {
    assert!(large_enough(num(1.0), num(2.0)));
    assert!(!large_enough(num(0.9), num(2.0)));
    assert!(!large_enough(num(3.0), num(0.0)));
}

#[test]
fn surest_face_wins() {
    let dets = vec![detection(0.6), detection(0.9), detection(0.6), detection(0.8)];
    let order = rank_by_confidence(&dets);
    assert_eq!(order, vec![1, 3, 0, 2]);
    // Ranks 0 and 1 are one face, and so are ranks 1 and 2.
    let mut overlaps = vec![vec![false; 4]; 4];
    for (a, b) in [(0, 1), (1, 2)] {
        overlaps[a][b] = true;
        overlaps[b][a] = true;
    }
    assert_eq!(suppress(&overlaps), vec![true, false, true, true]);
    let kept = nms(&dets, &order, &overlaps);
    assert_eq!(kept, vec![dets[1], dets[0], dets[2]]);
}

#[test]
fn models_go_when_idle() {
    let mut store = ModelStore::new("cpu", 10 * S);
    assert!(!store.maybe_unload(5, false, 14 * S));
    assert!(!store.maybe_unload(5, true, 15 * S));
    assert!(!store.maybe_unload(0, false, 99 * S));
    store.touch(12 * S);
    assert!(!store.maybe_unload(5, false, 16 * S));
    assert!(store.maybe_unload(5, false, 17 * S));
    assert!(!store.is_loaded());
    assert!(store.needs_load());
    let e = store.get_or_load(Err("gone".to_string()), 18 * S).unwrap_err();
    assert_eq!(e.message(), "camera error: model reload: gone");
    assert!(!store.is_loaded());
    store.get_or_load(Ok(()), 18 * S).unwrap();
    assert!(store.is_loaded());
    assert_eq!(store.last_used, 18 * S);
    assert!(store.reload_with_ep("cuda", Err("x".to_string()), 20 * S).is_err());
    assert!(!store.is_loaded());
    assert_eq!(store.ep_name, "cuda");
    store.reload_with_ep("rocm", Ok(()), 21 * S).unwrap();
    assert!(store.is_loaded());
}

#[test]
fn daemon_errors_in_words() {
    assert_eq!(DaemonError::Io("a".to_string()).message(), "IO error: a");
    assert_eq!(DaemonError::Camera("b".to_string()).message(), "camera error: b");
    assert_eq!(DaemonError::SessionBusy.message(), "session already active");
    assert_eq!(DaemonError::Join("c".to_string()).message(), "task join error: c");
    assert_eq!(
        DaemonError::IrEmitter(IrEmitterError::NoConfig("p".to_string())).message(),
        "IR emitter error: config file not found at p"
    );
}

fn metrics(ratio: f32, blur: f32) -> FaceMetrics {
    FaceMetrics {
        face_width_ratio: num(ratio),
        yaw_deg: num(0.0),
        pitch_deg: num(0.0),
        roll_deg: num(0.0),
        ir_saturated: false,
        eyes_visible: true,
        blur_score: num(blur),
    }
}

#[test]
fn frames_worth_looking_at() {
    assert!(is_stale(0, DAEMON_STALE + 1, DAEMON_STALE));
    assert!(!is_stale(0, DAEMON_STALE, DAEMON_STALE));
    assert!(!is_stale(9, 3, 0));
    assert!(should_process(&metrics(0.11, 0.0)));
    assert!(!should_process(&metrics(0.10, 0.0)));
    assert!(is_sharp(&metrics(0.2, 50.0)));
    assert!(!is_sharp(&metrics(0.2, 49.9)));
    assert!(worth_embedding(&metrics(0.2, 60.0), true));
    assert!(!worth_embedding(&metrics(0.2, 60.0), false));
    assert!(!worth_embedding(&metrics(0.2, 40.0), true));
}

fn live() -> IrLivenessScores {
    let c = Config::default().liveness;
    IrLivenessScores { lbp_entropy: c.lbp_entropy_min, local_contrast_cv: c.local_contrast_cv_min }
}

fn face(x: f32, confidence: f32) -> Detection {
    let p = Point { x: num(x), y: num(0.0) };
    Detection {
        bbox: BBox { x1: num(x), y1: num(0.0), x2: num(x + 9.0), y2: num(9.0) },
        landmarks: Landmarks {
            left_eye: p,
            right_eye: p,
            nose: p,
            left_mouth: p,
            right_mouth: p,
            left_eye_conf: num(1.0),
            right_eye_conf: num(1.0),
        },
        confidence: num(confidence),
    }
}

/// The work on a frame with a face of these measurements.
fn measured(m: FaceMetrics, config: &LivenessConfig, has_model: bool, has_recognizer: bool) -> FramePipeline {
    let mut p = FramePipeline::start(&Ok(vec![face(1.0, 0.9)]), config, has_model, has_recognizer);
    assert_eq!(p.work, Work::Measure);
    p.measured(m);
    p
}

#[test]
fn first_face_is_taken() {
    let config = Config::default().liveness;
    let none: [Result<Vec<Detection>, DetectionError>; 2] =
        [Ok(vec![]), Err(DetectionError::Inference("x".to_string()))];
    for found in none {
        assert!(first_face(&found).is_none());
        let p = FramePipeline::start(&found, &config, true, true);
        assert_eq!(p.work, Work::Done);
        assert!(matches!(p.finish(), InferenceResult::NoFace));
    }
    let found = Ok(vec![face(5.0, 0.9), face(7.0, 0.8)]);
    assert_eq!(first_face(&found), Some(face(5.0, 0.9)));
    let mut p = FramePipeline::start(&found, &config, true, true);
    assert_eq!((p.work, p.face), (Work::Measure, Some(face(5.0, 0.9))));
    p.measured(metrics(0.01, 90.0));
    assert!(matches!(p.finish(), InferenceResult::Metrics { embedding: None, is_live: None, .. }));
}

#[test]
fn live_face_is_recognised() {
    let config = Config::default().liveness;
    let mut p = measured(metrics(0.3, 90.0), &config, true, true);
    assert_eq!(p.work, Work::Texture);
    p.texture(&live());
    assert_eq!((p.work, p.is_live), (Work::Model, Some(true)));
    p.model(Some(LivenessResult { real_score: config.model_threshold, spoof_score: num(0.0) }));
    assert_eq!(p.work, Work::Embedding);
    p.embedded(Some(vec![num(1.0)]));
    match p.finish() {
        InferenceResult::Metrics { embedding, is_live, .. } => {
            assert_eq!(embedding, Some(vec![num(1.0)]));
            assert_eq!(is_live, Some(true));
        }
        InferenceResult::NoFace => panic!("the face is lost"),
    }
}

#[test]
fn spoof_is_not_recognised() {
    let config = Config::default().liveness;
    let mut p = measured(metrics(0.3, 90.0), &config, true, true);
    p.texture(&IrLivenessScores { lbp_entropy: num(0.0), local_contrast_cv: num(0.0) });
    assert_eq!((p.work, p.is_live), (Work::Done, Some(false)));

    let mut p = measured(metrics(0.3, 90.0), &config, true, true);
    p.texture(&live());
    p.model(Some(LivenessResult { real_score: num(0.0), spoof_score: num(1.0) }));
    assert_eq!((p.work, p.is_live), (Work::Done, Some(false)));

    let mut p = measured(metrics(0.3, 90.0), &config, true, true);
    p.texture(&live());
    p.model(None);
    assert_eq!((p.work, p.is_live), (Work::Embedding, Some(true)));
}

#[test]
fn unused_models_are_passed_over() {
    let mut config = Config::default().liveness;
    let p = measured(metrics(0.05, 90.0), &config, true, true);
    assert_eq!(p.work, Work::Done);
    config.enabled = false;
    assert_eq!(measured(metrics(0.3, 9.0), &config, true, true).work, Work::Model);
    assert_eq!(measured(metrics(0.3, 9.0), &config, false, true).work, Work::Embedding);
    let p = measured(metrics(0.3, 9.0), &config, false, false);
    assert_eq!((p.work, p.is_live), (Work::Done, None));
}
