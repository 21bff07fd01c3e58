use face_auth::liveness::{check_scores, LivenessError, LivenessResult, LivenessWindow, WINDOW};
use face_auth::scalar::Scalar;

fn num(v: f32) -> Scalar {
    Scalar::from_bits(v.to_bits())
}

#[test]
fn liveness_result_threshold() {
    let r = LivenessResult { real_score: num(0.8), spoof_score: num(0.2) };
    assert!(r.is_real(num(0.5)));
    assert!(!r.is_real(num(0.9)));
}

#[test]
fn messages_name_the_cause() {
    assert_eq!(
        LivenessError::ModelNotFound("a.onnx".to_string()).message(),
        "model file not found: a.onnx"
    );
    assert_eq!(LivenessError::Ort("b".to_string()).message(), "ort error: b");
    assert_eq!(LivenessError::Inference("c".to_string()).message(), "inference error: c");
}

#[test]
fn two_scores_are_needed() {
    assert!(check_scores(2).is_ok());
    assert_eq!(
        check_scores(1).unwrap_err().message(),
        "inference error: expected 2 outputs, got 1"
    );
}

#[test]
fn eighty_percent_is_stable() {
    let mut w = LivenessWindow::new();
    assert!(!w.stable());
    for _ in 0..8 {
        w.record(true);
    }
    w.record(false);
    w.record(false);
    assert_eq!(w.pass_count(), 8);
    assert!(w.stable());
    w.record(false);
    assert_eq!(w.pass_count(), 7);
    assert!(!w.stable());
    assert_eq!(w.history.len(), WINDOW);
    w.clear();
    assert_eq!(w.pass_count(), 0);
    assert!(!w.stable());
}
