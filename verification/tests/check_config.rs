use face_auth::check_config::{
    check_config, tag, CameraCheck, CheckConfigTab, ConfigFile, EmitterCheck, Facts, Level,
};
use face_auth::config::Config;
use face_auth::enrollment::ENROLLMENT_VERSION;
use face_auth::scalar::Scalar;

fn fine() -> Facts {
    Facts {
        config_file: ConfigFile::Loaded,
        detection_model: true,
        recognition_model: true,
        liveness_model: true,
        camera: CameraCheck::Works { path: "/dev/video2".to_string(), width: 640, height: 360 },
        emitter: EmitterCheck::Found { path: "ir-emitter.toml".to_string(), unit: 14, selector: 6 },
        enrollment: Some((15, ENROLLMENT_VERSION)),
        socket_exists: true,
        pam_module: true,
        username: "ann".to_string(),
        threshold_text: "0.70".to_string(),
    }
}

fn texts(facts: &Facts, config: &Config) -> Vec<String> {
    check_config(facts, config).lines.into_iter().map(|l| format!("{}{}", tag(l.level), l.text)).collect()
}

#[test]
fn everything_is_fine() {
    let mut config = Config::default();
    config.liveness.model_enabled = true;
    let report = check_config(&fine(), &config);
    assert_eq!((report.errors, report.warnings, report.exit_code()), (0, 0, 0));
    assert_eq!(report.summary(), "\x1b[32mAll checks passed.\x1b[0m");
    let lines = texts(&fine(), &config);
    assert_eq!(lines[0], "\x1b[32m[OK]\x1b[0m Config: /etc/face-auth/config.toml");
    assert_eq!(lines[1], "\x1b[32m[OK]\x1b[0m Model: SCRFD detection (det_500m.onnx)");
    assert_eq!(lines[3], "\x1b[32m[OK]\x1b[0m Model: liveness (antispoof_q.onnx)");
    assert_eq!(lines[4], "\x1b[32m[OK]\x1b[0m Camera: /dev/video2 (640x360)");
    assert_eq!(lines[5], "\x1b[32m[OK]\x1b[0m IR emitter: ir-emitter.toml (unit=14, selector=6)");
    assert_eq!(lines.len(), 9);
}

#[test]
fn failures_are_counted() {
    let mut facts = fine();
    facts.config_file = ConfigFile::Broken("line 1".to_string());
    facts.recognition_model = false;
    facts.camera = CameraCheck::NotFound("no IR camera found".to_string());
    facts.enrollment = None;
    facts.pam_module = false;
    let config = Config::default();
    let report = check_config(&facts, &config);
    assert_eq!((report.errors, report.warnings, report.exit_code()), (3, 2, 1));
    assert_eq!(report.summary(), "\x1b[31m3 error(s)\x1b[0m, 2 warning(s).");
    let lines = texts(&facts, &config);
    assert_eq!(lines[0], "\x1b[31m[FAIL]\x1b[0m Config parse error: line 1");
    assert_eq!(lines[2], "\x1b[31m[FAIL]\x1b[0m Model not found: w600k_mbf.onnx (ArcFace recognition)");
    assert_eq!(lines[3], "\x1b[90m[SKIP]\x1b[0m Model: liveness (model_enabled=false)");
    assert_eq!(lines[6], "\x1b[33m[WARN]\x1b[0m Enrollment: no data for 'ann'");
}

#[test]
fn warnings_alone_do_not_fail() {
    let mut facts = fine();
    facts.emitter = EmitterCheck::Missing;
    facts.socket_exists = false;
    facts.enrollment = Some((3, 1));
    let mut config = Config::default();
    config.recognition.threshold = Scalar::from_bits(0.3f32.to_bits());
    config.daemon.session_timeout_s = 2;
    facts.threshold_text = "0.30".to_string();
    let report = check_config(&facts, &config);
    assert_eq!((report.errors, report.warnings, report.exit_code()), (0, 5, 0));
    assert_eq!(report.summary(), "\x1b[32mNo errors.\x1b[0m 5 warning(s).");
    let lines = texts(&facts, &config);
    assert_eq!(
        lines[6],
        "\x1b[33m[WARN]\x1b[0m Enrollment: ann (3 embeddings, format v1 — stale, re-enroll for best accuracy)"
    );
    assert_eq!(lines[9], "\x1b[33m[WARN]\x1b[0m Threshold 0.30 is low — may allow spoofs");
    assert_eq!(lines[10], "\x1b[33m[WARN]\x1b[0m Timeout 2s is very short");
}

#[test]
fn camera_troubles() {
    let mut facts = fine();
    let config = Config::default();
    facts.camera = CameraCheck::NoOpen { path: "/dev/v".to_string(), error: "busy".to_string() };
    assert_eq!(texts(&facts, &config)[4], "\x1b[31m[FAIL]\x1b[0m Camera /dev/v: busy");
    facts.camera = CameraCheck::NoFormat { path: "/dev/v".to_string(), error: "x".to_string() };
    assert_eq!(texts(&facts, &config)[4], "\x1b[31m[FAIL]\x1b[0m Camera /dev/v: cannot get format: x");
}

#[test]
fn short_report() {
    let mut tab = CheckConfigTab::new();
    assert!(!tab.ran && tab.output.is_empty());
    let mut facts = fine();
    facts.detection_model = false;
    tab.run_checks(&facts, "/run/s");
    assert!(tab.ran);
    let lines: Vec<(Level, &str)> = tab.output.iter().map(|l| (l.level, l.text.as_str())).collect();
    assert_eq!(
        lines,
        vec![
            (Level::Pass, "[OK] Config: /etc/face-auth/config.toml"),
            (Level::Fail, "[FAIL] Model not found: det_500m.onnx"),
            (Level::Pass, "[OK] Model: ArcFace recognition"),
            (Level::Pass, "[OK] Daemon socket: /run/s"),
            (Level::Pass, "[OK] PAM module installed"),
        ]
    );
}
