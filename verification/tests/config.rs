use face_auth::config::{plan_reload, Config, ConfigError, Reload};

fn val(s: face_auth::scalar::Scalar) -> f32 {
    f32::from_bits(s.bits)
}

#[test]
fn default_config_values() {
    let cfg = Config::default();
    assert_eq!(cfg.daemon.session_timeout_s, 7);
    assert_eq!(val(cfg.geometry.distance_min), 0.06);
    assert_eq!(val(cfg.recognition.threshold), 0.70);
    assert!(cfg.liveness.enabled);
}

#[test]
fn load_missing_file_returns_defaults() {
    let cfg = Config::load(None).unwrap();
    assert_eq!(cfg.daemon.session_timeout_s, 7);
}

#[test]
fn all_defaults() {
    let c = Config::default();
    assert_eq!(c.platform.display_manager, "sddm");
    assert_eq!(c.platform.init_system, "systemd");
    assert!(c.platform.selinux);
    assert_eq!(c.daemon.socket_path, "/run/face-auth/pam.sock");
    assert_eq!(c.daemon.ui_socket_path, "/run/face-auth/ui.sock");
    assert_eq!(c.daemon.idle_unload_s, 0);
    assert_eq!(c.daemon.max_concurrent, 1);
    assert_eq!(c.daemon.execution_provider, "cpu");
    assert_eq!(c.camera.device_path, "");
    assert_eq!(val(c.camera.crop_right_fraction), 1.0);
    assert_eq!(c.recognition.frames_required, 2);
    assert_eq!(c.logging.level, "info");
    assert_eq!(val(c.geometry.distance_max), 0.55);
}

#[test]
fn file_contents_are_used() {
    let mut c = Config::default();
    c.daemon.session_timeout_s = 9;
    let loaded = Config::load(Some(Ok(c))).unwrap();
    assert_eq!(loaded.daemon.session_timeout_s, 9);
    match Config::load(Some(Err("line 3".to_string()))) {
        Err(e) => assert_eq!(e.message(), "failed to parse config: line 3"),
        Ok(_) => panic!("a broken file was loaded"),
    }
    assert_eq!(Config::system_path(), "/etc/face-auth/config.toml");
}

#[test]
fn clone_keeps_settings() {
    let mut c = Config::default();
    c.daemon.execution_provider = "cuda".to_string();
    c.notify.timeout_ms = -3;
    let d = c.clone();
    assert_eq!(d.daemon.execution_provider, "cuda");
    assert_eq!(d.notify.timeout_ms, -3);
    assert_eq!(d.geometry, c.geometry);
}

#[test]
fn reload_plans() {
    let current = Config::default();
    let mut other = Config::default();
    other.daemon.execution_provider = "rocm".to_string();
    assert_eq!(plan_reload(&current, &Ok(other)), Reload::Swap { reload_models: true });
    assert_eq!(plan_reload(&current, &Ok(Config::default())), Reload::Swap { reload_models: false });
    assert_eq!(plan_reload(&current, &Err(ConfigError::Parse("x".to_string()))), Reload::Keep);
}
