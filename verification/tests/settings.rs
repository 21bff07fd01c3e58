use face_auth::config::Config;
use face_auth::configure::{
    bottom_line, parse_val, reload_message, table_text, to_config, to_fields, validate, App, FieldId, Flow, Fractions, Key, Tone, Val,
};
use face_auth::scalar::Scalar;
use face_auth::settings_tab::{provider_choices, ConfigureTab, Control, SaveError, Setting};

fn num(v: f32) -> Scalar {
    Scalar::from_bits(v.to_bits())
}

fn none() -> Fractions {
    Fractions { shown: String::new(), typed: None }
}

fn type_text(app: &mut App, text: &str) {
    while !app.buf.is_empty() {
        app.on_key(Key::Backspace, &none());
    }
    for c in text.chars() {
        app.on_key(Key::Char(c), &none());
    }
}

fn select(app: &mut App, id: FieldId) {
    while app.fields[app.selected].id != id {
        assert_eq!(app.on_key(Key::Down, &none()), Flow::Continue);
    }
}

#[test]
fn unchanged_table_keeps_the_settings() {
    let mut config = Config::default();
    config.daemon.session_timeout_s = 11;
    config.camera.device_path = "/dev/video2".to_string();
    let fields = to_fields(&config);
    assert_eq!(fields.len(), 20);
    let back = to_config(&config, &fields);
    assert_eq!(back.daemon.session_timeout_s, 11);
    assert_eq!(back.camera.device_path, "/dev/video2");
    assert_eq!(back.geometry, config.geometry);
    assert!(fields[0].modified("", ""));
}

#[test]
fn typing_a_number() {
    let mut app = App::new(Config::default());
    app.on_key(Key::Enter, &none());
    assert!(app.edit);
    type_text(&mut app, "0");
    app.on_key(Key::Enter, &none());
    assert_eq!(app.err.as_deref(), Some("must be at least 1"));
    assert_eq!(bottom_line(&app).tone, Tone::Error);
    type_text(&mut app, " 12 ");
    assert_eq!(app.on_key(Key::Enter, &none()), Flow::Continue);
    assert!(!app.edit && app.dirty);
    assert_eq!(app.config().daemon.session_timeout_s, 12);
    assert_eq!(app.config().daemon.idle_unload_s, 0);
}

#[test]
fn typing_a_fraction() {
    let mut app = App::new(Config::default());
    select(&mut app, FieldId::Threshold);
    app.on_key(Key::Char('e'), &Fractions { shown: "0.700".to_string(), typed: None });
    assert_eq!(bottom_line(&app).text, " threshold > [0.700]  Esc=cancel  Enter=confirm");
    app.on_key(Key::Enter, &Fractions { shown: String::new(), typed: Some(num(1.0)) });
    assert_eq!(app.err.as_deref(), Some("must be between 0.0 and 1.0"));
    app.on_key(Key::Enter, &Fractions { shown: String::new(), typed: Some(num(0.5)) });
    assert_eq!(app.config().recognition.threshold, num(0.5));
}

#[test]
fn escape_gives_up_typing() {
    let mut app = App::new(Config::default());
    app.on_key(Key::Enter, &none());
    type_text(&mut app, "99");
    app.on_key(Key::Esc, &none());
    assert!(!app.edit && !app.dirty);
    assert_eq!(app.config().daemon.session_timeout_s, 7);
    assert_eq!(app.on_key(Key::Esc, &none()), Flow::Quit);
    assert_eq!(app.on_key(Key::Char('s'), &none()), Flow::Save);
}

#[test]
fn switches_are_toggled_and_reset() {
    let mut app = App::new(Config::default());
    select(&mut app, FieldId::LivenessEnabled);
    app.on_key(Key::Enter, &none());
    assert!(!app.config().liveness.enabled);
    app.on_key(Key::Char('r'), &none());
    assert!(app.config().liveness.enabled);
    let line = bottom_line(&app);
    assert_eq!((line.text.as_str(), line.tone), (" enabled reset to default", Tone::Good));
    app.saved(Ok("daemon reloaded"));
    assert!(!app.dirty);
    assert_eq!(bottom_line(&app).text, " Saved — daemon reloaded");
    app.saved(Err("no".to_string()));
    assert_eq!(bottom_line(&app).tone, Tone::Error);
}

#[test]
fn selection_stays_in_the_table() {
    let mut app = App::new(Config::default());
    app.on_key(Key::Up, &none());
    assert_eq!(app.selected, 0);
    assert_eq!(app.section_label(0), "daemon");
    assert_eq!(app.section_label(1), "");
    for _ in 0..30 {
        app.on_key(Key::Char('j'), &none());
    }
    assert_eq!(app.selected, 19);
    app.on_key(Key::Char('k'), &none());
    assert_eq!(app.selected, 18);
}

#[test]
fn values_are_parsed_and_checked() {
    let parsed = |t: Val, s: &str| parse_val(&t, s, None);
    assert!(matches!(parsed(Val::Bool(false), "yes"), Ok(Val::Bool(true))));
    assert!(matches!(parsed(Val::Bool(true), "off"), Ok(Val::Bool(false))));
    assert_eq!(parsed(Val::Bool(true), "maybe").unwrap_err(), "enter true or false");
    assert!(matches!(parsed(Val::U32(0), "4294967295"), Ok(Val::U32(u32::MAX))));
    assert_eq!(parsed(Val::U32(0), "4294967296").unwrap_err(), "expected non-negative integer");
    assert!(matches!(parsed(Val::I32(0), "-12"), Ok(Val::I32(-12))));
    assert_eq!(parsed(Val::I32(0), "x").unwrap_err(), "expected integer");
    assert_eq!(
        parsed(Val::F32(num(0.0)), "x").unwrap_err(),
        "expected decimal number (e.g. 0.70)"
    );
    assert_eq!(
        validate(FieldId::LogLevel, &Val::Str("loud".to_string())).unwrap(),
        "must be: error, warn, info, debug, trace"
    );
    assert!(validate(FieldId::LogLevel, &Val::Str("trace".to_string())).is_none());
    assert_eq!(
        validate(FieldId::ExecutionProvider, &Val::Str("tpu".to_string())).unwrap(),
        "must be: cpu, rocm, cuda, xdna"
    );
    assert_eq!(validate(FieldId::FramesRequired, &Val::U32(0)).unwrap(), "must be at least 1");
}

#[test]
fn daemon_is_told() {
    assert_eq!(reload_message(Some(true)), "daemon reloaded");
    assert_eq!(
        reload_message(Some(false)),
        "saved (daemon not running — start with: systemctl start face-authd)"
    );
    assert_eq!(reload_message(None), "saved (systemctl unavailable — restart daemon manually)");
}

#[test]
fn values_in_the_table() {
    assert_eq!(table_text(&Val::Bool(true), ""), "true  ✓");
    assert_eq!(table_text(&Val::F32(num(0.25)), "0.250"), "0.250");
    assert_eq!(table_text(&Val::I32(-7), ""), "-7");
}

#[test]
fn window_settings() {
    let all = Setting::all();
    assert_eq!(all.len(), 18);
    assert_eq!(provider_choices(), vec!["cpu", "rocm", "cuda", "xdna"]);
    match Setting::Threshold.control() {
        Control::Drag { min, max, .. } | Control::Slider { min, max, .. } => assert!(min.lt(max)),
        _ => panic!("the threshold has no limits"),
    }
}

#[test]
fn window_tracks_changes() {
    let prev = Config::default();
    let mut tab = ConfigureTab::new();
    assert_eq!(tab.save_label(), "Save");
    tab.edited(&prev, &Config::default());
    assert!(!tab.dirty);
    let mut config = Config::default();
    config.recognition.threshold = num(0.6);
    tab.edited(&prev, &config);
    assert_eq!(tab.save_label(), "Save *");
    tab.saved(Err(SaveError::Write("denied".to_string())));
    assert!(tab.dirty);
    assert_eq!(
        tab.save_status,
        Some(Err("Write failed: denied\n(Need root — run with sudo)".to_string()))
    );
    tab.saved(Err(SaveError::Serialize("x".to_string())));
    assert_eq!(tab.save_status, Some(Err("Serialize failed: x".to_string())));
    tab.saved(Ok(()));
    assert!(!tab.dirty);
    assert_eq!(tab.save_status, Some(Ok("Saved to /etc/face-auth/config.toml".to_string())));
}
