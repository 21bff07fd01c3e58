use face_auth::ir_emitter::{load_ir_config, parse_byte_array, parse_int, IrEmitterConfig, IrEmitterError};
use face_auth::text::chars_of;

#[test]
fn parse_config() {
    let toml = r#"
# IR emitter config
unit        = 3
selector    = 8
enable_data  = [0x01]
disable_data = [0x00]
"#;
    let cfg = IrEmitterConfig::parse(toml).unwrap();
    assert_eq!(cfg.unit, 3);
    assert_eq!(cfg.selector, 8);
    assert_eq!(cfg.enable_data, vec![0x01]);
    assert_eq!(cfg.disable_data, Some(vec![0x00]));
}

#[test]
fn parse_multi_byte() {
    let toml = "unit = 4\nselector = 10\nenable_data = [0x10, 0x00, 0x01]\n";
    let cfg = IrEmitterConfig::parse(toml).unwrap();
    assert_eq!(cfg.enable_data, vec![0x10, 0x00, 0x01]);
    assert!(cfg.disable_data.is_none());
}

#[test]
fn trailing_comments_are_ignored() {
    let toml = "unit = 0x0E # the unit\nselector = 6\nenable_data = [1, 3, ] # on\nother = 9\n";
    let cfg = IrEmitterConfig::parse(toml).unwrap();
    assert_eq!((cfg.unit, cfg.selector), (14, 6));
    assert_eq!(cfg.enable_data, vec![1, 3]);
}

#[test]
fn broken_lines_are_named() {
    let cause = |t: &str| IrEmitterConfig::parse(t).unwrap_err().message();
    assert_eq!(cause("unit = x\n"), "config parse error: unit = x");
    assert_eq!(cause("selector = 2\n"), "config parse error: missing 'unit'");
    assert_eq!(cause("unit = 2\n"), "config parse error: missing 'selector'");
    assert_eq!(
        cause("unit = 2\nselector = 1\nenable_data = [0xg]"),
        "config parse error: enable_data = [0xg]"
    );
}

#[test]
fn missing_file_is_an_error() {
    let e = IrEmitterConfig::load("/x.toml", None).unwrap_err();
    assert_eq!(e.message(), "config file not found at /x.toml");
    assert!(IrEmitterConfig::load("/x.toml", Some("unit=1\nselector=2\nenable_data=[3]")).is_ok());
    assert_eq!(IrEmitterError::IoctlError("no".to_string()).message(), "ioctl failed: no");
}

#[test]
fn requests_to_the_camera() {
    let mut cfg = IrEmitterConfig::parse("unit=14\nselector=6\nenable_data=[1,3,2]").unwrap();
    let on = cfg.activate();
    assert_eq!((on.unit, on.selector, on.query, on.size), (14, 6, 0x01, 3));
    assert_eq!(on.data, vec![1, 3, 2]);
    assert!(cfg.deactivate().is_none());
    cfg.disable_data = Some(vec![0]);
    let off = cfg.deactivate().unwrap();
    assert_eq!((off.size, off.data), (1, vec![0]));
}

#[test]
fn numbers_and_lists() {
    assert_eq!(parse_int(&chars_of(" = 0x10 ")), Some(16));
    assert_eq!(parse_int(&chars_of("= 12")), Some(12));
    assert_eq!(parse_int(&chars_of("= -1")), None);
    assert_eq!(parse_byte_array(&chars_of("= [0x1, 300]")), Some(vec![1, 44]));
    assert_eq!(parse_byte_array(&chars_of("= []")), Some(vec![]));
    assert_eq!(parse_byte_array(&chars_of("= [a]")), None);
}

#[test]
fn first_readable_file_counts() {
    let good = |u: u32| Some(format!("unit={u}\nselector=2\nenable_data=[3]"));
    let broken = Some("unit=?".to_string());
    assert_eq!(load_ir_config(&vec![None, broken, good(4), good(5)]).unwrap().unit, 4);
    assert!(load_ir_config(&vec![None, Some("unit=?".to_string())]).is_none());
}

#[test]
fn unit_and_selector_are_enough() {
    let toml = "unit = 7        # UVC extension unit ID\n\
                selector = 6    # Control selector for emitter power\n\
                # On IdeaPad Pro 5 16AKP10: unit=7, selector=6\n";
    let cfg = IrEmitterConfig::parse(toml).unwrap();
    assert_eq!((cfg.unit, cfg.selector), (7, 6));
    assert_eq!(cfg.enable_data, vec![0x01]);
    assert!(cfg.disable_data.is_none());
}

#[test]
fn lines_may_stand_in_any_order() {
    let a = IrEmitterConfig::parse("unit=3\nselector=8\nenable_data=[1, 2]\ndisable_data=[0]\n").unwrap();
    let b = IrEmitterConfig::parse(
        "\n# off first\n  disable_data=[0]\nenable_data=[1, 2]\n\n\tselector=8\n# last\nunit=3",
    )
    .unwrap();
    assert_eq!((a.unit, a.selector), (b.unit, b.selector));
    assert_eq!((a.enable_data, a.disable_data), (b.enable_data, b.disable_data));
}

#[test]
fn written_lists_are_read() {
    let bytes: Vec<u8> = vec![0, 7, 255, 16];
    for list in ["= [0, 7, 255, 16]", "= [0x00, 0x7, 0xff, 0X10]", "= [0, 0x07, 0xFF, 16]"] {
        assert_eq!(parse_byte_array(&chars_of(list)), Some(bytes.clone()));
    }
    assert_eq!(parse_byte_array(&chars_of("= [0, seven, 255, 16]")), None);
    assert_eq!(parse_byte_array(&chars_of("= [0, x[y, 16]")), None);
    assert_eq!(parse_byte_array(&chars_of("= [[x, 16]")), None);
    assert_eq!(parse_byte_array(&chars_of("= [0, x # y, 16]")), None);
    // Brackets at the ends belong to the list, and a comment ends it.
    assert_eq!(parse_byte_array(&chars_of("= [[7, 16]]")), Some(vec![7, 16]));
    assert_eq!(parse_byte_array(&chars_of("= [0, 1 # x, y]")), Some(vec![0, 1]));
}
