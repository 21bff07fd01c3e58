use face_auth::camera::{
    detect_ir_camera, device_name, device_path, device_to_check, is_infrared, CaptureLoop, Captured, Frame,
};
use face_auth::config::{CameraConfig, GeometryConfig};
use face_auth::geometry::StateMachine;
use face_auth::gui::{
    box_color, feedback_str, frame_to_rgba, sim_color, state_label, switch_tab, CameraView, EnrollTab, Light, StatusTab,
    Tab, TestCameraTab,
};
use face_auth::protocol::FeedbackState;
use face_auth::scalar::Scalar;
use face_auth::text::{
    chars_of, decimal_of, lines_of, parse_signed, parse_unsigned, same, signed_decimal_of, split_at, string_of, trimmed,
};

fn num(v: f32) -> Scalar {
    Scalar::from_bits(v.to_bits())
}

#[test]
fn grayscale_to_rgba_conversion() {
    let frame = Frame {
        data: vec![0u8, 128u8, 255u8, 64u8],
        width: 2,
        height: 2,
        timestamp: 0,
    };
    let rgba = frame_to_rgba(&frame);
    assert_eq!(rgba.len(), 4 * 4);
    assert_eq!(&rgba[0..4], &[0u8, 0, 0, 255]);
    assert_eq!(&rgba[4..8], &[128u8, 128, 128, 255]);
    assert_eq!(&rgba[12..16], &[64u8, 64, 64, 255]);
}

#[test]
fn tabs_give_back_what_they_hold() {
    assert_eq!(Tab::all().len(), 7);
    assert_eq!(Tab::ReEnroll.label(), "Re-enroll");
    assert_eq!(switch_tab(Tab::Status, Tab::Status), None);
    assert_eq!(switch_tab(Tab::Status, Tab::Enroll), Some(None));
    assert_eq!(switch_tab(Tab::TestCamera, Tab::Enroll), Some(Some(Tab::TestCamera)));
    assert_eq!(EnrollTab::new(true).label(), "Re-enroll — coming soon");
    assert_eq!(EnrollTab::new(false).label(), "Enroll — coming soon");
    assert_eq!(StatusTab::new().label(), "Status — coming in next task");
}

#[test]
fn camera_tab_shows_errors_first() {
    let mut tab = TestCameraTab::new();
    assert!(matches!(tab.view(), CameraView::Waiting));
    tab.opened(Err("busy".to_string()));
    match tab.view() {
        CameraView::Error(e) => assert_eq!(e, "Camera error: busy"),
        _ => panic!("no error is shown"),
    }
    tab.opened(Ok(()));
    tab.show(Frame { data: vec![0; 4], width: 2, height: 2, timestamp: 0 });
    match tab.view() {
        CameraView::Picture(t) => assert_eq!(t, "Resolution: 2×2  Format: GREY (IR grayscale)"),
        _ => panic!("no picture is shown"),
    }
    tab.deactivate();
    assert!(!tab.camera && tab.latest_frame.is_none());
}

#[test]
fn colours_and_words() {
    assert_eq!(sim_color(num(0.7), num(0.7), num(0.55)), Light::Green);
    assert_eq!(sim_color(num(0.6), num(0.7), num(0.55)), Light::Yellow);
    assert_eq!(sim_color(num(0.5), num(0.7), num(0.55)), Light::Red);
    assert_eq!(box_color(Some(num(0.6)), false, false), Light::Green);
    assert_eq!(box_color(Some(num(0.5)), true, false), Light::Green);
    assert_eq!(box_color(None, true, true), Light::Green);
    assert_eq!(box_color(None, false, true), Light::Yellow);
    assert_eq!(box_color(None, false, false), Light::Blue);
    let mut sm = StateMachine::new(&GeometryConfig::default());
    assert_eq!(state_label(&sm), "Scanning...");
    sm.finish();
    assert_eq!(state_label(&sm), "Done");
    assert_eq!(feedback_str(&FeedbackState::IRSaturated), "Too much IR glare — move back");
}

#[test]
fn right_columns_are_cut_off() {
    let frame = Frame::from_buffer(&[1, 2, 3, 4, 5, 6], 3, 2, 9);
    let part = frame.crop(2);
    assert_eq!((part.data, part.width, part.height, part.timestamp), (vec![1, 2, 4, 5], 2, 2, 9));
    assert_eq!(frame.crop(3).data, frame.data);
    assert_eq!(frame.crop(7).width, 3);
}

#[test]
fn frame_is_cut_from_the_buffer() {
    let frame = Frame::from_buffer(&[1, 2, 3, 4, 5, 6, 7], 3, 2, 9);
    assert_eq!((frame.data.as_slice(), frame.width, frame.height), (&[1u8, 2, 3, 4, 5, 6][..], 3, 2));
    assert_eq!(frame.timestamp, 9);
}

#[test]
fn infrared_camera_is_found_by_its_formats() {
    assert!(is_infrared(b"GREY") && is_infrared(b"Y800") && is_infrared(b"BA81"));
    assert!(!is_infrared(b"YUYV"));
    assert_eq!(device_name(3), "/dev/video3");
    let devices = vec![None, Some(vec![*b"YUYV"]), Some(vec![*b"MJPG", *b"GREY"]), Some(vec![*b"GREY"])];
    assert_eq!(detect_ir_camera(&devices), Ok("/dev/video2".to_string()));
    assert_eq!(detect_ir_camera(&vec![None]), Err("no IR camera found".to_string()));
    let mut config = CameraConfig::default();
    assert_eq!(device_path(&config, Err("none".to_string())), Err("none".to_string()));
    config.device_path = "/dev/video7".to_string();
    assert_eq!(device_path(&config, Err("none".to_string())), Ok("/dev/video7".to_string()));
    assert_eq!(
        device_to_check(&config, false, Err("none".to_string())),
        Err("/dev/video7 does not exist".to_string())
    );
    assert_eq!(device_to_check(&config, true, Err("none".to_string())), Ok("/dev/video7".to_string()));
}

#[test]
fn first_frames_are_not_passed_on() {
    let mut config = CameraConfig::default();
    config.flush_frames = 2;
    let mut l = CaptureLoop::new(&config, false);
    assert_eq!(l.grabbed(true), Captured::Discard);
    assert_eq!(l.grabbed(true), Captured::Discard);
    assert_eq!(l.grabbed(true), Captured::Deliver);
    assert_eq!(l.grabbed(false), Captured::Finish);
    let mut hasty = CaptureLoop::new(&config, false);
    assert_eq!(hasty.grabbed(false), Captured::Discard);
    assert_eq!(hasty.grabbed(true), Captured::Deliver);
    let mut patient = CaptureLoop::new(&config, true);
    assert_eq!(patient.grabbed(false), Captured::Discard);
    assert_eq!(patient.grabbed(true), Captured::Discard);
    assert_eq!(patient.grabbed(false), Captured::Discard);
    assert_eq!(patient.grabbed(true), Captured::Deliver);
}

#[test]
fn texts_are_taken_apart() {
    assert_eq!(string_of(&trimmed(&chars_of(" \t héllo \n"))), "héllo");
    let lines: Vec<String> = lines_of(&chars_of("a\r\n\nb")).iter().map(string_of).collect();
    assert_eq!(lines, vec!["a", "", "b"]);
    let parts: Vec<String> = split_at(&chars_of("x::y"), ':').iter().map(string_of).collect();
    assert_eq!(parts, vec!["x", "", "y"]);
    assert!(same("a", "a") && !same("a", "b"));
}

#[test]
fn numbers_are_read_and_written() {
    for n in [0u64, 9, 10, 12345, u64::MAX] {
        assert_eq!(decimal_of(n), n.to_string());
        assert_eq!(parse_unsigned(&chars_of(&n.to_string()), 10, u64::MAX), Some(n));
    }
    for n in [0i32, -1, i32::MIN, i32::MAX] {
        assert_eq!(signed_decimal_of(n), n.to_string());
        assert_eq!(parse_signed(&chars_of(&n.to_string())), Some(n));
    }
    assert_eq!(parse_unsigned(&chars_of("256"), 10, 255), None);
    assert_eq!(parse_unsigned(&chars_of("fF"), 16, 255), Some(255));
    assert_eq!(parse_unsigned(&chars_of("+7"), 10, 255), Some(7));
    assert_eq!(parse_unsigned(&chars_of(""), 10, 255), None);
    assert_eq!(parse_signed(&chars_of("2147483648")), None);
}
