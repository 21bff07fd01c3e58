use face_auth::framing::{frame_length, read_message, write_message, Cursor, FrameError};
use face_auth::protocol::{AuthOutcome, DaemonMessage, FeedbackState, PamRequest, UiMessage, PROTOCOL_VERSION};
use face_auth::wire::{put_text, put_u32, put_u64, take_text, take_u32, take_u64};

#[test]
fn roundtrip_daemon_message() {
    let msg = DaemonMessage::AuthResult {
        session_id: 42,
        outcome: AuthOutcome::Success,
    };
    let mut buf = Vec::new();
    write_message(&mut buf, &msg).unwrap();
    let mut cursor = Cursor::new(buf);
    let decoded: DaemonMessage = read_message(&mut cursor).unwrap();
    match decoded {
        DaemonMessage::AuthResult {
            session_id: 42,
            outcome: AuthOutcome::Success,
        } => {}
        _ => panic!("unexpected decoded message"),
    }
}

#[test]
fn frame_has_its_length_in_front() {
    let mut buf = Vec::new();
    write_message(&mut buf, &PamRequest::Cancel { session_id: 0x0102_0304 }).unwrap();
    assert_eq!(buf, vec![12, 0, 0, 0, 1, 0, 0, 0, 4, 3, 2, 1, 0, 0, 0, 0]);
    assert_eq!(frame_length(&buf), Some(12));
    assert_eq!(frame_length(&buf[..3]), None);
}

#[test]
fn request_on_the_wire() {
    let mut buf = Vec::new();
    let request =
        PamRequest::Auth { version: PROTOCOL_VERSION, username: "zoë".to_string(), session_id: 7 };
    write_message(&mut buf, &request).unwrap();
    let expected = bincode::serialize(&(0u32, 1u32, "zoë", 7u64)).unwrap();
    assert_eq!(buf[4..], expected[..]);
    match read_message::<PamRequest>(&mut Cursor::new(buf)).unwrap() {
        PamRequest::Auth { version, username, session_id } => {
            assert_eq!((version, username.as_str(), session_id), (1, "zoë", 7));
        }
        PamRequest::Cancel { .. } => panic!("another request came back"),
    }
}

#[test]
fn messages_come_back_in_order() {
    let first = DaemonMessage::Feedback { session_id: 1, state: FeedbackState::LookAtCamera };
    let second = DaemonMessage::AuthResult { session_id: 1, outcome: AuthOutcome::Timeout };
    let mut buf = Vec::new();
    write_message(&mut buf, &first).unwrap();
    write_message(&mut buf, &second).unwrap();
    let mut cursor = Cursor::new(buf);
    assert_eq!(read_message::<DaemonMessage>(&mut cursor), Ok(first));
    assert_eq!(read_message::<DaemonMessage>(&mut cursor), Ok(second));
    assert_eq!(read_message::<DaemonMessage>(&mut cursor), Err(FrameError::UnexpectedEof));
}

#[test]
fn every_state_and_outcome_comes_back() {
    for tag in 0..11 {
        let state = FeedbackState::of_tag(tag).unwrap();
        assert_eq!(state.tag(), tag);
        let mut buf = Vec::new();
        write_message(&mut buf, &DaemonMessage::Feedback { session_id: 9, state }).unwrap();
        let back = read_message::<DaemonMessage>(&mut Cursor::new(buf));
        assert_eq!(back, Ok(DaemonMessage::Feedback { session_id: 9, state }));
    }
    for tag in 0..5 {
        let outcome = AuthOutcome::of_tag(tag).unwrap();
        assert_eq!(outcome.tag(), tag);
        let mut buf = Vec::new();
        write_message(&mut buf, &UiMessage::SessionEnded { outcome }).unwrap();
        match read_message::<UiMessage>(&mut Cursor::new(buf)) {
            Ok(UiMessage::SessionEnded { outcome: o }) => assert_eq!(o, outcome),
            _ => panic!("another message came back"),
        }
    }
    assert_eq!(FeedbackState::of_tag(11), None);
    assert_eq!(AuthOutcome::of_tag(5), None);
}

#[test]
fn broken_frames_are_errors() {
    let mut buf = Vec::new();
    write_message(&mut buf, &UiMessage::SessionStarted { username: "ann".to_string() }).unwrap();
    let short = buf[..buf.len() - 1].to_vec();
    assert!(matches!(
        read_message::<UiMessage>(&mut Cursor::new(short)),
        Err(FrameError::UnexpectedEof)
    ));
    let mut unknown = buf.clone();
    unknown[4] = 77;
    assert!(matches!(
        read_message::<UiMessage>(&mut Cursor::new(unknown)),
        Err(FrameError::InvalidData)
    ));
    let mut not_text = buf.clone();
    let last = not_text.len() - 1;
    not_text[last] = 0xff;
    assert!(matches!(
        read_message::<UiMessage>(&mut Cursor::new(not_text)),
        Err(FrameError::InvalidData)
    ));
}

#[test]
fn numbers_and_texts_on_the_wire() {
    let mut out = Vec::new();
    assert!(put_u32(&mut out, 0xa1b2_c3d4));
    assert!(put_u64(&mut out, 5));
    assert!(put_text(&mut out, "hé"));
    assert_eq!(out[..4], [0xd4, 0xc3, 0xb2, 0xa1]);
    assert_eq!(out[12..20], 3u64.to_le_bytes());
    assert_eq!(take_u32(&out, 0), Some((0xa1b2_c3d4, 4)));
    assert_eq!(take_u64(&out, 4), Some((5, 12)));
    assert_eq!(take_text(&out, 12), Some(("hé".to_string(), 23)));
    assert_eq!(take_u32(&out, 20), None);
    assert_eq!(take_u64(&out, 16), None);
    assert_eq!(take_text(&out[..22], 12), None);
}

#[test]
fn next_message_follows_a_bad_one() {
    let good = DaemonMessage::AuthResult { session_id: 3, outcome: AuthOutcome::Failed };
    let mut buf = vec![2, 0, 0, 0, 9, 9];
    write_message(&mut buf, &good).unwrap();
    let mut cursor = Cursor::new(buf);
    assert_eq!(read_message::<DaemonMessage>(&mut cursor), Err(FrameError::InvalidData));
    assert_eq!(read_message::<DaemonMessage>(&mut cursor), Ok(good));
}

#[test]
fn cut_off_message_uses_up_the_bytes() {
    let mut cursor = Cursor::new(vec![5, 0, 0, 0, 1]);
    assert_eq!(read_message::<DaemonMessage>(&mut cursor), Err(FrameError::UnexpectedEof));
    assert_eq!(cursor.pos, 5);
}
