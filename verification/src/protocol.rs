//! The messages between the PAM module, the daemon and the user interface.
use crate::framing::Message;
use crate::wire::{
    le_bytes, put_text, put_u32, put_u64, read_text, read_u32, read_u64, take_text, take_u32, take_u64,
    text_bytes, text_reads_back, u32_reads_back, u64_reads_back,
};
use vstd::prelude::*;
use vstd::utf8::encode_utf8;

verus! {

/// The version that a request carries.
pub const PROTOCOL_VERSION: u32 = 1;

/// What a PAM client asks of the daemon.
#[derive(Debug)]
pub enum PamRequest {
    Auth { version: u32, username: String, session_id: u64 },
    Cancel { session_id: u64 },
}

/// What the daemon tells a PAM client.
#[derive(Debug, Clone, Copy, PartialEq, Eq, Structural)]
pub enum DaemonMessage {
    Feedback { session_id: u64, state: FeedbackState },
    AuthResult { session_id: u64, outcome: AuthOutcome },
}

/// Guidance for the person in front of the camera.
#[derive(Debug, Clone, Copy, PartialEq, Eq, Structural)]
pub enum FeedbackState {
    Scanning,
    TooFar,
    TooClose,
    TurnLeft,
    TurnRight,
    TiltUp,
    TiltDown,
    IRSaturated,
    EyesNotVisible,
    LookAtCamera,
    Authenticating,
}

/// How an authentication session ended.
#[derive(Debug, Clone, Copy, PartialEq, Eq, Structural)]
pub enum AuthOutcome {
    Success,
    Failed,
    Timeout,
    DaemonUnavailable,
    Cancelled,
}

/// What the daemon tells the user interface.
#[derive(Debug)]
pub enum UiMessage {
    SessionStarted { username: String },
    Feedback { state: FeedbackState },
    SessionEnded { outcome: AuthOutcome },
}

/// A [`PamRequest`] with its text as a sequence of characters.
pub enum PamRequestView {
    Auth { version: u32, username: Seq<char>, session_id: u64 },
    Cancel { session_id: u64 },
}

/// A [`UiMessage`] with its text as a sequence of characters.
pub enum UiMessageView {
    SessionStarted { username: Seq<char> },
    Feedback { state: FeedbackState },
    SessionEnded { outcome: AuthOutcome },
}

impl View for PamRequest {
    type V = PamRequestView;

    open spec fn view(&self) -> PamRequestView {
        match self {
            PamRequest::Auth { version, username, session_id } => PamRequestView::Auth {
                version: *version,
                username: username@,
                session_id: *session_id,
            },
            PamRequest::Cancel { session_id } => PamRequestView::Cancel { session_id: *session_id },
        }
    }
}

impl View for DaemonMessage {
    type V = DaemonMessage;

    open spec fn view(&self) -> DaemonMessage {
        *self
    }
}

impl View for UiMessage {
    type V = UiMessageView;

    open spec fn view(&self) -> UiMessageView {
        match self {
            UiMessage::SessionStarted { username } => UiMessageView::SessionStarted {
                username: username@,
            },
            UiMessage::Feedback { state } => UiMessageView::Feedback { state: *state },
            UiMessage::SessionEnded { outcome } => UiMessageView::SessionEnded {
                outcome: *outcome,
            },
        }
    }
}

impl FeedbackState {
    /// The number that stands for the state on the wire: its place in the declaration.
    pub open spec fn spec_tag(self) -> u32 {
        match self {
            FeedbackState::Scanning => 0,
            FeedbackState::TooFar => 1,
            FeedbackState::TooClose => 2,
            FeedbackState::TurnLeft => 3,
            FeedbackState::TurnRight => 4,
            FeedbackState::TiltUp => 5,
            FeedbackState::TiltDown => 6,
            FeedbackState::IRSaturated => 7,
            FeedbackState::EyesNotVisible => 8,
            FeedbackState::LookAtCamera => 9,
            FeedbackState::Authenticating => 10,
        }
    }

    /// The number that stands for the state on the wire.
    pub fn tag(self) -> (r: u32)
        ensures
            r == self.spec_tag(),
    {
        match self {
            FeedbackState::Scanning => 0,
            FeedbackState::TooFar => 1,
            FeedbackState::TooClose => 2,
            FeedbackState::TurnLeft => 3,
            FeedbackState::TurnRight => 4,
            FeedbackState::TiltUp => 5,
            FeedbackState::TiltDown => 6,
            FeedbackState::IRSaturated => 7,
            FeedbackState::EyesNotVisible => 8,
            FeedbackState::LookAtCamera => 9,
            FeedbackState::Authenticating => 10,
        }
    }

    /// The state that a number stands for: the one whose number it is.
    pub open spec fn spec_of_tag(tag: u32) -> Option<FeedbackState> {
        if exists|s: FeedbackState| #[trigger] s.spec_tag() == tag {
            Some(choose|s: FeedbackState| #[trigger] s.spec_tag() == tag)
        } else {
            None
        }
    }

    /// The state that a number stands for.
    pub fn of_tag(tag: u32) -> (r: Option<FeedbackState>)
        ensures
            r == FeedbackState::spec_of_tag(tag),
            r matches Some(s) ==> s.spec_tag() == tag,
    {
        let r = match tag {
            0 => Some(FeedbackState::Scanning),
            1 => Some(FeedbackState::TooFar),
            2 => Some(FeedbackState::TooClose),
            3 => Some(FeedbackState::TurnLeft),
            4 => Some(FeedbackState::TurnRight),
            5 => Some(FeedbackState::TiltUp),
            6 => Some(FeedbackState::TiltDown),
            7 => Some(FeedbackState::IRSaturated),
            8 => Some(FeedbackState::EyesNotVisible),
            9 => Some(FeedbackState::LookAtCamera),
            10 => Some(FeedbackState::Authenticating),
            _ => None,
        };
        proof {
            match r {
                Some(s) => {
                    assert(s.spec_tag() == tag);
                },
                None => {},
            }
        }
        r
    }
}

impl AuthOutcome {
    /// The number that stands for the outcome on the wire: its place in the declaration.
    pub open spec fn spec_tag(self) -> u32 {
        match self {
            AuthOutcome::Success => 0,
            AuthOutcome::Failed => 1,
            AuthOutcome::Timeout => 2,
            AuthOutcome::DaemonUnavailable => 3,
            AuthOutcome::Cancelled => 4,
        }
    }

    /// The number that stands for the outcome on the wire.
    pub fn tag(self) -> (r: u32)
        ensures
            r == self.spec_tag(),
    {
        match self {
            AuthOutcome::Success => 0,
            AuthOutcome::Failed => 1,
            AuthOutcome::Timeout => 2,
            AuthOutcome::DaemonUnavailable => 3,
            AuthOutcome::Cancelled => 4,
        }
    }

    /// The outcome that a number stands for: the one whose number it is.
    pub open spec fn spec_of_tag(tag: u32) -> Option<AuthOutcome> {
        if exists|s: AuthOutcome| #[trigger] s.spec_tag() == tag {
            Some(choose|s: AuthOutcome| #[trigger] s.spec_tag() == tag)
        } else {
            None
        }
    }

    /// The outcome that a number stands for.
    pub fn of_tag(tag: u32) -> (r: Option<AuthOutcome>)
        ensures
            r == AuthOutcome::spec_of_tag(tag),
            r matches Some(s) ==> s.spec_tag() == tag,
    {
        let r = match tag {
            0 => Some(AuthOutcome::Success),
            1 => Some(AuthOutcome::Failed),
            2 => Some(AuthOutcome::Timeout),
            3 => Some(AuthOutcome::DaemonUnavailable),
            4 => Some(AuthOutcome::Cancelled),
            _ => None,
        };
        proof {
            match r {
                Some(s) => {
                    assert(s.spec_tag() == tag);
                },
                None => {},
            }
        }
        r
    }
}

/// The numbers of the states and of the outcomes tell them apart.
pub proof fn tags_are_distinct(a: FeedbackState, b: FeedbackState, x: AuthOutcome, y: AuthOutcome)
    ensures
        a.spec_tag() == b.spec_tag() ==> a == b,
        x.spec_tag() == y.spec_tag() ==> x == y,
        FeedbackState::spec_of_tag(a.spec_tag()) == Some(a),
        AuthOutcome::spec_of_tag(x.spec_tag()) == Some(x),
{
    let c = choose|s: FeedbackState| #[trigger] s.spec_tag() == a.spec_tag();
    assert(c == a);
    let z = choose|s: AuthOutcome| #[trigger] s.spec_tag() == x.spec_tag();
    assert(z == x);
}

impl Message for PamRequest {
    open spec fn payload(v: PamRequestView) -> Seq<u8> {
        match v {
            PamRequestView::Auth { version, username, session_id } => le_bytes(0, 4) + le_bytes(
                version as nat,
                4,
            ) + text_bytes(username) + le_bytes(session_id as nat, 8),
            PamRequestView::Cancel { session_id } => le_bytes(1, 4) + le_bytes(session_id as nat, 8),
        }
    }

    open spec fn parse(b: Seq<u8>) -> Option<PamRequestView> {
        match read_u32(b) {
            Some((0, b)) => match read_u32(b) {
                Some((version, b)) => match read_text(b) {
                    Some((username, b)) => match read_u64(b) {
                        Some((session_id, _)) => Some(
                            PamRequestView::Auth { version, username, session_id },
                        ),
                        None => None,
                    },
                    None => None,
                },
                None => None,
            },
            Some((1, b)) => match read_u64(b) {
                Some((session_id, _)) => Some(PamRequestView::Cancel { session_id }),
                None => None,
            },
            _ => None,
        }
    }

    open spec fn writable(v: PamRequestView) -> bool {
        v matches PamRequestView::Auth { username, .. } ==> encode_utf8(username).len() <= u64::MAX
    }

    proof fn parse_inverts_payload(v: PamRequestView, rest: Seq<u8>) {
        match v {
            PamRequestView::Auth { version, username, session_id } => {
                let d = le_bytes(session_id as nat, 8) + rest;
                let c = text_bytes(username) + d;
                let b = le_bytes(version as nat, 4) + c;
                assert(Self::payload(v) + rest == le_bytes(0, 4) + b);
                u32_reads_back(0, b);
                u32_reads_back(version, c);
                text_reads_back(username, d);
                u64_reads_back(session_id, rest);
            },
            PamRequestView::Cancel { session_id } => {
                let b = le_bytes(session_id as nat, 8) + rest;
                assert(Self::payload(v) + rest == le_bytes(1, 4) + b);
                u32_reads_back(1, b);
                u64_reads_back(session_id, rest);
            },
        }
    }

    fn encode(&self) -> (r: Option<Vec<u8>>) {
        let mut out: Vec<u8> = Vec::new();
        let ok = match self {
            PamRequest::Auth { version, username, session_id } => {
                let a = put_u32(&mut out, 0);
                let b = put_u32(&mut out, *version);
                let c = put_text(&mut out, username.as_str());
                let d = put_u64(&mut out, *session_id);
                a && b && c && d
            },
            PamRequest::Cancel { session_id } => {
                let a = put_u32(&mut out, 1);
                let b = put_u64(&mut out, *session_id);
                a && b
            },
        };
        if ok {
            Some(out)
        } else {
            None
        }
    }

    fn decode(b: &[u8]) -> (r: Option<PamRequest>) {
        assert(b@.skip(0) == b@);
        let (tag, p) = match take_u32(b, 0) {
            Some(x) => x,
            None => {
                return None;
            },
        };
        if tag == 0 {
            let (version, p) = match take_u32(b, p) {
                Some(x) => x,
                None => {
                    return None;
                },
            };
            let (username, p) = match take_text(b, p) {
                Some(x) => x,
                None => {
                    return None;
                },
            };
            match take_u64(b, p) {
                Some((session_id, _)) => Some(PamRequest::Auth { version, username, session_id }),
                None => None,
            }
        } else if tag == 1 {
            match take_u64(b, p) {
                Some((session_id, _)) => Some(PamRequest::Cancel { session_id }),
                None => None,
            }
        } else {
            None
        }
    }
}

impl Message for DaemonMessage {
    open spec fn payload(v: DaemonMessage) -> Seq<u8> {
        match v {
            DaemonMessage::Feedback { session_id, state } => le_bytes(0, 4) + le_bytes(
                session_id as nat,
                8,
            ) + le_bytes(state.spec_tag() as nat, 4),
            DaemonMessage::AuthResult { session_id, outcome } => le_bytes(1, 4) + le_bytes(
                session_id as nat,
                8,
            ) + le_bytes(outcome.spec_tag() as nat, 4),
        }
    }

    open spec fn parse(b: Seq<u8>) -> Option<DaemonMessage> {
        match read_u32(b) {
            Some((0, b)) => match read_u64(b) {
                Some((session_id, b)) => match read_u32(b) {
                    Some((tag, _)) => match FeedbackState::spec_of_tag(tag) {
                        Some(state) => Some(DaemonMessage::Feedback { session_id, state }),
                        None => None,
                    },
                    None => None,
                },
                None => None,
            },
            Some((1, b)) => match read_u64(b) {
                Some((session_id, b)) => match read_u32(b) {
                    Some((tag, _)) => match AuthOutcome::spec_of_tag(tag) {
                        Some(outcome) => Some(DaemonMessage::AuthResult { session_id, outcome }),
                        None => None,
                    },
                    None => None,
                },
                None => None,
            },
            _ => None,
        }
    }

    open spec fn writable(v: DaemonMessage) -> bool {
        true
    }

    proof fn parse_inverts_payload(v: DaemonMessage, rest: Seq<u8>) {
        match v {
            DaemonMessage::Feedback { session_id, state } => {
                let c = le_bytes(state.spec_tag() as nat, 4) + rest;
                let b = le_bytes(session_id as nat, 8) + c;
                assert(Self::payload(v) + rest == le_bytes(0, 4) + b);
                u32_reads_back(0, b);
                u64_reads_back(session_id, c);
                u32_reads_back(state.spec_tag(), rest);
                tags_are_distinct(state, state, AuthOutcome::Success, AuthOutcome::Success);
            },
            DaemonMessage::AuthResult { session_id, outcome } => {
                let c = le_bytes(outcome.spec_tag() as nat, 4) + rest;
                let b = le_bytes(session_id as nat, 8) + c;
                assert(Self::payload(v) + rest == le_bytes(1, 4) + b);
                u32_reads_back(1, b);
                u64_reads_back(session_id, c);
                u32_reads_back(outcome.spec_tag(), rest);
                tags_are_distinct(
                    FeedbackState::Scanning,
                    FeedbackState::Scanning,
                    outcome,
                    outcome,
                );
            },
        }
    }

    fn encode(&self) -> (r: Option<Vec<u8>>) {
        let mut out: Vec<u8> = Vec::new();
        let (kind, id, tag): (u32, u64, u32) = match *self {
            DaemonMessage::Feedback { session_id, state } => (0, session_id, state.tag()),
            DaemonMessage::AuthResult { session_id, outcome } => (1, session_id, outcome.tag()),
        };
        let a = put_u32(&mut out, kind);
        let b = put_u64(&mut out, id);
        let c = put_u32(&mut out, tag);
        if a && b && c {
            Some(out)
        } else {
            None
        }
    }

    fn decode(b: &[u8]) -> (r: Option<DaemonMessage>) {
        assert(b@.skip(0) == b@);
        let (kind, p) = match take_u32(b, 0) {
            Some(x) => x,
            None => {
                return None;
            },
        };
        if kind > 1 {
            return None;
        }
        let (session_id, p) = match take_u64(b, p) {
            Some(x) => x,
            None => {
                return None;
            },
        };
        let tag: u32 = match take_u32(b, p) {
            Some((x, _)) => x,
            None => {
                return None;
            },
        };
        if kind == 0 {
            match FeedbackState::of_tag(tag) {
                Some(state) => Some(DaemonMessage::Feedback { session_id, state }),
                None => None,
            }
        } else {
            match AuthOutcome::of_tag(tag) {
                Some(outcome) => Some(DaemonMessage::AuthResult { session_id, outcome }),
                None => None,
            }
        }
    }
}

impl Message for UiMessage {
    open spec fn payload(v: UiMessageView) -> Seq<u8> {
        match v {
            UiMessageView::SessionStarted { username } => le_bytes(0, 4) + text_bytes(username),
            UiMessageView::Feedback { state } => le_bytes(1, 4) + le_bytes(
                state.spec_tag() as nat,
                4,
            ),
            UiMessageView::SessionEnded { outcome } => le_bytes(2, 4) + le_bytes(
                outcome.spec_tag() as nat,
                4,
            ),
        }
    }

    open spec fn parse(b: Seq<u8>) -> Option<UiMessageView> {
        match read_u32(b) {
            Some((0, b)) => match read_text(b) {
                Some((username, _)) => Some(UiMessageView::SessionStarted { username }),
                None => None,
            },
            Some((1, b)) => match read_u32(b) {
                Some((tag, _)) => match FeedbackState::spec_of_tag(tag) {
                    Some(state) => Some(UiMessageView::Feedback { state }),
                    None => None,
                },
                None => None,
            },
            Some((2, b)) => match read_u32(b) {
                Some((tag, _)) => match AuthOutcome::spec_of_tag(tag) {
                    Some(outcome) => Some(UiMessageView::SessionEnded { outcome }),
                    None => None,
                },
                None => None,
            },
            _ => None,
        }
    }

    open spec fn writable(v: UiMessageView) -> bool {
        v matches UiMessageView::SessionStarted { username } ==> encode_utf8(username).len()
            <= u64::MAX
    }

    #[verifier::spinoff_prover]
    proof fn parse_inverts_payload(v: UiMessageView, rest: Seq<u8>) {
        match v {
            UiMessageView::SessionStarted { username } => {
                let b = text_bytes(username) + rest;
                assert(Self::payload(v) + rest == le_bytes(0, 4) + b);
                u32_reads_back(0, b);
                text_reads_back(username, rest);
            },
            UiMessageView::Feedback { state } => {
                let b = le_bytes(state.spec_tag() as nat, 4) + rest;
                assert(Self::payload(v) + rest == le_bytes(1, 4) + b);
                u32_reads_back(1, b);
                u32_reads_back(state.spec_tag(), rest);
                tags_are_distinct(state, state, AuthOutcome::Success, AuthOutcome::Success);
            },
            UiMessageView::SessionEnded { outcome } => {
                let b = le_bytes(outcome.spec_tag() as nat, 4) + rest;
                assert(Self::payload(v) + rest == le_bytes(2, 4) + b);
                u32_reads_back(2, b);
                u32_reads_back(outcome.spec_tag(), rest);
                tags_are_distinct(
                    FeedbackState::Scanning,
                    FeedbackState::Scanning,
                    outcome,
                    outcome,
                );
            },
        }
    }

    fn encode(&self) -> (r: Option<Vec<u8>>) {
        let mut out: Vec<u8> = Vec::new();
        let ok = match self {
            UiMessage::SessionStarted { username } => {
                let a = put_u32(&mut out, 0);
                let b = put_text(&mut out, username.as_str());
                a && b
            },
            UiMessage::Feedback { state } => {
                let a = put_u32(&mut out, 1);
                let b = put_u32(&mut out, state.tag());
                a && b
            },
            UiMessage::SessionEnded { outcome } => {
                let a = put_u32(&mut out, 2);
                let b = put_u32(&mut out, outcome.tag());
                a && b
            },
        };
        if ok {
            Some(out)
        } else {
            None
        }
    }

    fn decode(b: &[u8]) -> (r: Option<UiMessage>) {
        assert(b@.skip(0) == b@);
        let (kind, p) = match take_u32(b, 0) {
            Some(x) => x,
            None => {
                return None;
            },
        };
        if kind == 0 {
            return match take_text(b, p) {
                Some((username, _)) => Some(UiMessage::SessionStarted { username }),
                None => None,
            };
        }
        if kind > 2 {
            return None;
        }
        let tag: u32 = match take_u32(b, p) {
            Some((x, _)) => x,
            None => {
                return None;
            },
        };
        if kind == 1 {
            match FeedbackState::of_tag(tag) {
                Some(state) => Some(UiMessage::Feedback { state }),
                None => None,
            }
        } else {
            match AuthOutcome::of_tag(tag) {
                Some(outcome) => Some(UiMessage::SessionEnded { outcome }),
                None => None,
            }
        }
    }
}

/// The states and the outcomes are numbered from zero on in their order.
pub proof fn tags_count_from_zero(s: FeedbackState, o: AuthOutcome)
    ensures
        s.spec_tag() < 11,
        seq![
            FeedbackState::Scanning,
            FeedbackState::TooFar,
            FeedbackState::TooClose,
            FeedbackState::TurnLeft,
            FeedbackState::TurnRight,
            FeedbackState::TiltUp,
            FeedbackState::TiltDown,
            FeedbackState::IRSaturated,
            FeedbackState::EyesNotVisible,
            FeedbackState::LookAtCamera,
            FeedbackState::Authenticating,
        ][s.spec_tag() as int] == s,
        o.spec_tag() < 5,
        seq![
            AuthOutcome::Success,
            AuthOutcome::Failed,
            AuthOutcome::Timeout,
            AuthOutcome::DaemonUnavailable,
            AuthOutcome::Cancelled,
        ][o.spec_tag() as int] == o,
{
}

/// The number in the bytes of `b` from `from` up to `to`.
pub open spec fn number_in(b: Seq<u8>, from: int, to: int) -> nat {
    crate::wire::le_value(b.subrange(from, to))
}

/// What stands where in a request: which one it is, then for an authentication the version, the length
/// of the name, the name and the session, and for a cancellation the session.
pub proof fn requests_have_a_layout(version: u32, username: Seq<char>, session_id: u64)
    requires
        encode_utf8(username).len() <= u64::MAX,
    ensures
        ({
            let p = PamRequest::payload(PamRequestView::Auth { version, username, session_id });
            let n = encode_utf8(username).len() as int;
            &&& p.len() == 24 + n
            &&& number_in(p, 0, 4) == 0
            &&& number_in(p, 4, 8) == version
            &&& number_in(p, 8, 16) == n
            &&& p.subrange(16, 16 + n) == encode_utf8(username)
            &&& number_in(p, 16 + n, 24 + n) == session_id
        }),
        ({
            let p = PamRequest::payload(PamRequestView::Cancel { session_id });
            &&& p.len() == 12
            &&& number_in(p, 0, 4) == 1
            &&& number_in(p, 4, 12) == session_id
        }),
{
    let u = encode_utf8(username);
    let n = u.len() as int;
    let p = PamRequest::payload(PamRequestView::Auth { version, username, session_id });
    let q = PamRequest::payload(PamRequestView::Cancel { session_id });
    lemma_number(0, 4);
    lemma_number(1, 4);
    lemma_number(version as nat, 4);
    lemma_number(u.len(), 8);
    lemma_number(session_id as nat, 8);
    assert(p.subrange(0, 4) =~= le_bytes(0, 4));
    assert(p.subrange(4, 8) =~= le_bytes(version as nat, 4));
    assert(p.subrange(8, 16) =~= le_bytes(u.len(), 8));
    assert(p.subrange(16, 16 + n) =~= u);
    assert(p.subrange(16 + n, 24 + n) =~= le_bytes(session_id as nat, 8));
    assert(q.subrange(0, 4) =~= le_bytes(1, 4));
    assert(q.subrange(4, 12) =~= le_bytes(session_id as nat, 8));
}

proof fn lemma_number(v: nat, width: nat)
    requires
        width == 4 && v <= u32::MAX || width == 8 && v <= u64::MAX,
    ensures
        le_bytes(v, width).len() == width,
        crate::wire::le_value(le_bytes(v, width)) == v,
{
    crate::wire::lemma_le_len(v, width);
    crate::wire::lemma_le_ranges();
    crate::wire::lemma_le_value(v, width);
}

/// What stands where in a message of the daemon: which one it is, the session, and the number of the
/// state or of the outcome.
pub proof fn daemon_messages_have_a_layout(session_id: u64, state: FeedbackState, outcome: AuthOutcome)
    ensures
        ({
            let p = DaemonMessage::payload(DaemonMessage::Feedback { session_id, state });
            &&& p.len() == 16
            &&& number_in(p, 0, 4) == 0
            &&& number_in(p, 4, 12) == session_id
            &&& number_in(p, 12, 16) == state.spec_tag()
        }),
        ({
            let p = DaemonMessage::payload(DaemonMessage::AuthResult { session_id, outcome });
            &&& p.len() == 16
            &&& number_in(p, 0, 4) == 1
            &&& number_in(p, 4, 12) == session_id
            &&& number_in(p, 12, 16) == outcome.spec_tag()
        }),
{
    let p = DaemonMessage::payload(DaemonMessage::Feedback { session_id, state });
    let q = DaemonMessage::payload(DaemonMessage::AuthResult { session_id, outcome });
    lemma_number(0, 4);
    lemma_number(1, 4);
    lemma_number(session_id as nat, 8);
    lemma_number(state.spec_tag() as nat, 4);
    lemma_number(outcome.spec_tag() as nat, 4);
    assert(p.subrange(0, 4) =~= le_bytes(0, 4));
    assert(p.subrange(4, 12) =~= le_bytes(session_id as nat, 8));
    assert(p.subrange(12, 16) =~= le_bytes(state.spec_tag() as nat, 4));
    assert(q.subrange(0, 4) =~= le_bytes(1, 4));
    assert(q.subrange(4, 12) =~= le_bytes(session_id as nat, 8));
    assert(q.subrange(12, 16) =~= le_bytes(outcome.spec_tag() as nat, 4));
}

/// What stands where in a message to the interface: which one it is, and the name, the number of the
/// state or that of the outcome.
pub proof fn interface_messages_have_a_layout(
    username: Seq<char>,
    state: FeedbackState,
    outcome: AuthOutcome,
)
    requires
        encode_utf8(username).len() <= u64::MAX,
    ensures
        ({
            let p = UiMessage::payload(UiMessageView::SessionStarted { username });
            let n = encode_utf8(username).len() as int;
            &&& p.len() == 12 + n
            &&& number_in(p, 0, 4) == 0
            &&& number_in(p, 4, 12) == n
            &&& p.subrange(12, 12 + n) == encode_utf8(username)
        }),
        ({
            let p = UiMessage::payload(UiMessageView::Feedback { state });
            &&& p.len() == 8
            &&& number_in(p, 0, 4) == 1
            &&& number_in(p, 4, 8) == state.spec_tag()
        }),
        ({
            let p = UiMessage::payload(UiMessageView::SessionEnded { outcome });
            &&& p.len() == 8
            &&& number_in(p, 0, 4) == 2
            &&& number_in(p, 4, 8) == outcome.spec_tag()
        }),
{
    let u = encode_utf8(username);
    let n = u.len() as int;
    let p = UiMessage::payload(UiMessageView::SessionStarted { username });
    let q = UiMessage::payload(UiMessageView::Feedback { state });
    let r = UiMessage::payload(UiMessageView::SessionEnded { outcome });
    lemma_number(0, 4);
    lemma_number(1, 4);
    lemma_number(2, 4);
    lemma_number(u.len(), 8);
    lemma_number(state.spec_tag() as nat, 4);
    lemma_number(outcome.spec_tag() as nat, 4);
    assert(p.subrange(0, 4) =~= le_bytes(0, 4));
    assert(p.subrange(4, 12) =~= le_bytes(u.len(), 8));
    assert(p.subrange(12, 12 + n) =~= u);
    assert(q.subrange(0, 4) =~= le_bytes(1, 4));
    assert(q.subrange(4, 8) =~= le_bytes(state.spec_tag() as nat, 4));
    assert(r.subrange(0, 4) =~= le_bytes(2, 4));
    assert(r.subrange(4, 8) =~= le_bytes(outcome.spec_tag() as nat, 4));
}

} // verus!
