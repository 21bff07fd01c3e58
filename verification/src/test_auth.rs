//! The command that tries an authentication against the daemon.
use crate::framing::FrameError;
use crate::gui::{feedback_str, feedback_text};
use crate::protocol::{AuthOutcome, DaemonMessage, FeedbackState};
use vstd::prelude::*;

verus! {

/// How often the connection is tried.
pub const CONNECT_ATTEMPTS: u32 = 5;

/// How long to wait between two tries, in milliseconds.
pub const RETRY_DELAY_MS: u64 = 500;

/// What to do after a connection could not be made.
#[derive(Debug, Clone, Copy, PartialEq, Eq, Structural)]
pub enum Retry {
    /// Wait so many milliseconds and try again.
    After(u64),
    GiveUp,
}

/// What to do after the try number `attempt`, counted from zero, has failed: five tries are made,
/// half a second apart.
pub fn after_failed_connect(attempt: u32) -> (r: Retry)
    ensures
        r == if attempt + 1 < CONNECT_ATTEMPTS {
            Retry::After(RETRY_DELAY_MS)
        } else {
            Retry::GiveUp
        },
{
    if attempt < CONNECT_ATTEMPTS - 1 {
        Retry::After(RETRY_DELAY_MS)
    } else {
        Retry::GiveUp
    }
}

/// How long the command waits for a message, in seconds: five more than a session may last.
pub fn read_timeout_s(session_timeout_s: u64) -> (r: u64)
    requires
        session_timeout_s + 5 <= u64::MAX,
    ensures
        r == session_timeout_s + 5,
{
    session_timeout_s + 5
}

/// What is printed for a piece of guidance.
pub open spec fn label_text(state: FeedbackState) -> Seq<char> {
    if state == FeedbackState::IRSaturated {
        "IR glare — move back"@
    } else {
        feedback_text(state)
    }
}

/// What is printed for a piece of guidance.
pub fn feedback_label(state: FeedbackState) -> (r: &'static str)
    ensures
        r@ == label_text(state),
{
    if state == FeedbackState::IRSaturated {
        "IR glare — move back"
    } else {
        feedback_str(&state)
    }
}

/// What the command prints and does about a message.
#[derive(Debug, Clone, Copy, PartialEq, Eq, Structural)]
pub struct ResultLine {
    pub outcome: AuthOutcome,
    /// Whether the time that it took is printed too.
    pub timed: bool,
    pub exit_code: i32,
}

/// What the command does next.
#[derive(Debug)]
pub enum ClientAction {
    /// Print the text with the time, and wait for the next message.
    Print(&'static str),
    /// Print the result and end.
    Finish(ResultLine),
    /// Say that the connection is lost and end with the code.
    Lost(i32),
}

/// The words for an outcome.
pub open spec fn outcome_text(outcome: AuthOutcome) -> Seq<char> {
    match outcome {
        AuthOutcome::Success => "SUCCESS"@,
        AuthOutcome::Failed => "FAILED"@,
        AuthOutcome::Timeout => "TIMEOUT"@,
        AuthOutcome::DaemonUnavailable => "DaemonUnavailable"@,
        AuthOutcome::Cancelled => "Cancelled"@,
    }
}

/// The words for an outcome.
pub fn outcome_label(outcome: AuthOutcome) -> (r: &'static str)
    ensures
        r@ == outcome_text(outcome),
{
    match outcome {
        AuthOutcome::Success => "SUCCESS",
        AuthOutcome::Failed => "FAILED",
        AuthOutcome::Timeout => "TIMEOUT",
        AuthOutcome::DaemonUnavailable => "DaemonUnavailable",
        AuthOutcome::Cancelled => "Cancelled",
    }
}

/// Whether the time is printed with an outcome.
pub open spec fn is_timed(outcome: AuthOutcome) -> bool {
    outcome == AuthOutcome::Success || outcome == AuthOutcome::Timeout
}

/// The exit code for an outcome: zero for success alone.
pub open spec fn exit_code(outcome: AuthOutcome) -> i32 {
    if outcome == AuthOutcome::Success {
        0
    } else {
        1
    }
}

/// Decides what the command does about what it has received.
pub fn client_step(received: &Result<DaemonMessage, FrameError>) -> (r: ClientAction)
    ensures
        match received {
            Err(_) => r matches ClientAction::Lost(c) && c == 1,
            Ok(DaemonMessage::Feedback { state, .. }) => r matches ClientAction::Print(t) && t@
                == label_text(*state),
            Ok(DaemonMessage::AuthResult { outcome, .. }) => r matches ClientAction::Finish(l) && l
                == (ResultLine {
                outcome: *outcome,
                timed: is_timed(*outcome),
                exit_code: exit_code(*outcome),
            }),
        },
{
    match received {
        Err(_) => ClientAction::Lost(1),
        Ok(DaemonMessage::Feedback { state, .. }) => ClientAction::Print(feedback_label(*state)),
        Ok(DaemonMessage::AuthResult { outcome, .. }) => {
            let (timed, code): (bool, i32) = match *outcome {
                AuthOutcome::Success => (true, 0),
                AuthOutcome::Timeout => (true, 1),
                AuthOutcome::Failed => (false, 1),
                AuthOutcome::DaemonUnavailable => (false, 1),
                AuthOutcome::Cancelled => (false, 1),
            };
            ClientAction::Finish(ResultLine { outcome: *outcome, timed, exit_code: code })
        },
    }
}

/// The command ends with zero for success alone, and the time is told for a session that succeeded or
/// ran out of time.
pub proof fn success_alone_exits_with_zero(outcome: AuthOutcome)
    ensures
        exit_code(outcome) == 0 <==> outcome == AuthOutcome::Success,
        outcome != AuthOutcome::Success ==> exit_code(outcome) == 1,
        !is_timed(outcome) <==> outcome == AuthOutcome::Failed || outcome
            == AuthOutcome::DaemonUnavailable || outcome == AuthOutcome::Cancelled,
{
}

/// Five tries are made, half a second apart.
pub proof fn five_tries_are_made(attempt: u32, r: Retry, session_timeout_s: u64, wait: u64)
    requires
        call_ensures(after_failed_connect, (attempt,), r),
        call_ensures(read_timeout_s, (session_timeout_s,), wait),
    ensures
        r == Retry::GiveUp <==> attempt >= 4,
        r matches Retry::After(ms) ==> ms == 500,
        wait == session_timeout_s + 5,
{
}

} // verus!
