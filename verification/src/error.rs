//! What can go wrong in the daemon.
use crate::ir_emitter::IrEmitterError;
use vstd::prelude::*;

verus! {

/// Why the daemon could not do what it was asked.
#[derive(Debug)]
pub enum DaemonError {
    Io(String),
    Camera(String),
    IrEmitter(IrEmitterError),
    SessionBusy,
    Join(String),
}

impl DaemonError {
    /// The words that the error has of its own, before those of its cause.
    pub open spec fn prefix(self) -> Seq<char> {
        match self {
            DaemonError::Io(_) => "IO error: "@,
            DaemonError::Camera(_) => "camera error: "@,
            DaemonError::IrEmitter(_) => "IR emitter error: "@,
            DaemonError::SessionBusy => "session already active"@,
            DaemonError::Join(_) => "task join error: "@,
        }
    }

    /// The error in words.
    pub fn message(&self) -> (r: String)
        ensures
            r@ == match self {
                DaemonError::Io(e) => self.prefix() + e@,
                DaemonError::Camera(e) => self.prefix() + e@,
                DaemonError::IrEmitter(IrEmitterError::NoConfig(p)) => self.prefix()
                    + "config file not found at "@ + p@,
                DaemonError::IrEmitter(IrEmitterError::ParseError(e)) => self.prefix()
                    + "config parse error: "@ + e@,
                DaemonError::IrEmitter(IrEmitterError::IoctlError(e)) => self.prefix()
                    + "ioctl failed: "@ + e@,
                DaemonError::SessionBusy => self.prefix(),
                DaemonError::Join(e) => self.prefix() + e@,
            },
    {
        match self {
            DaemonError::Io(e) => {
                let mut r: String = "IO error: ".to_owned();
                r.append(e.as_str());
                r
            },
            DaemonError::Camera(e) => {
                let mut r: String = "camera error: ".to_owned();
                r.append(e.as_str());
                r
            },
            DaemonError::IrEmitter(e) => {
                let mut r: String = "IR emitter error: ".to_owned();
                let cause = e.message();
                r.append(cause.as_str());
                r
            },
            DaemonError::SessionBusy => "session already active".to_owned(),
            DaemonError::Join(e) => {
                let mut r: String = "task join error: ".to_owned();
                r.append(e.as_str());
                r
            },
        }
    }
}

} // verus!
