//! Errors reported to the caller of an input request.

use vstd::prelude::*;

verus! {

/// What went wrong, as a category a caller can branch on.
#[derive(Clone, Copy, Debug, PartialEq, Eq, Structural)]
pub enum ErrorKind {
    /// The request reached the platform and the platform did not take it.
    InputFailed,
    /// The request names a target that cannot exist.
    InvalidTarget,
    /// The target window has gone away.
    WindowNotFound,
    /// The target runs at a higher integrity level than this process.
    PermissionDenied,
    /// The target drops input that is delivered in the background.
    BackgroundUnavailable,
}

/// An error with the text shown to the user.
#[derive(Debug, PartialEq, Eq)]
pub struct DesktopError {
    pub kind: ErrorKind,
    pub message: String,
}

/// A [`DesktopError`] as contracts see it.
pub struct Fault {
    pub kind: ErrorKind,
    pub message: Seq<char>,
}

/// What an operation without a value ended in, as contracts see it.
pub type Outcome = Result<(), Fault>;

/// Result of every fallible operation of this crate.
pub type CoreResult<T> = Result<T, DesktopError>;

impl View for DesktopError {
    type V = Fault;

    open spec fn view(&self) -> Fault {
        Fault { kind: self.kind, message: self.message@ }
    }
}

/// An input failure with this text.
pub open spec fn input_fault(message: Seq<char>) -> Fault {
    Fault { kind: ErrorKind::InputFailed, message }
}

/// A result with its error as contracts see it.
pub open spec fn judged<T>(result: CoreResult<T>) -> Result<T, Fault> {
    match result {
        Ok(value) => Ok(value),
        Err(error) => Err(error@),
    }
}

impl DesktopError {
    pub fn input_failed(message: String) -> (error: DesktopError)
        ensures
            error@ == input_fault(message@),
    {
        DesktopError { kind: ErrorKind::InputFailed, message }
    }

    pub fn invalid_target(message: String) -> (error: DesktopError)
        ensures
            error@ == (Fault { kind: ErrorKind::InvalidTarget, message: message@ }),
    {
        DesktopError { kind: ErrorKind::InvalidTarget, message }
    }

    pub fn window_not_found(message: String) -> (error: DesktopError)
        ensures
            error@ == (Fault { kind: ErrorKind::WindowNotFound, message: message@ }),
    {
        DesktopError { kind: ErrorKind::WindowNotFound, message }
    }

    pub fn permission_denied(message: String) -> (error: DesktopError)
        ensures
            error@ == (Fault { kind: ErrorKind::PermissionDenied, message: message@ }),
    {
        DesktopError { kind: ErrorKind::PermissionDenied, message }
    }

    pub fn background_unavailable(message: String) -> (error: DesktopError)
        ensures
            error@ == (Fault { kind: ErrorKind::BackgroundUnavailable, message: message@ }),
    {
        DesktopError { kind: ErrorKind::BackgroundUnavailable, message }
    }

    /// An equal error, with a text of its own.
    pub fn duplicate(&self) -> (error: DesktopError)
        ensures
            error@ == self@,
    {
        DesktopError { kind: self.kind, message: self.message.clone() }
    }
}

} // verus!
