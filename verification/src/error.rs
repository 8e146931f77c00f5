use vstd::prelude::*;

use crate::text::{decimal, push_decimal, str_chars, string_from_chars};

verus! {

/// The kind of an [`Error`].
#[derive(Debug, Clone, Copy, PartialEq, Eq, Hash, Structural)]
pub enum ErrorKind {
    /// An input parameter has an invalid form or structure.
    InvalidInput,
    /// Input data is invalid or corrupted.
    InvalidData,
    /// An internal state is invalid, or the requested operation cannot be done in it.
    InvalidState,
    /// An operation or data format is not supported.
    Unsupported,
    /// More input bytes are needed (used internally by the decoders).
    InsufficientBuffer,
}

impl ErrorKind {
    /// The name of this kind, as text.
    pub open spec fn spec_name(self) -> Seq<char> {
        match self {
            ErrorKind::InvalidInput => "InvalidInput"@,
            ErrorKind::InvalidData => "InvalidData"@,
            ErrorKind::InvalidState => "InvalidState"@,
            ErrorKind::Unsupported => "Unsupported"@,
            ErrorKind::InsufficientBuffer => "InsufficientBuffer"@,
        }
    }

    /// The name of this kind.
    pub fn name(self) -> (r: &'static str)
        ensures
            r@ == self.spec_name(),
    {
        match self {
            ErrorKind::InvalidInput => "InvalidInput",
            ErrorKind::InvalidData => "InvalidData",
            ErrorKind::InvalidState => "InvalidState",
            ErrorKind::Unsupported => "Unsupported",
            ErrorKind::InsufficientBuffer => "InsufficientBuffer",
        }
    }
}

/// The error type of this library.
#[derive(Debug)]
pub struct Error {
    /// What kind of error occurred.
    pub kind: ErrorKind,
    /// Why the error occurred.
    pub reason: String,
}

impl Error {
    /// Creates an error of the given kind without a reason.
    pub fn new(kind: ErrorKind) -> (e: Self)
        ensures
            e.kind == kind,
            e.reason@ == Seq::<char>::empty(),
    {
        Error { kind, reason: String::new() }
    }

    /// Creates an error of the given kind with a reason.
    pub fn with_reason(kind: ErrorKind, reason: &str) -> (e: Self)
        ensures
            e.kind == kind,
            e.reason@ == reason@,
    {
        Error { kind, reason: reason.to_owned() }
    }

    /// Creates an error of the given kind whose reason is the given text.
    pub(crate) fn with_text(kind: ErrorKind, text: &Vec<char>) -> (e: Self)
        ensures
            e.kind == kind,
            e.reason@ == text@,
    {
        Error { kind, reason: string_from_chars(text.as_slice()) }
    }

    /// Creates an error of the given kind whose reason is `text` followed by `n` in
    /// decimal.
    pub(crate) fn with_number(kind: ErrorKind, text: &str, n: u64) -> (e: Self)
        ensures
            e.kind == kind,
            e.reason@ == text@ + decimal(n as nat),
    {
        let mut t = str_chars(text);
        push_decimal(&mut t, n);
        Self::with_text(kind, &t)
    }

    pub(crate) fn invalid_data(reason: &str) -> (e: Self)
        ensures
            e.kind == ErrorKind::InvalidData,
    {
        Self::with_reason(ErrorKind::InvalidData, reason)
    }

    pub(crate) fn invalid_input(reason: &str) -> (e: Self)
        ensures
            e.kind == ErrorKind::InvalidInput,
    {
        Self::with_reason(ErrorKind::InvalidInput, reason)
    }

    pub(crate) fn invalid_state(reason: &str) -> (e: Self)
        ensures
            e.kind == ErrorKind::InvalidState,
    {
        Self::with_reason(ErrorKind::InvalidState, reason)
    }

    pub(crate) fn unsupported(reason: &str) -> (e: Self)
        ensures
            e.kind == ErrorKind::Unsupported,
    {
        Self::with_reason(ErrorKind::Unsupported, reason)
    }

    pub(crate) fn insufficient_buffer() -> (e: Self)
        ensures
            e.kind == ErrorKind::InsufficientBuffer,
    {
        Self::new(ErrorKind::InsufficientBuffer)
    }

    /// Succeeds exactly when `buf` holds at least `required_size` bytes.
    pub(crate) fn check_buffer_size(required_size: usize, buf: &[u8]) -> (r: Result<(), Self>)
        ensures
            r is Ok <==> buf@.len() >= required_size,
            r matches Err(e) ==> e.kind == ErrorKind::InsufficientBuffer,
    {
        if buf.len() < required_size {
            Err(Self::insufficient_buffer())
        } else {
            Ok(())
        }
    }

    /// A human-readable description: the kind's name, a colon and the reason.
    pub fn message(&self) -> (r: String)
        ensures
            r@ == self.kind.spec_name() + ": "@ + self.reason@,
    {
        let mut s = self.kind.name().to_owned();
        s.append(": ");
        s.append(self.reason.as_str());
        s
    }
}

} // verus!
