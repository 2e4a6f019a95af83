//! The engine's single error type. The specific failure mode is not part
//! of the public API: callers ask with the `is_xxx()` predicates, and read
//! the human-readable text with [`Error::message`].

use crate::text::{push_str, string_from_chars};
use vstd::prelude::*;

verus! {

broadcast use vstd::string::group_string_axioms;

/// What went wrong, with the text the message is built from.
#[derive(Clone, Debug)]
pub enum ErrorKind {
    /// An I/O failure, with the operating system's description.
    Io(String),
    /// A JSON (de)serialization failure, with its description.
    Serde(String),
    SchemaVersion { expected: String, found: String },
    UnsupportedModule { kind: String, reason: String },
    Conflict(String),
    Mock(String),
    Preflight(String),
    AlreadyRunning,
    /// A CSV failure, with its description.
    Csv(String),
    Aborted(String),
    Msg(String),
}

/// Which kind of error, without its text.
#[derive(Clone, Copy, Debug, PartialEq, Eq, Structural)]
pub enum ErrorTag {
    Io,
    Serde,
    SchemaVersion,
    UnsupportedModule,
    Conflict,
    Mock,
    Preflight,
    AlreadyRunning,
    Csv,
    Aborted,
    Msg,
}

pub open spec fn tag_of(k: ErrorKind) -> ErrorTag {
    match k {
        ErrorKind::Io(_) => ErrorTag::Io,
        ErrorKind::Serde(_) => ErrorTag::Serde,
        ErrorKind::SchemaVersion { .. } => ErrorTag::SchemaVersion,
        ErrorKind::UnsupportedModule { .. } => ErrorTag::UnsupportedModule,
        ErrorKind::Conflict(_) => ErrorTag::Conflict,
        ErrorKind::Mock(_) => ErrorTag::Mock,
        ErrorKind::Preflight(_) => ErrorTag::Preflight,
        ErrorKind::AlreadyRunning => ErrorTag::AlreadyRunning,
        ErrorKind::Csv(_) => ErrorTag::Csv,
        ErrorKind::Aborted(_) => ErrorTag::Aborted,
        ErrorKind::Msg(_) => ErrorTag::Msg,
    }
}

#[derive(Clone, Debug)]
pub struct Error {
    kind: ErrorKind,
}

/// A `msg` error built from characters.
pub fn err_msg_chars(text: &Vec<char>) -> (e: Error)
    ensures
        err_view(e) == msg_view(text@),
{
    Error::msg(crate::text::string_from_chars(text))
}

/// The human-readable message for an error kind.
pub open spec fn kind_message(k: ErrorKind) -> Seq<char> {
    match k {
        ErrorKind::Io(m) => "io: "@ + m@,
        ErrorKind::Serde(m) => "json: "@ + m@,
        ErrorKind::SchemaVersion { expected, found } => "schema_version mismatch: expected "@
            + expected@ + ", found "@ + found@,
        ErrorKind::UnsupportedModule { kind, reason } => "module type `"@ + kind@
            + "` is not supported in M1: "@ + reason@,
        ErrorKind::Conflict(m) => "scenario conflict: "@ + m@,
        ErrorKind::Mock(m) => "mock: "@ + m@,
        ErrorKind::Preflight(m) => "preflight: "@ + m@,
        ErrorKind::AlreadyRunning => "another VOIDFRAME instance is already running"@,
        ErrorKind::Csv(m) => "csv: "@ + m@,
        ErrorKind::Aborted(m) => "aborted: "@ + m@,
        ErrorKind::Msg(m) => m@,
    }
}

impl Error {
    /// The kind of this error.
    pub closed spec fn kind(&self) -> ErrorKind {
        self.kind
    }

    pub fn io(message: String) -> (e: Self)
        ensures
            e.kind() == ErrorKind::Io(message),
    {
        Error { kind: ErrorKind::Io(message) }
    }

    pub fn serde(message: String) -> (e: Self)
        ensures
            e.kind() == ErrorKind::Serde(message),
    {
        Error { kind: ErrorKind::Serde(message) }
    }

    pub fn csv(message: String) -> (e: Self)
        ensures
            e.kind() == ErrorKind::Csv(message),
    {
        Error { kind: ErrorKind::Csv(message) }
    }

    pub fn msg(message: String) -> (e: Self)
        ensures
            e.kind() == ErrorKind::Msg(message),
    {
        Error { kind: ErrorKind::Msg(message) }
    }

    pub fn schema_version(expected: String, found: String) -> (e: Self)
        ensures
            e.kind() == (ErrorKind::SchemaVersion { expected, found }),
    {
        Error { kind: ErrorKind::SchemaVersion { expected, found } }
    }

    pub fn unsupported_module(kind: String, reason: String) -> (e: Self)
        ensures
            e.kind() == (ErrorKind::UnsupportedModule { kind, reason }),
    {
        Error { kind: ErrorKind::UnsupportedModule { kind, reason } }
    }

    pub fn conflict(message: String) -> (e: Self)
        ensures
            e.kind() == ErrorKind::Conflict(message),
    {
        Error { kind: ErrorKind::Conflict(message) }
    }

    pub fn mock(message: String) -> (e: Self)
        ensures
            e.kind() == ErrorKind::Mock(message),
    {
        Error { kind: ErrorKind::Mock(message) }
    }

    pub fn preflight(message: String) -> (e: Self)
        ensures
            e.kind() == ErrorKind::Preflight(message),
    {
        Error { kind: ErrorKind::Preflight(message) }
    }

    pub fn already_running() -> (e: Self)
        ensures
            e.kind() == ErrorKind::AlreadyRunning,
    {
        Error { kind: ErrorKind::AlreadyRunning }
    }

    pub fn aborted(message: String) -> (e: Self)
        ensures
            e.kind() == ErrorKind::Aborted(message),
    {
        Error { kind: ErrorKind::Aborted(message) }
    }

    pub fn is_io(&self) -> (b: bool)
        ensures
            b == self.kind() is Io,
    {
        matches!(self.kind, ErrorKind::Io(_))
    }

    pub fn is_serde(&self) -> (b: bool)
        ensures
            b == self.kind() is Serde,
    {
        matches!(self.kind, ErrorKind::Serde(_))
    }

    pub fn is_schema_version(&self) -> (b: bool)
        ensures
            b == self.kind() is SchemaVersion,
    {
        matches!(self.kind, ErrorKind::SchemaVersion { .. })
    }

    pub fn is_unsupported_module(&self) -> (b: bool)
        ensures
            b == self.kind() is UnsupportedModule,
    {
        matches!(self.kind, ErrorKind::UnsupportedModule { .. })
    }

    pub fn is_conflict(&self) -> (b: bool)
        ensures
            b == self.kind() is Conflict,
    {
        matches!(self.kind, ErrorKind::Conflict(_))
    }

    pub fn is_mock(&self) -> (b: bool)
        ensures
            b == self.kind() is Mock,
    {
        matches!(self.kind, ErrorKind::Mock(_))
    }

    pub fn is_preflight(&self) -> (b: bool)
        ensures
            b == self.kind() is Preflight,
    {
        matches!(self.kind, ErrorKind::Preflight(_))
    }

    pub fn is_already_running(&self) -> (b: bool)
        ensures
            b == self.kind() is AlreadyRunning,
    {
        matches!(self.kind, ErrorKind::AlreadyRunning)
    }

    pub fn is_csv(&self) -> (b: bool)
        ensures
            b == self.kind() is Csv,
    {
        matches!(self.kind, ErrorKind::Csv(_))
    }

    pub fn is_aborted(&self) -> (b: bool)
        ensures
            b == self.kind() is Aborted,
    {
        matches!(self.kind, ErrorKind::Aborted(_))
    }

    pub fn is_msg(&self) -> (b: bool)
        ensures
            b == self.kind() is Msg,
    {
        matches!(self.kind, ErrorKind::Msg(_))
    }

    /// The error's human-readable message (what `Display` shows).
    pub fn message(&self) -> (m: String)
        ensures
            m@ == kind_message(self.kind()),
    {
        let mut out: Vec<char> = Vec::new();
        match &self.kind {
            ErrorKind::Io(m) => {
                push_str(&mut out, "io: ");
                push_str(&mut out, m.as_str());
            },
            ErrorKind::Serde(m) => {
                push_str(&mut out, "json: ");
                push_str(&mut out, m.as_str());
            },
            ErrorKind::SchemaVersion { expected, found } => {
                push_str(&mut out, "schema_version mismatch: expected ");
                push_str(&mut out, expected.as_str());
                push_str(&mut out, ", found ");
                push_str(&mut out, found.as_str());
            },
            ErrorKind::UnsupportedModule { kind, reason } => {
                push_str(&mut out, "module type `");
                push_str(&mut out, kind.as_str());
                push_str(&mut out, "` is not supported in M1: ");
                push_str(&mut out, reason.as_str());
            },
            ErrorKind::Conflict(m) => {
                push_str(&mut out, "scenario conflict: ");
                push_str(&mut out, m.as_str());
            },
            ErrorKind::Mock(m) => {
                push_str(&mut out, "mock: ");
                push_str(&mut out, m.as_str());
            },
            ErrorKind::Preflight(m) => {
                push_str(&mut out, "preflight: ");
                push_str(&mut out, m.as_str());
            },
            ErrorKind::AlreadyRunning => {
                push_str(&mut out, "another VOIDFRAME instance is already running");
            },
            ErrorKind::Csv(m) => {
                push_str(&mut out, "csv: ");
                push_str(&mut out, m.as_str());
            },
            ErrorKind::Aborted(m) => {
                push_str(&mut out, "aborted: ");
                push_str(&mut out, m.as_str());
            },
            ErrorKind::Msg(m) => {
                push_str(&mut out, m.as_str());
            },
        }
        string_from_chars(&out)
    }
}

/// An error as plain values: its kind and its message.
pub open spec fn err_view(e: Error) -> (ErrorTag, Seq<char>) {
    (tag_of(e.kind()), kind_message(e.kind()))
}

/// A `msg` error whose message is `text`, as plain values.
pub open spec fn msg_view(text: Seq<char>) -> (ErrorTag, Seq<char>) {
    (ErrorTag::Msg, text)
}

/// A `msg` error with the given text.
pub fn err_msg(text: &str) -> (e: Error)
    ensures
        err_view(e) == msg_view(text@),
{
    Error::msg(text.to_owned())
}

} // verus!
