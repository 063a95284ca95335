//! The errors that reading and writing transactions can end in.

use crate::strings::{from_chars, push_str};
use vstd::prelude::*;

verus! {

/// Why the input could not be read as a stream of a format's units.
#[derive(Debug, Clone, Copy, PartialEq, Eq, Structural)]
pub enum IoErrorKind {
    /// The input ended before a value was complete.
    UnexpectedEof,
    /// The input is not UTF-8 text.
    InvalidData,
}

/// An error from parsing or writing transaction data.
#[derive(Debug)]
pub enum Error {
    /// The input failed as a stream, before its content was looked at.
    Io(IoErrorKind),
    /// The named format is not one this library knows.
    UnsupportedFormat(&'static str),
    /// The input is malformed.
    Parse {
        /// The format that was being parsed.
        format: &'static str,
        /// What is wrong, with the line number where there is one.
        message: String,
    },
}

/// An error as the contracts speak of it.
pub enum ErrorView {
    Io(IoErrorKind),
    UnsupportedFormat(Seq<char>),
    Parse { format: Seq<char>, message: Seq<char> },
}

impl View for Error {
    type V = ErrorView;

    open spec fn view(&self) -> ErrorView {
        match *self {
            Error::Io(kind) => ErrorView::Io(kind),
            Error::UnsupportedFormat(name) => ErrorView::UnsupportedFormat(name@),
            Error::Parse { format, message } => ErrorView::Parse {
                format: format@,
                message: message@,
            },
        }
    }
}

/// The parse error for `format` with the given message.
pub open spec fn parse_error(format: Seq<char>, message: Seq<char>) -> ErrorView {
    ErrorView::Parse { format, message }
}

/// What an I/O failure is called in an error's description.
pub open spec fn io_error_text(kind: IoErrorKind) -> Seq<char> {
    match kind {
        IoErrorKind::UnexpectedEof => "failed to fill whole buffer"@,
        IoErrorKind::InvalidData => "stream did not contain valid UTF-8"@,
    }
}

/// The one-line description of an error.
pub open spec fn error_text(e: ErrorView) -> Seq<char> {
    match e {
        ErrorView::Io(kind) => "I/O error: "@ + io_error_text(kind),
        ErrorView::UnsupportedFormat(name) => "unsupported format: "@ + name,
        ErrorView::Parse { format, message } => "parse error in "@ + format + ": "@ + message,
    }
}

impl Error {
    /// A parse error for the named format.
    pub fn parse(format: &'static str, message: String) -> (e: Error)
        ensures
            e@ == parse_error(format@, message@),
    {
        Error::Parse { format, message }
    }

    /// The one-line description of the error.
    pub fn to_string(&self) -> (s: String)
        ensures
            s@ == error_text(self@),
    {
        let mut out: Vec<char> = Vec::new();
        match self {
            Error::Io(kind) => {
                push_str(&mut out, "I/O error: ");
                match kind {
                    IoErrorKind::UnexpectedEof => push_str(&mut out, "failed to fill whole buffer"),
                    IoErrorKind::InvalidData => push_str(
                        &mut out,
                        "stream did not contain valid UTF-8",
                    ),
                }
            },
            Error::UnsupportedFormat(name) => {
                push_str(&mut out, "unsupported format: ");
                push_str(&mut out, name);
            },
            Error::Parse { format, message } => {
                push_str(&mut out, "parse error in ");
                push_str(&mut out, format);
                push_str(&mut out, ": ");
                push_str(&mut out, message.as_str());
            },
        }
        from_chars(&out)
    }
}

} // verus!
