//! The formats in which transaction data is read and written.

pub mod binary;
pub mod binary_round_trip;
pub mod csv;
pub mod csv_round_trip;
pub mod text;
pub mod text_round_trip;

use crate::error::{Error, ErrorView};
use crate::strings::{is_literal, lowercase, to_chars, to_lowercase};
use vstd::prelude::*;

verus! {

/// A supported format.
#[derive(Debug, Clone, Copy, PartialEq, Eq, Structural)]
pub enum Format {
    /// Comma-separated values.
    Csv,
    /// Key-value text for people to read and edit.
    Text,
    /// Compact length-prefixed binary.
    Binary,
}

/// The canonical name of a format.
pub open spec fn format_name(format: Format) -> Seq<char> {
    match format {
        Format::Csv => "csv"@,
        Format::Text => "text"@,
        Format::Binary => "binary"@,
    }
}

/// The format that a lower-case name stands for.
pub open spec fn format_of_name(name: Seq<char>) -> Option<Format> {
    if name == "csv"@ {
        Some(Format::Csv)
    } else if name == "text"@ || name == "txt"@ {
        Some(Format::Text)
    } else if name == "binary"@ || name == "bin"@ {
        Some(Format::Binary)
    } else {
        None
    }
}

/// The error for a name that stands for no format.
pub open spec fn unknown_format() -> ErrorView {
    ErrorView::UnsupportedFormat("unknown format"@)
}

impl Format {
    /// The canonical name of the format: `csv`, `text` or `binary`.
    pub fn as_str(&self) -> (s: &'static str)
        ensures
            s@ == format_name(*self),
    {
        match self {
            Format::Csv => "csv",
            Format::Text => "text",
            Format::Binary => "binary",
        }
    }

    /// The format with the given lower-case name: `csv`, `text` or `txt`,
    /// `binary` or `bin`.
    pub fn from_lowercase(name: &str) -> (r: Result<Format, Error>)
        ensures
            match format_of_name(name@) {
                Some(format) => r == Ok::<Format, Error>(format),
                None => r matches Err(e) && e@ == unknown_format(),
            },
    {
        let chars = to_chars(name);
        if is_literal(&chars, "csv") {
            Ok(Format::Csv)
        } else if is_literal(&chars, "text") || is_literal(&chars, "txt") {
            Ok(Format::Text)
        } else if is_literal(&chars, "binary") || is_literal(&chars, "bin") {
            Ok(Format::Binary)
        } else {
            Err(Error::UnsupportedFormat("unknown format"))
        }
    }

    /// The format with the given name, in any mix of upper and lower case.
    pub fn from_str(name: &str) -> (r: Result<Format, Error>)
        ensures
            match format_of_name(lowercase(name@)) {
                Some(format) => r == Ok::<Format, Error>(format),
                None => r matches Err(e) && e@ == unknown_format(),
            },
    {
        let lower = to_lowercase(name);
        Format::from_lowercase(lower.as_str())
    }
}

} // verus!
