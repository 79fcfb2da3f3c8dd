//! Errors of value operations.
use vstd::prelude::*;
use crate::text::{nat_text, push_str, to_owned_string, usize_text};

verus! {

/// An error of a value operation.
#[derive(Debug)]
pub enum Error {
    /// A value had another type than expected.
    TypeError { expected: &'static str, actual: &'static str },
    /// A key was missing.
    KeyNotFound(String),
    /// An index was past the end.
    IndexOutOfBounds { index: usize, length: usize },
    /// A path did not parse.
    InvalidPath(String),
    /// A value could not be rendered in a format.
    Format(String),
    /// Input did not parse.
    Parse(String),
    /// Both sides of a three-way merge changed the same place differently.
    MergeConflict { path: String, message: String },
    /// Any other failure.
    Other(String),
}

/// The message of an error.
pub open spec fn message_spec(e: Error) -> Seq<char> {
    match e {
        Error::TypeError { expected, actual } => "type error: expected "@ + expected@ + ", got "@ + actual@,
        Error::KeyNotFound(k) => "key not found: "@ + k@,
        Error::IndexOutOfBounds { index, length } => "index out of bounds: "@ + nat_text(index as nat) + " (length "@ + nat_text(length as nat) + ")"@,
        Error::InvalidPath(p) => "invalid path: "@ + p@,
        Error::Format(m) => "format error: "@ + m@,
        Error::Parse(m) => "parse error: "@ + m@,
        Error::MergeConflict { path, message } => "merge conflict at "@ + path@ + ": "@ + message@,
        Error::Other(m) => m@,
    }
}

impl Error {
    /// The human-readable message.
    pub fn message(&self) -> (r: String)
        ensures
            r@ == message_spec(*self),
    {
        match self {
            Error::TypeError { expected, actual } => {
                let mut r = to_owned_string("type error: expected ");
                push_str(&mut r, expected);
                push_str(&mut r, ", got ");
                push_str(&mut r, actual);
                r
            },
            Error::KeyNotFound(k) => {
                let mut r = to_owned_string("key not found: ");
                push_str(&mut r, k.as_str());
                r
            },
            Error::IndexOutOfBounds { index, length } => {
                let mut r = to_owned_string("index out of bounds: ");
                push_str(&mut r, usize_text(*index).as_str());
                push_str(&mut r, " (length ");
                push_str(&mut r, usize_text(*length).as_str());
                push_str(&mut r, ")");
                r
            },
            Error::InvalidPath(p) => {
                let mut r = to_owned_string("invalid path: ");
                push_str(&mut r, p.as_str());
                r
            },
            Error::Format(m) => {
                let mut r = to_owned_string("format error: ");
                push_str(&mut r, m.as_str());
                r
            },
            Error::Parse(m) => {
                let mut r = to_owned_string("parse error: ");
                push_str(&mut r, m.as_str());
                r
            },
            Error::MergeConflict { path, message } => {
                let mut r = to_owned_string("merge conflict at ");
                push_str(&mut r, path.as_str());
                push_str(&mut r, ": ");
                push_str(&mut r, message.as_str());
                r
            },
            Error::Other(m) => to_owned_string(m.as_str()),
        }
    }
}

} // verus!
