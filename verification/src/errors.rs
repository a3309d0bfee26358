//! The failures that style operations report.

use vstd::prelude::*;
use crate::text::{append_str, string_of};

verus! {

/// Why a style operation failed. Each kind but `NotFound` carries the message of
/// its cause; `Recovery` carries the messages of every failure that met, one
/// after the other.
#[derive(Clone, Debug)]
pub enum Error {
    /// No style has the given id or name.
    NotFound,
    /// The catalogue could not be read, parsed or written.
    Config(String),
    /// A style sheet could not be read or written.
    Io(String),
    /// A remote fetch failed.
    Network(String),
    /// A number could not be read.
    Parse(String),
    /// Restoring the state from before a failure failed as well.
    Recovery(String),
}

/// The text that reports `error`.
pub open spec fn message_of(error: Error) -> Seq<char> {
    match error {
        Error::NotFound => "Invalid style id or name"@,
        Error::Config(text) => text@,
        Error::Io(text) => text@,
        Error::Network(text) => text@,
        Error::Parse(text) => text@,
        Error::Recovery(text) => text@,
    }
}

impl Error {
    /// The text that reports this error.
    pub fn message(&self) -> (text: String)
        ensures
            text@ == message_of(*self),
    {
        match self {
            Error::NotFound => "Invalid style id or name".to_owned(),
            Error::Config(text) => text.clone(),
            Error::Io(text) => text.clone(),
            Error::Network(text) => text.clone(),
            Error::Parse(text) => text.clone(),
            Error::Recovery(text) => text.clone(),
        }
    }
}

/// One error that reports both `first` and `second`: their messages, `first`'s
/// before `second`'s.
pub fn both(first: &Error, second: &Error) -> (joined: Error)
    ensures
        joined is Recovery,
        message_of(joined) == message_of(*first) + message_of(*second),
{
    let mut text: Vec<char> = Vec::new();
    let one = first.message();
    let other = second.message();
    append_str(&mut text, one.as_str());
    append_str(&mut text, other.as_str());
    proof {
        assert(text@ =~= message_of(*first) + message_of(*second));
    }
    Error::Recovery(string_of(&text))
}

} // verus!
