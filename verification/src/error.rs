//! What can go wrong: for a resolver asked for one key, and for a render as
//! a whole.

use vstd::prelude::*;

verus! {

/// Why a resolver did not write the value of a key.
#[derive(Debug, Clone, PartialEq)]
pub enum FormatKeyError {
    /// The sink refused a write.
    Fmt(core::fmt::Error),
    /// The resolver has no value under that key.
    UnknownKey,
}

impl From<core::fmt::Error> for FormatKeyError {
    fn from(value: core::fmt::Error) -> (r: Self) {
        FormatKeyError::Fmt(value)
    }
}

impl vstd::std_specs::convert::FromSpecImpl<core::fmt::Error> for FormatKeyError {
    open spec fn obeys_from_spec() -> bool {
        true
    }

    open spec fn from_spec(value: core::fmt::Error) -> Self {
        FormatKeyError::Fmt(value)
    }
}

/// Why a render failed. `Key` and `Parse` point into the template.
#[derive(Debug, Clone, PartialEq)]
#[non_exhaustive]
pub enum FormatError<'a> {
    /// The resolver does not know this key.
    Key(&'a str),
    /// A placeholder is opened and never closed. This is what the template
    /// leaves unread: the text behind the `{`, or the `{` itself where it
    /// ends the template. It is never empty.
    Parse(&'a str),
    /// The sink refused a write, or the resolver said that it did.
    Fmt(core::fmt::Error),
}

/// A `FormatError` with its slices of the template as plain text.
pub enum Failure {
    Key(Seq<char>),
    Parse(Seq<char>),
    Fmt,
}

impl<'a> View for FormatError<'a> {
    type V = Failure;

    open spec fn view(&self) -> Failure {
        match *self {
            FormatError::Key(name) => Failure::Key(name@),
            FormatError::Parse(rest) => Failure::Parse(rest@),
            FormatError::Fmt(_) => Failure::Fmt,
        }
    }
}

} // verus!
