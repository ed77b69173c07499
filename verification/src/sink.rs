//! The sink: where rendered text goes.
//!
//! A sink holds text and takes more at its end. It may be made with a limit
//! in bytes; a write that would pass the limit is refused whole and leaves
//! the sink as it was.

use vstd::prelude::*;
use vstd::string::StringExecFns;
use vstd::utf8::encode_utf8;

verus! {

/// `core::fmt::Error`, the std marker of a failed write. It carries nothing,
/// and nothing is claimed of it.
#[verifier::external_type_specification]
#[verifier::external_body]
pub struct ExFmtError(core::fmt::Error);

/// `Clone::clone` of `core::fmt::Error`; nothing is claimed of the copy.
pub assume_specification[ <core::fmt::Error as Clone>::clone ](
    e: &core::fmt::Error,
) -> core::fmt::Error
;

/// Makes the `core::fmt::Error` that a refused write returns.
#[verifier::external_body]
fn write_refused() -> core::fmt::Error {
    core::fmt::Error
}

/// The number of bytes that `text` takes in UTF-8.
pub open spec fn utf8_len(text: Seq<char>) -> nat {
    encode_utf8(text).len()
}

/// Whether a sink that holds `held` and is limited to `limit` bytes takes
/// `more`. A sink without a limit takes everything.
pub open spec fn fits(held: Seq<char>, more: Seq<char>, limit: Option<nat>) -> bool {
    limit matches Some(max) ==> utf8_len(held) + utf8_len(more) <= max
}

/// A destination for rendered text.
pub struct Sink {
    text: String,
    limit: Option<usize>,
}

impl View for Sink {
    type V = Seq<char>;

    /// The text that the sink holds.
    closed spec fn view(&self) -> Seq<char> {
        self.text@
    }
}

impl Sink {
    /// The most bytes that the sink takes, if it is limited.
    pub closed spec fn limit(&self) -> Option<nat> {
        match self.limit {
            Some(max) => Some(max as nat),
            None => None,
        }
    }

    /// An empty sink without a limit.
    pub fn new() -> (r: Sink)
        ensures
            r@ == Seq::<char>::empty(),
            r.limit() is None,
    {
        Sink { text: String::new(), limit: None }
    }

    /// An empty sink that takes at most `max` bytes.
    pub fn with_limit(max: usize) -> (r: Sink)
        ensures
            r@ == Seq::<char>::empty(),
            r.limit() == Some(max as nat),
    {
        Sink { text: String::new(), limit: Some(max) }
    }

    /// Appends `s` if it fits, and refuses it whole if it does not.
    pub fn write_str(&mut self, s: &str) -> (r: Result<(), core::fmt::Error>)
        ensures
            final(self).limit() == old(self).limit(),
            match r {
                Ok(()) => fits(old(self)@, s@, old(self).limit()) && final(self)@ == old(self)@
                    + s@,
                Err(_) => !fits(old(self)@, s@, old(self).limit()) && final(self)@ == old(self)@,
            },
    {
        let refused = match self.limit {
            Some(max) => {
                let held: usize = self.text.as_str().as_bytes().len();
                let more: usize = s.as_bytes().len();
                held > max || more > max - held
            },
            None => false,
        };
        if refused {
            Err(write_refused())
        } else {
            self.text.append(s);
            Ok(())
        }
    }

    /// The text that the sink holds.
    pub fn as_str(&self) -> (r: &str)
        ensures
            r@ == self@,
    {
        self.text.as_str()
    }

    /// Gives up the sink for the text that it holds.
    pub fn into_string(self) -> (r: String)
        ensures
            r@ == self@,
    {
        self.text
    }
}

} // verus!
