//! The resolver: what the keys of a template are looked up in.

use crate::error::{Failure, FormatError, FormatKeyError};
use crate::sink::Sink;
use vstd::prelude::*;

verus! {

/// A source of values for keys.
///
/// The library proves of an implementation only what the contract of `fmt`
/// demands of it. An implementation that is not verified owes the same.
pub trait FormatKey {
    /// Whether `reply` is something that this resolver may do when it is
    /// asked for `key` with a sink that holds `held` and is limited to
    /// `limit`. An implementation may say here what it does; as it stands,
    /// every reply is possible.
    open spec fn may_reply(
        &self,
        key: Seq<char>,
        held: Seq<char>,
        limit: Option<nat>,
        reply: Reply,
    ) -> bool {
        true
    }

    /// Writes the value of `key` into `f`, or says why it did not:
    /// `UnknownKey` where there is no such value, `Fmt` where the sink
    /// refused a write. It may only write: what the sink held stays at its
    /// front, and its limit stays.
    fn fmt(&self, key: &str, f: &mut Sink) -> (r: Result<(), FormatKeyError>)
        ensures
            old(f)@.is_prefix_of(final(f)@),
            final(f).limit() == old(f).limit(),
            self.may_reply(key@, old(f)@, old(f).limit(), reply_of(old(f)@, final(f)@, r)),
    ;

    /// Whether a resolver of this type could ever know `key`. A type with a
    /// fixed set of keys says so here, and a precompiled template then
    /// refuses other keys before any render. As it stands, every key is
    /// accepted.
    fn is_acceptable_key(key: &str) -> (acceptable: bool)
        default_ensures
            acceptable,
    {
        true
    }
}

/// How a resolver answered for one key.
pub enum Answer {
    Written,
    UnknownKey,
    Fmt,
}

/// What a resolver did when it was asked for one key: the text that it
/// added to the sink, and its answer.
pub struct Reply {
    pub wrote: Seq<char>,
    pub answer: Answer,
}

/// The reply of a resolver that took the sink from `before` to `after` and
/// returned `result`.
pub open spec fn reply_of(
    before: Seq<char>,
    after: Seq<char>,
    result: Result<(), FormatKeyError>,
) -> Reply {
    Reply { wrote: after.skip(before.len() as int), answer: answer_of(result) }
}

/// The answer that a resolver's result stands for.
pub open spec fn answer_of(result: Result<(), FormatKeyError>) -> Answer {
    match result {
        Ok(()) => Answer::Written,
        Err(FormatKeyError::UnknownKey) => Answer::UnknownKey,
        Err(FormatKeyError::Fmt(_)) => Answer::Fmt,
    }
}

/// The failure, if any, with which a render stops on `answer` for `key`.
pub open spec fn stopped_by(key: Seq<char>, answer: Answer) -> Option<Failure> {
    match answer {
        Answer::Written => None,
        Answer::UnknownKey => Some(Failure::Key(key)),
        Answer::Fmt => Some(Failure::Fmt),
    }
}

/// The failure, if any, that a result of rendering stands for.
pub open spec fn failure_of(result: Result<(), FormatError>) -> Option<Failure> {
    match result {
        Ok(()) => None,
        Err(e) => Some(e@),
    }
}

/// Decides how a render goes on after the resolver has answered for `key`:
/// on, or to an end with the key named or the failed write passed up.
pub fn settle<'a>(key: &'a str, answer: Result<(), FormatKeyError>) -> (r: Result<
    (),
    FormatError<'a>,
>)
    ensures
        failure_of(r) == stopped_by(key@, answer_of(answer)),
{
    match answer {
        Ok(()) => Ok(()),
        Err(FormatKeyError::UnknownKey) => Err(FormatError::Key(key)),
        Err(FormatKeyError::Fmt(e)) => Err(FormatError::Fmt(e)),
    }
}

} // verus!
