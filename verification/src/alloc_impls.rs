//! Resolvers over the maps of std: the value under a key is written as it
//! stands, and a key that the map lacks is unknown.

use crate::error::{Failure, FormatKeyError};
use crate::render::{answers, render_all};
use crate::resolver::{reply_of, Answer, FormatKey, Reply};
use crate::sink::{fits, Sink};
use crate::template::Segment;
use core::borrow::Borrow;
use core::hash::{BuildHasher, Hash};
use std::collections::{BTreeMap, HashMap};
use vstd::laws_cmp::obeys_cmp;
use vstd::prelude::*;
use vstd::std_specs::hash::{
    builds_valid_hashers, contains_borrowed_key, maps_borrowed_key_to_value, obeys_key_model,
};

verus! {

/// What a resolver over a map may do: write a value that the sink takes, or
/// write nothing and report the key as unknown or the write as refused.
pub open spec fn whole_or_nothing(held: Seq<char>, limit: Option<nat>, reply: Reply) -> bool {
    match reply.answer {
        Answer::Written => fits(held, reply.wrote, limit),
        Answer::UnknownKey => reply.wrote.len() == 0,
        Answer::Fmt => reply.wrote.len() == 0 && limit is Some,
    }
}

/// Whether `reply` is what looking `key` up in a hash map gives: `UnknownKey`
/// only where the map lacks the key, and otherwise a value under the key,
/// written where it fits and refused where it does not.
pub open spec fn looked_up_in_hash_map<K>(
    map: Map<K, String>,
    key: &str,
    held: Seq<char>,
    limit: Option<nat>,
    reply: Reply,
) -> bool {
    match reply.answer {
        Answer::UnknownKey => !contains_borrowed_key(map, key),
        Answer::Written => exists|value: String| #[trigger]
            maps_borrowed_key_to_value(map, key, value) && reply.wrote == value@,
        Answer::Fmt => exists|value: String| #[trigger]
            maps_borrowed_key_to_value(map, key, value) && !fits(held, value@, limit),
    }
}

/// Whether `reply` is what looking `key` up in a B-tree map gives:
/// `UnknownKey` only where the map lacks the key, and otherwise a value
/// under the key, written where it fits and refused where it does not.
pub open spec fn looked_up_in_btree_map<K>(
    map: Map<K, String>,
    key: &str,
    held: Seq<char>,
    limit: Option<nat>,
    reply: Reply,
) -> bool {
    match reply.answer {
        Answer::UnknownKey => !vstd::std_specs::btree::contains_borrowed_key(map, key),
        Answer::Written => exists|value: String| #[trigger]
            vstd::std_specs::btree::maps_borrowed_key_to_value(map, key, value) && reply.wrote
                == value@,
        Answer::Fmt => exists|value: String| #[trigger]
            vstd::std_specs::btree::maps_borrowed_key_to_value(map, key, value) && !fits(
                held,
                value@,
                limit,
            ),
    }
}

/// Whether a sink went from `before` to `after` with the result `r` as it
/// does when `value` is written to it: the value is added where it fits,
/// and the write is refused and nothing added where it does not.
pub open spec fn written_whole(
    value: Seq<char>,
    before: Seq<char>,
    limit: Option<nat>,
    after: Seq<char>,
    r: Result<(), FormatKeyError>,
) -> bool {
    if fits(before, value, limit) {
        r is Ok && after == before + value
    } else {
        r matches Err(FormatKeyError::Fmt(_)) && after == before
    }
}

/// Writes what a lookup found, or reports the key as unknown where it found
/// nothing.
pub fn write_found(found: Option<&String>, f: &mut Sink) -> (r: Result<(), FormatKeyError>)
    ensures
        final(f).limit() == old(f).limit(),
        match found {
            Some(value) => written_whole(value@, old(f)@, old(f).limit(), final(f)@, r),
            None => r == Err::<(), FormatKeyError>(FormatKeyError::UnknownKey) && final(f)@ == old(
                f,
            )@,
        },
        whole_or_nothing(old(f)@, old(f).limit(), reply_of(old(f)@, final(f)@, r)),
{
    let ghost held = f@;
    match found {
        Some(value) => match f.write_str(value.as_str()) {
            Ok(()) => {
                assert(f@.skip(held.len() as int) == value@);
                Ok(())
            },
            Err(e) => {
                assert(f@.skip(held.len() as int) == Seq::<char>::empty());
                Err(FormatKeyError::Fmt(e))
            },
        },
        None => {
            assert(f@.skip(held.len() as int) == Seq::<char>::empty());
            Err(FormatKeyError::UnknownKey)
        },
    }
}

impl<K: Borrow<str> + Eq + Hash, S: BuildHasher> FormatKey for HashMap<K, String, S> {
    open spec fn may_reply(
        &self,
        key: Seq<char>,
        held: Seq<char>,
        limit: Option<nat>,
        reply: Reply,
    ) -> bool {
        &&& whole_or_nothing(held, limit, reply)
        &&& obeys_key_model::<K>() && builds_valid_hashers::<S>() ==> exists|name: &str|
            name@ == key && #[trigger] looked_up_in_hash_map(self@, name, held, limit, reply)
    }

    /// Looks `key` up in the map and writes the value under it. Where the
    /// key type and the hasher keep to the model that vstd has of a hash
    /// map, `UnknownKey` comes exactly where the map lacks the key, and
    /// otherwise the value under the key is written whole or refused.
    fn fmt(&self, key: &str, f: &mut Sink) -> (r: Result<(), FormatKeyError>)
        ensures
            obeys_key_model::<K>() && builds_valid_hashers::<S>() ==> {
                &&& r matches Err(FormatKeyError::UnknownKey) ==> !contains_borrowed_key(
                    self@,
                    key,
                ) && final(f)@ == old(f)@
                &&& !(r matches Err(FormatKeyError::UnknownKey)) ==> exists|value: String| #[trigger]
                    maps_borrowed_key_to_value(self@, key, value) && written_whole(
                        value@,
                        old(f)@,
                        old(f).limit(),
                        final(f)@,
                        r,
                    )
            },
    {
        let ghost held = f@;
        let found = self.get(key);
        let r = write_found(found, f);
        proof {
            if obeys_key_model::<K>() && builds_valid_hashers::<S>() {
                let reply = reply_of(held, f@, r);
                if let Some(value) = found {
                    assert(maps_borrowed_key_to_value(self@, key, *value));
                    if r is Ok {
                        assert(reply.wrote == value@);
                    }
                }
                assert(looked_up_in_hash_map(self@, key, held, f.limit(), reply));
            }
        }
        r
    }
}

impl<K: Borrow<str> + Ord> FormatKey for BTreeMap<K, String> {
    open spec fn may_reply(
        &self,
        key: Seq<char>,
        held: Seq<char>,
        limit: Option<nat>,
        reply: Reply,
    ) -> bool {
        &&& whole_or_nothing(held, limit, reply)
        &&& obeys_cmp::<K>() ==> exists|name: &str|
            name@ == key && #[trigger] looked_up_in_btree_map(self@, name, held, limit, reply)
    }

    /// Looks `key` up in the map and writes the value under it. Where the
    /// key type is ordered as vstd asks of the keys of a B-tree map,
    /// `UnknownKey` comes exactly where the map lacks the key, and otherwise
    /// the value under the key is written whole or refused.
    fn fmt(&self, key: &str, f: &mut Sink) -> (r: Result<(), FormatKeyError>)
        ensures
            obeys_cmp::<K>() ==> {
                &&& r matches Err(FormatKeyError::UnknownKey)
                    ==> !vstd::std_specs::btree::contains_borrowed_key(self@, key) && final(f)@
                    == old(f)@
                &&& !(r matches Err(FormatKeyError::UnknownKey)) ==> exists|value: String| #[trigger]
                    vstd::std_specs::btree::maps_borrowed_key_to_value(self@, key, value)
                        && written_whole(value@, old(f)@, old(f).limit(), final(f)@, r)
            },
    {
        let ghost held = f@;
        let found = self.get(key);
        let r = write_found(found, f);
        proof {
            if obeys_cmp::<K>() {
                let reply = reply_of(held, f@, r);
                if let Some(value) = found {
                    assert(vstd::std_specs::btree::maps_borrowed_key_to_value(self@, key, *value));
                    if r is Ok {
                        assert(reply.wrote == value@);
                    }
                }
                assert(looked_up_in_btree_map(self@, key, held, f.limit(), reply));
            }
        }
        r
    }
}

/// A render with a hash map into a sink without a limit does not end in
/// `Fmt`: it goes through or names a key that the map lacks.
pub proof fn law_hash_map_writes<K: Borrow<str> + Eq + Hash, S: BuildHasher>(
    map: &HashMap<K, String, S>,
    segments: Seq<Segment>,
    replies: Seq<Reply>,
    sink: Seq<char>,
)
    requires
        answers(map, segments, replies, None, sink),
    ensures
        render_all(segments, replies, None, sink).1 != Some(Failure::Fmt),
{
    crate::laws::law_unlimited(map, segments, replies, sink, segments.len());
}

/// A render with a B-tree map into a sink without a limit does not end in
/// `Fmt`: it goes through or names a key that the map lacks.
pub proof fn law_btree_map_writes<K: Borrow<str> + Ord>(
    map: &BTreeMap<K, String>,
    segments: Seq<Segment>,
    replies: Seq<Reply>,
    sink: Seq<char>,
)
    requires
        answers(map, segments, replies, None, sink),
    ensures
        render_all(segments, replies, None, sink).1 != Some(Failure::Fmt),
{
    crate::laws::law_unlimited(map, segments, replies, sink, segments.len());
}

} // verus!
