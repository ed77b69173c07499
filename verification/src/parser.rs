//! The template parser: it hands out the segments of a template one by one,
//! each a slice of the template, and allocates nothing.

use crate::template::{Cursor, Segment};
use crate::text::{split_before, split_first, split_once};
use vstd::prelude::*;

verus! {

/// The code of `{`, which opens a placeholder.
pub const OPEN: u8 = 0x7B;

/// The code of `}`, which closes a placeholder.
pub const CLOSE: u8 = 0x7D;

/// One segment of a template, borrowed from it.
#[derive(Debug)]
pub enum ParseSegment<'a> {
    /// Text to render as it stands.
    Literal(&'a str),
    /// The name of a placeholder, without its braces.
    Key(&'a str),
}

impl<'a> View for ParseSegment<'a> {
    type V = Segment;

    open spec fn view(&self) -> Segment {
        match *self {
            ParseSegment::Literal(text) => Segment::Literal(text@),
            ParseSegment::Key(name) => Segment::Key(name@),
        }
    }
}

impl Default for ParseSegment<'_> {
    fn default() -> (r: Self)
        ensures
            r@ == Segment::Literal(Seq::empty()),
    {
        proof {
            reveal_strlit("");
            assert(""@ =~= Seq::<char>::empty());
        }
        ParseSegment::Literal("")
    }
}

/// A parser over one template. It only moves forward: to read a template
/// again, make a new parser.
pub struct Parser<'a> {
    /// The part of the template that is not read yet.
    pub s: &'a str,
    /// Whether `s` begins just behind a `{`.
    pub is_key: bool,
}

impl<'a> View for Parser<'a> {
    type V = Cursor;

    open spec fn view(&self) -> Cursor {
        Cursor { rest: self.s@, in_key: self.is_key }
    }
}

impl<'a> Parser<'a> {
    /// A parser at the start of `s`.
    pub fn new(s: &'a str) -> (r: Self)
        ensures
            r@ == crate::template::start(s@),
    {
        Parser { s, is_key: false }
    }

    /// Yields the next segment and moves behind it. It yields `None`, and
    /// stays as it is, at the end of the template, inside a placeholder that
    /// nothing closes, and in front of a `{` that ends the template. What
    /// is left in `s` then is the remainder.
    pub fn next(&mut self) -> (r: Option<ParseSegment<'a>>)
        ensures
            match crate::template::step(old(self)@) {
                Some((segment, next)) => r matches Some(found) && found@ == segment && final(self)@
                    == next,
                None => r is None && final(self)@ == old(self)@,
            },
    {
        if self.s.is_empty() {
            None
        } else if !self.is_key {
            match split_before(self.s, OPEN) {
                Some((before, rest)) => {
                    proof {
                        assert(rest@ == seq!['{'] + rest@.drop_first());
                        assert(self.s@ == before@ + seq!['{'] + rest@.drop_first());
                        crate::template::lemma_find_at(
                            self.s@,
                            '{',
                            before@,
                            rest@.drop_first(),
                        );
                        assert(self.s@.skip(before@.len() as int) == rest@);
                    }
                    match split_first(rest, OPEN) {
                        Some((brace, after)) => {
                            assert(after@ == rest@.drop_first());
                            if !after.is_empty() {
                                self.s = after;
                                self.is_key = true;
                                Some(ParseSegment::Literal(before))
                            } else if !before.is_empty() {
                                self.s = rest;
                                Some(ParseSegment::Literal(before))
                            } else {
                                None
                            }
                        },
                        None => None,
                    }
                },
                None => {
                    proof {
                        crate::template::lemma_find_none(self.s@, '{');
                        reveal_strlit("");
                        assert(""@ =~= Seq::<char>::empty());
                    }
                    let all = self.s;
                    self.s = "";
                    Some(ParseSegment::Literal(all))
                },
            }
        } else {
            match split_first(self.s, OPEN) {
                Some((brace, after)) => {
                    assert(after@ == self.s@.skip(1));
                    self.s = after;
                    self.is_key = false;
                    Some(ParseSegment::Literal(brace))
                },
                None => match split_once(self.s, CLOSE) {
                    Some((name, after)) => {
                        proof {
                            crate::template::lemma_find_at(self.s@, '}', name@, after@);
                        }
                        self.s = after;
                        self.is_key = false;
                        Some(ParseSegment::Key(name))
                    },
                    None => {
                        proof {
                            crate::template::lemma_find_none(self.s@, '}');
                        }
                        None
                    },
                },
            }
        }
    }
}

} // verus!
