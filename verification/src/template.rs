//! The grammar of a template, stated over its characters.
//!
//! A template is read by a machine with two states. Outside a placeholder it
//! takes the text up to the next `{` as a literal. Just behind a `{` it
//! either finds a second `{`, which stands for one literal `{`, or takes the
//! text up to the next `}` as a key. Where no `}` follows it stops. A `{`
//! that ends the template opens nothing: the machine stops in front of it.
//! What the machine has not read when it stops is the remainder.

use vstd::prelude::*;

verus! {

/// One unit of a parsed template.
pub enum Segment {
    /// Text that is rendered as it stands.
    Literal(Seq<char>),
    /// The name between `{` and `}`, without the braces.
    Key(Seq<char>),
}

/// Where the machine stands: the text not yet read, and whether it is read
/// as the inside of a placeholder.
pub struct Cursor {
    pub rest: Seq<char>,
    pub in_key: bool,
}

/// The index of the first `c` in `s`; `s.len()` where `s` holds none.
pub open spec fn find(s: Seq<char>, c: char) -> int
    decreases s.len(),
{
    if s.len() == 0 || s[0] == c {
        0
    } else {
        1 + find(s.drop_first(), c)
    }
}

/// The cursor at the start of a template.
pub open spec fn start(template: Seq<char>) -> Cursor {
    Cursor { rest: template, in_key: false }
}

/// One move of the machine: the segment it yields and where it stands then,
/// or `None` where it yields no more.
pub open spec fn step(c: Cursor) -> Option<(Segment, Cursor)> {
    if c.rest.len() == 0 {
        None
    } else if !c.in_key {
        let i = find(c.rest, '{');
        if i == c.rest.len() {
            Some((Segment::Literal(c.rest), Cursor { rest: Seq::empty(), in_key: false }))
        } else if i + 1 < c.rest.len() {
            Some((Segment::Literal(c.rest.take(i)), Cursor { rest: c.rest.skip(i + 1), in_key: true }))
        } else if i > 0 {
            Some((Segment::Literal(c.rest.take(i)), Cursor { rest: c.rest.skip(i), in_key: false }))
        } else {
            None
        }
    } else if c.rest[0] == '{' {
        Some((Segment::Literal(seq!['{']), Cursor { rest: c.rest.skip(1), in_key: false }))
    } else {
        let i = find(c.rest, '}');
        if i < c.rest.len() {
            Some((Segment::Key(c.rest.take(i)), Cursor { rest: c.rest.skip(i + 1), in_key: false }))
        } else {
            None
        }
    }
}

/// `find` stays within `s`, lands on a `c` where it lands inside, and passes
/// over none.
pub proof fn lemma_find(s: Seq<char>, c: char)
    ensures
        0 <= find(s, c) <= s.len(),
        find(s, c) < s.len() ==> s[find(s, c)] == c,
        forall|k: int| 0 <= k < find(s, c) ==> s[k] != c,
    decreases s.len(),
{
    if s.len() == 0 || s[0] == c {
    } else {
        lemma_find(s.drop_first(), c);
        assert forall|k: int| 0 <= k < find(s, c) implies s[k] != c by {
            if k > 0 {
                assert(s[k] == s.drop_first()[k - 1]);
            }
        }
    }
}

/// Where `s` is cut round a `c` with none before it, `find` names the cut.
pub proof fn lemma_find_at(s: Seq<char>, c: char, before: Seq<char>, after: Seq<char>)
    requires
        s == before + seq![c] + after,
        !before.contains(c),
    ensures
        find(s, c) == before.len(),
        s.take(find(s, c)) == before,
        s.skip(find(s, c) + 1) == after,
{
    lemma_find(s, c);
    let i = find(s, c);
    assert(s[before.len() as int] == c);
    if i < before.len() {
        assert(before[i] == s[i]);
    }
}

/// In a text without `c`, `find` runs to the end.
pub proof fn lemma_find_none(s: Seq<char>, c: char)
    requires
        !s.contains(c),
    ensures
        find(s, c) == s.len(),
{
    lemma_find(s, c);
}

/// Every move shortens the text that is left.
pub proof fn lemma_step_consumes(c: Cursor)
    ensures
        step(c) matches Some((_, next)) ==> next.rest.len() < c.rest.len(),
{
    lemma_find(c.rest, '{');
    lemma_find(c.rest, '}');
}

/// The segments that the machine yields from `c` on, in order.
pub open spec fn segments_from(c: Cursor) -> Seq<Segment>
    decreases c.rest.len(),
{
    match step(c) {
        None => Seq::empty(),
        Some((segment, next)) => {
            proof {
                lemma_step_consumes(c);
            }
            seq![segment] + segments_from(next)
        },
    }
}

/// Where the machine, started at `c`, stops.
pub open spec fn end_of(c: Cursor) -> Cursor
    decreases c.rest.len(),
{
    match step(c) {
        None => c,
        Some((_, next)) => {
            proof {
                lemma_step_consumes(c);
            }
            end_of(next)
        },
    }
}

/// Whether `segments` holds no key.
pub open spec fn key_free(segments: Seq<Segment>) -> bool {
    forall|i: int| 0 <= i < segments.len() ==> segments[i] is Literal
}

/// The names of the keys among `segments`, in their order, each as often as
/// it occurs.
pub open spec fn key_names(segments: Seq<Segment>) -> Seq<Seq<char>>
    decreases segments.len(),
{
    if segments.len() == 0 {
        Seq::empty()
    } else {
        let before = key_names(segments.drop_last());
        match segments.last() {
            Segment::Key(name) => before.push(name),
            Segment::Literal(_) => before,
        }
    }
}

/// The segments of a template, in the order of the text.
pub open spec fn segments(template: Seq<char>) -> Seq<Segment> {
    segments_from(start(template))
}

/// What the machine leaves unread of a template. It is empty for a
/// well-formed template. Behind a `{` that no `}` follows it is the text
/// behind that `{`; where the `{` ends the template, it is that `{`.
pub open spec fn remainder(template: Seq<char>) -> Seq<char> {
    end_of(start(template)).rest
}

/// Whether the template opens a placeholder that it never closes: a `{`
/// that is no half of `{{` and has no `}` behind it. That is the case
/// exactly where something is left unread.
pub open spec fn unterminated(template: Seq<char>) -> bool {
    remainder(template).len() > 0
}

/// Whether the machine stops inside a placeholder: behind a `{` that no `}`
/// follows.
pub open spec fn stops_in_key(template: Seq<char>) -> bool {
    end_of(start(template)).in_key
}

} // verus!
