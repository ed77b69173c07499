//! Laws: what holds of every template, every resolver and every sink.

use crate::error::Failure;
use crate::render::{answers, asked, render_all, render_first, render_template};
use crate::resolver::{FormatKey, Reply};
use crate::sink::fits;
use crate::template::{
    end_of, find, key_free, remainder, segments, segments_from, start, step, stops_in_key,
    unterminated, Cursor, Segment,
};
use vstd::prelude::*;

verus! {

/// The text that a segment adds to a render without a resolver: its own for
/// a literal, none for a key.
pub open spec fn text_of(segment: Segment) -> Seq<char> {
    match segment {
        Segment::Literal(text) => text,
        Segment::Key(_) => Seq::empty(),
    }
}

/// The literals of `segments`, one behind the other.
pub open spec fn literal_text(segments: Seq<Segment>) -> Seq<char>
    decreases segments.len(),
{
    if segments.len() == 0 {
        Seq::empty()
    } else {
        literal_text(segments.drop_last()) + text_of(segments.last())
    }
}

/// `k` opening braces.
pub open spec fn braces(k: nat) -> Seq<char> {
    Seq::new(k, |i: int| '{')
}

/// The literals of two runs of segments are those of the first, then those
/// of the second.
pub proof fn lemma_literal_text_concat(a: Seq<Segment>, b: Seq<Segment>)
    ensures
        literal_text(a + b) == literal_text(a) + literal_text(b),
    decreases b.len(),
{
    if b.len() == 0 {
        assert(a + b == a);
    } else {
        assert((a + b).drop_last() == a + b.drop_last());
        lemma_literal_text_concat(a, b.drop_last());
    }
}

/// The first `n` segments are rendered the same whatever segment follows
/// them.
pub proof fn lemma_later_segments(
    segments: Seq<Segment>,
    replies: Seq<Reply>,
    limit: Option<nat>,
    sink: Seq<char>,
    n: nat,
    m: nat,
)
    requires
        n <= m <= segments.len(),
    ensures
        render_first(segments.take(m as int), replies, limit, sink, n) == render_first(
            segments,
            replies,
            limit,
            sink,
            n,
        ),
    decreases n,
{
    if n > 0 {
        lemma_later_segments(segments, replies, limit, sink, (n - 1) as nat, m);
    }
}

/// Literals are rendered as they stand: a template without keys renders to
/// its literals whatever the resolver is, if the sink takes them.
pub proof fn law_literals_as_written(
    segments: Seq<Segment>,
    replies: Seq<Reply>,
    limit: Option<nat>,
    sink: Seq<char>,
)
    requires
        key_free(segments),
        fits(sink, literal_text(segments), limit),
    ensures
        render_all(segments, replies, limit, sink) == (
            sink + literal_text(segments),
            None::<Failure>,
        ),
    decreases segments.len(),
{
    if segments.len() > 0 {
        let front = segments.drop_last();
        let text = text_of(segments.last());
        crate::text::lemma_encode_concat(literal_text(front), text);
        crate::text::lemma_encode_concat(sink, literal_text(front));
        law_literals_as_written(front, replies, limit, sink);
        lemma_later_segments(segments, replies, limit, sink, front.len(), front.len());
        assert(sink + literal_text(front) + text == sink + literal_text(segments));
    } else {
        assert(sink + literal_text(segments) == sink);
    }
}

/// Round trip: a template without `{` is rendered unchanged, whatever the
/// resolver is, if the sink takes it.
pub proof fn law_round_trip(
    template: Seq<char>,
    replies: Seq<Reply>,
    limit: Option<nat>,
    sink: Seq<char>,
)
    requires
        !template.contains('{'),
        fits(sink, template, limit),
    ensures
        segments(template) == if template.len() == 0 {
            Seq::<Segment>::empty()
        } else {
            seq![Segment::Literal(template)]
        },
        !unterminated(template),
        render_template(template, replies, limit, sink) == (sink + template, None::<Failure>),
{
    lemma_plain(Seq::empty(), 0, template);
    assert(Seq::<char>::empty() + braces(0) + template == template);
    law_literals_as_written(segments(template), replies, limit, sink);
}

/// Reading the same text twice gives the same segments and the same end.
pub proof fn law_reparse(first: Seq<char>, second: Seq<char>)
    requires
        first == second,
    ensures
        segments(first) == segments(second),
        unterminated(first) == unterminated(second),
        remainder(first) == remainder(second),
{
}

/// What the machine makes of `head`, then `2 * k` opening braces, then
/// `tail`, where neither `head` nor `tail` holds a `{`: literals only, which
/// read `head`, `k` braces, `tail`, and no placeholder is left open.
proof fn lemma_plain(head: Seq<char>, k: nat, tail: Seq<char>)
    requires
        !head.contains('{'),
        !tail.contains('{'),
    ensures
        ({
            let template = head + braces(2 * k) + tail;
            &&& key_free(segments(template))
            &&& literal_text(segments(template)) == head + braces(k) + tail
            &&& !unterminated(template)
            &&& k == 0 ==> segments(template) == if template.len() == 0 {
                Seq::<Segment>::empty()
            } else {
                seq![Segment::Literal(template)]
            }
        }),
    decreases k,
{
    let template = head + braces(2 * k) + tail;
    let c = start(template);
    reveal_with_fuel(literal_text, 3);
    reveal_with_fuel(end_of, 3);
    if k == 0 {
        assert(template == head + tail);
        assert(head + braces(0) + tail == template);
        if template.contains('{') {
            let i = choose|i: int| 0 <= i < template.len() && template[i] == '{';
            if i < head.len() {
                assert(head[i] == '{');
            } else {
                assert(tail[i - head.len()] == '{');
            }
        }
        crate::template::lemma_find_none(template, '{');
        if template.len() > 0 {
            let after = Cursor { rest: Seq::empty(), in_key: false };
            assert(step(c) == Some((Segment::Literal(template), after)));
            assert(step(after) is None);
            assert(segments_from(after) == Seq::<Segment>::empty());
            assert(segments(template) == seq![Segment::Literal(template)]);
            assert(segments(template).drop_last() == Seq::<Segment>::empty());
            assert(literal_text(segments(template)) == template);
            assert(end_of(c) == after);
        } else {
            assert(literal_text(segments(template)) == template);
        }
    } else {
        let rest = braces((2 * k - 1) as nat) + tail;
        let later = braces((2 * (k - 1)) as nat) + tail;
        assert(template == head + seq!['{'] + rest);
        crate::template::lemma_find_at(template, '{', head, rest);
        let inside = Cursor { rest, in_key: true };
        assert(step(c) == Some((Segment::Literal(head), inside)));
        assert(rest[0] == '{');
        assert(rest.skip(1) == later);
        let outside = Cursor { rest: later, in_key: false };
        assert(step(inside) == Some((Segment::Literal(seq!['{']), outside)));
        lemma_plain(Seq::empty(), (k - 1) as nat, tail);
        assert(Seq::<char>::empty() + braces((2 * (k - 1)) as nat) + tail == later);
        assert(outside == start(later));
        let opening = seq![Segment::Literal(head), Segment::Literal(seq!['{'])];
        crate::template::lemma_step_consumes(c);
        crate::template::lemma_step_consumes(inside);
        assert(segments_from(inside) == seq![Segment::Literal(seq!['{'])] + segments(later));
        assert(segments(template) == opening + segments(later));
        lemma_literal_text_concat(opening, segments(later));
        assert(opening.drop_last() == seq![Segment::Literal(head)]);
        assert(seq![Segment::Literal(head)].drop_last() == Seq::<Segment>::empty());
        assert(literal_text(seq![Segment::Literal(head)]) == head);
        assert(literal_text(opening) == head + seq!['{']);
        assert(head + seq!['{'] + (Seq::<char>::empty() + braces((k - 1) as nat) + tail) == head
            + braces(k) + tail);
        assert(end_of(c) == end_of(outside));
    }
}

/// Escape law: `2 * k` opening braces in a row are rendered as `k`. Round
/// them, `head` and `tail` hold no `{` and are rendered as they stand.
pub proof fn law_escape(
    head: Seq<char>,
    k: nat,
    tail: Seq<char>,
    replies: Seq<Reply>,
    limit: Option<nat>,
    sink: Seq<char>,
)
    requires
        !head.contains('{'),
        !tail.contains('{'),
        fits(sink, head + braces(k) + tail, limit),
    ensures
        render_template(head + braces(2 * k) + tail, replies, limit, sink) == (
            sink + (head + braces(k) + tail),
            None::<Failure>,
        ),
{
    lemma_plain(head, k, tail);
    law_literals_as_written(segments(head + braces(2 * k) + tail), replies, limit, sink);
}

/// The text that a segment is written as in a template: a literal as it
/// stands, but a lone `{` doubled; a key between braces.
pub open spec fn source_of(segment: Segment) -> Seq<char> {
    match segment {
        Segment::Literal(text) => if text == seq!['{'] {
            seq!['{', '{']
        } else {
            text
        },
        Segment::Key(name) => seq!['{'] + name + seq!['}'],
    }
}

/// The text that `segments` are written as, one behind the other.
pub open spec fn source(segments: Seq<Segment>) -> Seq<char>
    decreases segments.len(),
{
    if segments.len() == 0 {
        Seq::empty()
    } else {
        source_of(segments[0]) + source(segments.drop_first())
    }
}

/// The `{` behind which a cursor stands, if it stands behind one.
pub open spec fn lead(in_key: bool) -> Seq<char> {
    if in_key {
        seq!['{']
    } else {
        Seq::empty()
    }
}

/// From every cursor on, the segments, written out, and what is left where
/// the machine stops are the text that was left to read; each with the `{`
/// in front if the cursor stands behind one.
proof fn lemma_lossless_from(c: Cursor)
    ensures
        lead(c.in_key) + c.rest == source(segments_from(c)) + (lead(end_of(c).in_key) + end_of(
            c,
        ).rest),
    decreases c.rest.len(),
{
    let brace = seq!['{'];
    crate::template::lemma_find(c.rest, '{');
    crate::template::lemma_find(c.rest, '}');
    match step(c) {
        None => {
            assert(segments_from(c) == Seq::<Segment>::empty());
            assert(lead(c.in_key) + c.rest == Seq::<char>::empty() + (lead(c.in_key) + c.rest));
        },
        Some((segment, next)) => {
            crate::template::lemma_step_consumes(c);
            lemma_lossless_from(next);
            let later = segments_from(next);
            let end = lead(end_of(next).in_key) + end_of(next).rest;
            assert(segments_from(c) == seq![segment] + later);
            assert((seq![segment] + later).drop_first() == later);
            assert(source(segments_from(c)) == source_of(segment) + source(later));
            assert(lead(c.in_key) + c.rest == source_of(segment) + (lead(next.in_key) + next.rest))
                by {
                if !c.in_key {
                    let i = find(c.rest, '{');
                    if i == c.rest.len() {
                        if c.rest == brace {
                            assert(c.rest[0] == '{');
                        }
                        assert(lead(false) + c.rest == c.rest + (lead(false) + next.rest));
                    } else {
                        let text = c.rest.take(i);
                        if text == brace {
                            assert(text[0] == '{');
                        }
                        if i + 1 < c.rest.len() {
                            assert(lead(false) + c.rest == text + (brace + c.rest.skip(i + 1)));
                        } else {
                            assert(lead(false) + c.rest == text + (lead(false) + c.rest.skip(i)));
                        }
                    }
                } else if c.rest[0] == '{' {
                    assert(brace + c.rest == seq!['{', '{'] + (lead(false) + c.rest.skip(1)));
                } else {
                    let i = find(c.rest, '}');
                    let name = c.rest.take(i);
                    assert(brace + c.rest == brace + name + seq!['}'] + (lead(false) + c.rest.skip(
                        i + 1,
                    )));
                }
            }
            assert(source_of(segment) + (source(later) + end) == source_of(segment) + source(later)
                + end);
        },
    }
}

/// Lossless parse: the segments of a template, written out again, and the
/// remainder are the template; with a `{` between them where the machine
/// stops inside a placeholder.
pub proof fn law_lossless(template: Seq<char>)
    ensures
        template == source(segments(template)) + (lead(stops_in_key(template)) + remainder(
            template,
        )),
{
    lemma_lossless_from(start(template));
    assert(Seq::<char>::empty() + template == template);
}

/// Where the machine stops: what is left holds no `}` and ends the text
/// that was to be read. Inside a placeholder something is left, if the
/// machine did not start behind a `{` with nothing to read; outside, what
/// is left is nothing or the one `{` that ends the text.
proof fn lemma_end_from(c: Cursor)
    ensures
        ({
            let end = end_of(c);
            &&& !end.rest.contains('}')
            &&& end.rest.len() <= c.rest.len()
            &&& c.rest.skip(c.rest.len() - end.rest.len()) == end.rest
            &&& end.in_key ==> end.rest.len() > 0 || (c.in_key && c.rest.len() == 0)
            &&& !end.in_key ==> end.rest.len() == 0 || end.rest == seq!['{']
        }),
    decreases c.rest.len(),
{
    crate::template::lemma_find(c.rest, '{');
    crate::template::lemma_find(c.rest, '}');
    match step(c) {
        None => {
            if c.rest.len() > 0 && !c.in_key {
                assert(c.rest == seq!['{']);
            }
            if c.rest.contains('}') {
                let k = choose|k: int| 0 <= k < c.rest.len() && c.rest[k] == '}';
                assert(c.rest[k] == '}');
            }
            assert(c.rest.skip(0) == c.rest);
        },
        Some((_, next)) => {
            crate::template::lemma_step_consumes(c);
            lemma_end_from(next);
            let end = end_of(next);
            let cut = c.rest.len() - next.rest.len();
            assert(next.rest == c.rest.skip(cut));
            assert(c.rest.skip(cut).skip(next.rest.len() - end.rest.len()) == c.rest.skip(
                c.rest.len() - end.rest.len(),
            ));
        },
    }
}

/// The remainder pinpoints the failure: it is the end of the template and
/// holds no `}`. Where the machine stops inside a placeholder, the
/// remainder is not empty and stands right behind the `{` of the
/// placeholder. Where it stops outside one, the remainder is empty or is
/// the `{` that ends the template.
pub proof fn law_remainder(template: Seq<char>)
    ensures
        remainder(template).len() <= template.len(),
        template.skip(template.len() - remainder(template).len()) == remainder(template),
        !remainder(template).contains('}'),
        stops_in_key(template) ==> unterminated(template) && template[template.len() - remainder(
            template,
        ).len() - 1] == '{',
        !stops_in_key(template) && unterminated(template) ==> remainder(template) == seq!['{'],
{
    lemma_end_from(start(template));
    law_lossless(template);
    if stops_in_key(template) {
        let front = source(segments(template));
        let rest = remainder(template);
        assert(template == front + (seq!['{'] + rest));
        assert(template[front.len() as int] == '{');
    }
}

/// A sink without a limit refuses nothing: with a resolver that reports a
/// failed write only where the sink can refuse one, no render into such a
/// sink ends in `Fmt`.
pub proof fn law_unlimited<F: FormatKey>(
    resolver: &F,
    segments: Seq<Segment>,
    replies: Seq<Reply>,
    sink: Seq<char>,
    n: nat,
)
    requires
        n <= segments.len(),
        answers(resolver, segments, replies, None, sink),
        forall|key: Seq<char>, held: Seq<char>, reply: Reply| #[trigger]
            resolver.may_reply(key, held, None, reply) ==> !(reply.answer is Fmt),
    ensures
        render_first(segments, replies, None, sink, n).1 != Some(Failure::Fmt),
    decreases n,
{
    if n > 0 {
        law_unlimited(resolver, segments, replies, sink, (n - 1) as nat);
        assert(asked(resolver, segments, replies, None, sink, n - 1));
    }
}

/// The first `n` segments are rendered the same wherever two runs agree in
/// their first `n` segments and replies.
pub proof fn lemma_same_start(
    segments: Seq<Segment>,
    replies: Seq<Reply>,
    others: Seq<Segment>,
    other_replies: Seq<Reply>,
    limit: Option<nat>,
    sink: Seq<char>,
    n: nat,
)
    requires
        forall|i: int| 0 <= i < n ==> segments[i] == others[i] && replies[i] == other_replies[i],
    ensures
        render_first(segments, replies, limit, sink, n) == render_first(
            others,
            other_replies,
            limit,
            sink,
            n,
        ),
    decreases n,
{
    if n > 0 {
        lemma_same_start(segments, replies, others, other_replies, limit, sink, (n - 1) as nat);
    }
}

/// Rendering one run of segments behind another is rendering the first,
/// and, where that went well, the second into what the first left.
pub proof fn law_one_behind_another(
    front: Seq<Segment>,
    front_replies: Seq<Reply>,
    back: Seq<Segment>,
    back_replies: Seq<Reply>,
    limit: Option<nat>,
    sink: Seq<char>,
    n: nat,
)
    requires
        front_replies.len() == front.len(),
        back_replies.len() == back.len(),
        n <= back.len(),
    ensures
        ({
            let (held, failure) = render_all(front, front_replies, limit, sink);
            render_first(front + back, front_replies + back_replies, limit, sink, front.len() + n)
                == if failure is Some {
                (held, failure)
            } else {
                render_first(back, back_replies, limit, held, n)
            }
        }),
    decreases n,
{
    let both = front + back;
    let both_replies = front_replies + back_replies;
    if n == 0 {
        lemma_same_start(both, both_replies, front, front_replies, limit, sink, front.len());
    } else {
        law_one_behind_another(
            front,
            front_replies,
            back,
            back_replies,
            limit,
            sink,
            (n - 1) as nat,
        );
        assert(both[front.len() + n - 1] == back[n - 1]);
        assert(both_replies[front.len() + n - 1] == back_replies[n - 1]);
    }
}

/// No rollback: the sink only grows. What the first `n` segments left in it
/// stays at its front whatever the later segments do, a failure included.
pub proof fn law_no_rollback(
    segments: Seq<Segment>,
    replies: Seq<Reply>,
    limit: Option<nat>,
    sink: Seq<char>,
    n: nat,
    m: nat,
)
    requires
        n <= m,
    ensures
        sink.is_prefix_of(render_first(segments, replies, limit, sink, n).0),
        render_first(segments, replies, limit, sink, n).0.is_prefix_of(
            render_first(segments, replies, limit, sink, m).0,
        ),
    decreases m,
{
    if m > 0 {
        if n < m {
            law_no_rollback(segments, replies, limit, sink, n, (m - 1) as nat);
        } else {
            law_no_rollback(segments, replies, limit, sink, (n - 1) as nat, (m - 1) as nat);
        }
    }
}

} // verus!
