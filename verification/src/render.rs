//! Rendering: literals go to the sink as they stand, keys go to the resolver.
//!
//! What a render does is stated as a function of the resolver's replies. The
//! library does not know them in advance; a render's contract says that
//! there are replies, each of them one that the resolver may give where it
//! is asked, under which the function gives what the render did.

use crate::error::{Failure, FormatError};
use crate::parser::{ParseSegment, Parser};
use crate::resolver::{failure_of, reply_of, settle, stopped_by, Answer, FormatKey, Reply};
use crate::sink::{fits, Sink};
use crate::template::{end_of, remainder, segments, segments_from, start, unterminated, Segment};
use vstd::prelude::*;

verus! {

/// Rendering one segment into a sink that holds `sink`: the text that the
/// sink holds then, and the failure if rendering stops here. `reply` counts
/// for a key only.
pub open spec fn render_step(segment: Segment, reply: Reply, limit: Option<nat>, sink: Seq<char>) -> (
    Seq<char>,
    Option<Failure>,
) {
    match segment {
        Segment::Literal(text) => if fits(sink, text, limit) {
            (sink + text, None)
        } else {
            (sink, Some(Failure::Fmt))
        },
        Segment::Key(name) => (sink + reply.wrote, stopped_by(name, reply.answer)),
    }
}

/// Rendering the first `n` of `segments`, where `replies[i]` is what the
/// resolver does for `segments[i]`. Rendering stops at the first failure:
/// what was written up to there stays, and nothing follows.
pub open spec fn render_first(
    segments: Seq<Segment>,
    replies: Seq<Reply>,
    limit: Option<nat>,
    sink: Seq<char>,
    n: nat,
) -> (Seq<char>, Option<Failure>)
    decreases n,
{
    if n == 0 {
        (sink, None)
    } else {
        let (held, failure) = render_first(segments, replies, limit, sink, (n - 1) as nat);
        if failure is Some {
            (held, failure)
        } else {
            render_step(segments[n - 1], replies[n - 1], limit, held)
        }
    }
}

/// Rendering all of `segments`.
pub open spec fn render_all(
    segments: Seq<Segment>,
    replies: Seq<Reply>,
    limit: Option<nat>,
    sink: Seq<char>,
) -> (Seq<char>, Option<Failure>) {
    render_first(segments, replies, limit, sink, segments.len())
}

/// Rendering a template as it is read: its segments first, and where they
/// all went well, a `Parse` failure if it leaves a placeholder open.
pub open spec fn render_template(
    template: Seq<char>,
    replies: Seq<Reply>,
    limit: Option<nat>,
    sink: Seq<char>,
) -> (Seq<char>, Option<Failure>) {
    let (held, failure) = render_all(segments(template), replies, limit, sink);
    if failure is None && unterminated(template) {
        (held, Some(Failure::Parse(remainder(template))))
    } else {
        (held, failure)
    }
}

/// Whether `reply` is one that `resolver` may give for `segment`, with a
/// sink that holds `held`. Nothing is asked for a literal.
pub open spec fn answer_to<F: FormatKey>(
    resolver: &F,
    segment: Segment,
    held: Seq<char>,
    limit: Option<nat>,
    reply: Reply,
) -> bool {
    segment matches Segment::Key(name) ==> resolver.may_reply(name, held, limit, reply)
}

/// Whether `replies[i]`, if rendering comes to `segments[i]`, is a reply
/// that `resolver` may give there, with the sink as the segments before
/// have left it.
pub open spec fn asked<F: FormatKey>(
    resolver: &F,
    segments: Seq<Segment>,
    replies: Seq<Reply>,
    limit: Option<nat>,
    sink: Seq<char>,
    i: int,
) -> bool {
    let (held, failure) = render_first(segments, replies, limit, sink, i as nat);
    failure is None ==> answer_to(resolver, segments[i], held, limit, replies[i])
}

/// Whether `replies` are replies of `resolver` in a render of `segments`.
pub open spec fn answers<F: FormatKey>(
    resolver: &F,
    segments: Seq<Segment>,
    replies: Seq<Reply>,
    limit: Option<nat>,
    sink: Seq<char>,
) -> bool {
    forall|i: int|
        0 <= i < segments.len() ==> #[trigger] asked(resolver, segments, replies, limit, sink, i)
}

/// Whether `r` is what a render into a new sink hands back when it went as
/// `run` says: the text where it went well, the failure where it did not.
pub open spec fn collected(run: (Seq<char>, Option<Failure>), r: Result<String, FormatError>) -> bool {
    match r {
        Ok(text) => run == (text@, None::<Failure>),
        Err(e) => run.1 == Some(e@),
    }
}

/// The first `n` segments are rendered the same whatever reply follows the
/// first `n`.
pub proof fn lemma_later_reply(
    segments: Seq<Segment>,
    replies: Seq<Reply>,
    more: Reply,
    limit: Option<nat>,
    sink: Seq<char>,
    n: nat,
)
    requires
        n <= replies.len(),
    ensures
        render_first(segments, replies.push(more), limit, sink, n) == render_first(
            segments,
            replies,
            limit,
            sink,
            n,
        ),
    decreases n,
{
    if n > 0 {
        lemma_later_reply(segments, replies, more, limit, sink, (n - 1) as nat);
    }
}

/// Once rendering has stopped, further segments change nothing.
pub proof fn lemma_stopped(
    segments: Seq<Segment>,
    replies: Seq<Reply>,
    limit: Option<nat>,
    sink: Seq<char>,
    n: nat,
    m: nat,
)
    requires
        n <= m,
        render_first(segments, replies, limit, sink, n).1 is Some,
    ensures
        render_first(segments, replies, limit, sink, m) == render_first(
            segments,
            replies,
            limit,
            sink,
            n,
        ),
    decreases m,
{
    if n < m {
        lemma_stopped(segments, replies, limit, sink, n, (m - 1) as nat);
    }
}

/// One more segment rendered: where `replies` account for the first `n`
/// segments and `reply` for the next, `replies.push(reply)` account for the
/// first `n + 1`; and if the render stops there, for all of them.
pub proof fn lemma_one_more<F: FormatKey>(
    resolver: &F,
    segments: Seq<Segment>,
    replies: Seq<Reply>,
    reply: Reply,
    limit: Option<nat>,
    sink: Seq<char>,
)
    requires
        replies.len() < segments.len(),
        forall|i: int|
            0 <= i < replies.len() ==> #[trigger] asked(
                resolver,
                segments,
                replies,
                limit,
                sink,
                i,
            ),
        render_first(segments, replies, limit, sink, replies.len()).1 is None,
        answer_to(
            resolver,
            segments[replies.len() as int],
            render_first(segments, replies, limit, sink, replies.len()).0,
            limit,
            reply,
        ),
    ensures
        ({
            let n = replies.len();
            let longer = replies.push(reply);
            let held = render_first(segments, replies, limit, sink, n).0;
            let then = render_step(segments[n as int], reply, limit, held);
            &&& render_first(segments, longer, limit, sink, n + 1) == then
            &&& forall|i: int|
                0 <= i < n + 1 ==> #[trigger] asked(resolver, segments, longer, limit, sink, i)
            &&& then.1 is Some ==> render_all(segments, longer, limit, sink) == then && answers(
                resolver,
                segments,
                longer,
                limit,
                sink,
            )
        }),
{
    let n = replies.len();
    let longer = replies.push(reply);
    lemma_later_reply(segments, replies, reply, limit, sink, n);
    assert forall|i: int| 0 <= i < n + 1 implies #[trigger] asked(
        resolver,
        segments,
        longer,
        limit,
        sink,
        i,
    ) by {
        if i < n {
            assert(asked(resolver, segments, replies, limit, sink, i));
            lemma_later_reply(segments, replies, reply, limit, sink, i as nat);
        }
    }
    if render_first(segments, longer, limit, sink, n + 1).1 is Some {
        lemma_stopped(segments, longer, limit, sink, n + 1, segments.len());
        assert forall|i: int| 0 <= i < segments.len() implies #[trigger] asked(
            resolver,
            segments,
            longer,
            limit,
            sink,
            i,
        ) by {
            if i > n {
                lemma_stopped(segments, longer, limit, sink, n + 1, i as nat);
            }
        }
    }
}

/// Renders one segment into `f`: a literal as it stands, a key by asking
/// `resolver`.
pub fn render_segment<'a, F: FormatKey>(segment: &ParseSegment<'a>, resolver: &F, f: &mut Sink) -> (r:
    Result<(), FormatError<'a>>)
    ensures
        final(f).limit() == old(f).limit(),
        exists|reply: Reply|
            {
                &&& #[trigger] answer_to(resolver, segment@, old(f)@, old(f).limit(), reply)
                &&& render_step(segment@, reply, old(f).limit(), old(f)@) == (
                    final(f)@,
                    failure_of(r),
                )
            },
{
    let ghost held = f@;
    let ghost limit = f.limit();
    match segment {
        ParseSegment::Literal(text) => {
            let ghost reply = Reply { wrote: Seq::empty(), answer: Answer::Written };
            let r = match f.write_str(text) {
                Ok(()) => Ok(()),
                Err(e) => Err(FormatError::Fmt(e)),
            };
            assert(answer_to(resolver, segment@, held, limit, reply));
            r
        },
        ParseSegment::Key(key) => {
            let answer = resolver.fmt(key, f);
            let ghost reply = reply_of(held, f@, answer);
            let r = settle(key, answer);
            assert(f@ == held + reply.wrote);
            assert(answer_to(resolver, segment@, held, limit, reply));
            r
        },
    }
}

/// A template with the resolver that its keys are looked up in: one render,
/// ready to be made.
pub struct Formatter<'a, F> {
    s: &'a str,
    fmt: &'a F,
}

impl<'a, F> Formatter<'a, F> {
    /// The template that is rendered.
    pub closed spec fn template(&self) -> Seq<char> {
        self.s@
    }

    /// The resolver that is asked.
    pub closed spec fn resolver(&self) -> &F {
        self.fmt
    }

    /// A render of `s` against `fmt`.
    pub fn new(s: &'a str, fmt: &'a F) -> (r: Self)
        ensures
            r.template() == s@,
            r.resolver() == fmt,
    {
        Formatter { s, fmt }
    }
}

impl<'a, F: FormatKey> Formatter<'a, F> {
    /// Renders the template into `f`, reading it as it goes. Rendering stops
    /// at the first failure, and what is written by then stays in `f`. A
    /// placeholder that the template leaves open shows only when all
    /// segments before it are rendered.
    pub fn fmt(&self, f: &mut Sink) -> (r: Result<(), FormatError<'a>>)
        ensures
            final(f).limit() == old(f).limit(),
            exists|replies: Seq<Reply>|
                {
                    &&& #[trigger] answers(
                        self.resolver(),
                        segments(self.template()),
                        replies,
                        old(f).limit(),
                        old(f)@,
                    )
                    &&& render_template(self.template(), replies, old(f).limit(), old(f)@) == (
                        final(f)@,
                        failure_of(r),
                    )
                },
            r matches Err(FormatError::Parse(rest)) ==> rest@.len() > 0 && rest@ == remainder(
                self.template(),
            ),
    {
        let ghost all = segments(self.s@);
        let ghost limit = f.limit();
        let ghost sink = f@;
        let ghost mut replies: Seq<Reply> = Seq::empty();
        let mut parser = Parser::new(self.s);
        loop
            invariant
                f.limit() == limit,
                limit == old(f).limit(),
                sink == old(f)@,
                all == segments(self.s@),
                replies.len() <= all.len(),
                segments_from(parser@) == all.skip(replies.len() as int),
                end_of(parser@) == end_of(start(self.s@)),
                render_first(all, replies, limit, sink, replies.len()) == (f@, None::<Failure>),
                forall|i: int|
                    0 <= i < replies.len() ==> #[trigger] asked(
                        self.fmt,
                        all,
                        replies,
                        limit,
                        sink,
                        i,
                    ),
            decreases parser.s@.len(),
        {
            let ghost n = replies.len();
            let ghost before = parser@;
            let ghost held = f@;
            proof {
                crate::template::lemma_step_consumes(before);
            }
            match parser.next() {
                None => {
                    let r = if parser.s.is_empty() {
                        Ok(())
                    } else {
                        Err(FormatError::Parse(parser.s))
                    };
                    proof {
                        assert(all.skip(n as int).len() == 0);
                        assert(n == all.len());
                        assert(end_of(parser@) == parser@);
                        assert(render_template(self.template(), replies, limit, sink) == (
                            f@,
                            failure_of(r),
                        ));
                        assert(answers(self.resolver(), all, replies, limit, sink));
                    }
                    return r;
                },
                Some(segment) => {
                    proof {
                        let ahead = segments_from(before);
                        assert(ahead == seq![segment@] + segments_from(parser@));
                        assert(n < all.len());
                        assert(ahead[0] == segment@);
                        assert(all[n as int] == segment@);
                        assert(segments_from(parser@) == ahead.skip(1));
                        assert(all.skip(n as int).skip(1) == all.skip(n as int + 1));
                    }
                    let outcome = render_segment(&segment, self.fmt, f);
                    proof {
                        let reply = choose|reply: Reply|
                            {
                                &&& #[trigger] answer_to(self.fmt, segment@, held, limit, reply)
                                &&& render_step(segment@, reply, limit, held) == (
                                    f@,
                                    failure_of(outcome),
                                )
                            };
                        lemma_one_more(self.fmt, all, replies, reply, limit, sink);
                        replies = replies.push(reply);
                    }
                    match outcome {
                        Ok(()) => {},
                        Err(e) => {
                            assert(render_template(self.template(), replies, limit, sink) == (
                                f@,
                                Some(e@),
                            ));
                            assert(answers(self.resolver(), all, replies, limit, sink));
                            return Err(e);
                        },
                    }
                },
            }
        }
    }
}

} // verus!
