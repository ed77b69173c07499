//! Precompiled templates: parse once, render many times.

use crate::error::{Failure, FormatError};
use crate::parser::{ParseSegment, Parser};
use crate::render::{
    answer_to, answers, asked, collected, lemma_one_more, render_all, render_first, render_segment,
    render_step,
};
use crate::resolver::{failure_of, FormatKey, Reply};
use crate::sink::Sink;
use crate::template::{
    end_of, key_free, key_names, remainder, segments, segments_from, start, unterminated, Segment,
};
use core::marker::PhantomData;
use tinyvec::TinyVec;
use vstd::prelude::*;

verus! {

/// The segments of a precompiled template, in a `tinyvec::TinyVec`: up to
/// eight of them lie inline, more go to the heap.
#[verifier::external_body]
#[derive(Debug)]
pub struct SegmentStore<'a> {
    inner: TinyVec<[ParseSegment<'a>; 8]>,
}

/// The segments that a store holds, first to last.
pub uninterp spec fn held(store: SegmentStore<'_>) -> Seq<Segment>;

/// `TinyVec::new`: a vector without elements.
#[verifier::external_body]
fn store_new<'a>() -> (store: SegmentStore<'a>)
    ensures
        held(store) == Seq::<Segment>::empty(),
{
    SegmentStore { inner: TinyVec::new() }
}

/// `TinyVec::push`: the element goes to the end, and the others stay.
#[verifier::external_body]
fn store_push<'a>(store: &mut SegmentStore<'a>, segment: ParseSegment<'a>)
    ensures
        held(*final(store)) == held(*old(store)).push(segment@),
{
    store.inner.push(segment)
}

/// `TinyVec::as_slice`: the elements as a slice, in their order.
#[verifier::external_body]
fn store_as_slice<'a, 'b>(store: &'b SegmentStore<'a>) -> (slice: &'b [ParseSegment<'a>])
    ensures
        views(slice@) == held(*store),
{
    store.inner.as_slice()
}

/// The segments of a slice as plain values.
pub open spec fn views(slice: Seq<ParseSegment>) -> Seq<Segment> {
    Seq::new(slice.len(), |i: int| slice[i]@)
}

/// The texts of a sequence of slices.
pub open spec fn texts(slices: Seq<&str>) -> Seq<Seq<char>> {
    Seq::new(slices.len(), |i: int| slices[i]@)
}

/// The name of the first key among the first `n` of `segments` that the
/// resolver type refuses, where `verdicts[i]` is what it says of
/// `segments[i]`.
pub open spec fn first_refused(segments: Seq<Segment>, verdicts: Seq<bool>, n: nat) -> Option<
    Seq<char>,
>
    decreases n,
{
    if n == 0 {
        None
    } else {
        match first_refused(segments, verdicts, (n - 1) as nat) {
            Some(name) => Some(name),
            None => match segments[n - 1] {
                Segment::Key(name) => if verdicts[n - 1] {
                    None
                } else {
                    Some(name)
                },
                Segment::Literal(_) => None,
            },
        }
    }
}

/// Whether `verdict` is something that the resolver type `F` may say of the
/// key of `segment`. Nothing is asked about a literal.
pub open spec fn verdict_on<F: FormatKey>(segment: ParseSegment, verdict: bool) -> bool {
    segment matches ParseSegment::Key(key) ==> call_ensures(
        F::is_acceptable_key,
        (key,),
        verdict,
    )
}

/// Whether `verdicts[i]`, for each key that is come to before one is
/// refused, is what `F::is_acceptable_key` returned for that key.
pub open spec fn judged<F: FormatKey>(slice: Seq<ParseSegment>, verdicts: Seq<bool>) -> bool {
    forall|i: int|
        0 <= i < slice.len() && first_refused(views(slice), verdicts, i as nat) is None
            ==> #[trigger] verdict_on::<F>(slice[i], verdicts[i])
}

/// Whether `verdict` is something that the resolver type `F` may say of a
/// key with the name that `segment` holds. Nothing is asked about a literal.
pub open spec fn said<F: FormatKey>(segment: Segment, verdict: bool) -> bool {
    segment matches Segment::Key(name) ==> exists|key: &str|
        key@ == name && #[trigger] call_ensures(F::is_acceptable_key, (key,), verdict)
}

/// Whether `verdicts[i]`, for each key that is come to before one is
/// refused, is what `F::is_acceptable_key` returned for a key of that name.
pub open spec fn judged_by<F: FormatKey>(segments: Seq<Segment>, verdicts: Seq<bool>) -> bool {
    forall|i: int|
        0 <= i < segments.len() && first_refused(segments, verdicts, i as nat) is None
            ==> #[trigger] said::<F>(segments[i], verdicts[i])
}

/// Whether the resolver type `F` accepts every key: `is_acceptable_key`
/// never returns `false`.
pub open spec fn accepts_all<F: FormatKey>() -> bool {
    forall|key: &str, verdict: bool| #[trigger]
        call_ensures(F::is_acceptable_key, (key,), verdict) ==> verdict
}

/// What is judged of the segments of a slice is judged of their plain
/// values.
pub proof fn lemma_judged_views<F: FormatKey>(slice: Seq<ParseSegment>, verdicts: Seq<bool>)
    requires
        judged::<F>(slice, verdicts),
    ensures
        judged_by::<F>(views(slice), verdicts),
{
    let segments = views(slice);
    assert forall|i: int|
        0 <= i < segments.len() && first_refused(segments, verdicts, i as nat) is None
        implies #[trigger] said::<F>(segments[i], verdicts[i]) by {
        assert(verdict_on::<F>(slice[i], verdicts[i]));
        if let ParseSegment::Key(key) = slice[i] {
            assert(key@ == segments[i]->Key_0);
            assert(call_ensures(F::is_acceptable_key, (key,), verdicts[i]));
        }
    }
}

/// A resolver type that accepts every key refuses none of a template.
pub proof fn lemma_all_accepted<F: FormatKey>(segments: Seq<Segment>, verdicts: Seq<bool>, n: nat)
    requires
        accepts_all::<F>(),
        judged_by::<F>(segments, verdicts),
        n <= segments.len(),
    ensures
        first_refused(segments, verdicts, n) is None,
    decreases n,
{
    if n > 0 {
        lemma_all_accepted::<F>(segments, verdicts, (n - 1) as nat);
        assert(said::<F>(segments[n - 1], verdicts[n - 1]));
    }
}

/// Whether the resolver type `F` decides by the name alone: asked twice
/// about keys of one name, `is_acceptable_key` says the same.
pub open spec fn decides_by_name<F: FormatKey>() -> bool {
    forall|one: &str, other: &str, first: bool, second: bool|
        #![trigger
            call_ensures(F::is_acceptable_key, (one,), first),
            call_ensures(F::is_acceptable_key, (other,), second),
        ]
        one@ == other@ && call_ensures(F::is_acceptable_key, (one,), first) && call_ensures(
            F::is_acceptable_key,
            (other,),
            second,
        ) ==> first == second
}

/// The first refused key is the first in the order of the template: where
/// `segments[i]` is a key that is refused and every key before it is
/// accepted, it is the one that is named.
pub proof fn law_first_refused(segments: Seq<Segment>, verdicts: Seq<bool>, i: int, n: nat)
    requires
        0 <= i < n,
        segments[i] is Key,
        !verdicts[i],
        forall|j: int| 0 <= j < i && segments[j] is Key ==> verdicts[j],
    ensures
        first_refused(segments, verdicts, n) == Some(segments[i]->Key_0),
    decreases n,
{
    if n - 1 > i {
        law_first_refused(segments, verdicts, i, (n - 1) as nat);
    } else {
        lemma_accepted_so_far(segments, verdicts, i as nat);
    }
}

/// Where every key among the first `n` segments is accepted, none of them
/// is refused.
pub proof fn lemma_accepted_so_far(segments: Seq<Segment>, verdicts: Seq<bool>, n: nat)
    requires
        forall|j: int| 0 <= j < n && segments[j] is Key ==> verdicts[j],
    ensures
        first_refused(segments, verdicts, n) is None,
    decreases n,
{
    if n > 0 {
        lemma_accepted_so_far(segments, verdicts, (n - 1) as nat);
    }
}

/// With a resolver type that decides by the name alone, the verdicts of two
/// passes over the same segments refuse the same key first.
pub proof fn lemma_same_refusal<F: FormatKey>(
    segments: Seq<Segment>,
    first: Seq<bool>,
    second: Seq<bool>,
    n: nat,
)
    requires
        decides_by_name::<F>(),
        judged_by::<F>(segments, first),
        judged_by::<F>(segments, second),
        n <= segments.len(),
    ensures
        first_refused(segments, first, n) == first_refused(segments, second, n),
    decreases n,
{
    if n > 0 {
        lemma_same_refusal::<F>(segments, first, second, (n - 1) as nat);
        if first_refused(segments, first, (n - 1) as nat) is None {
            assert(said::<F>(segments[n - 1], first[n - 1]));
            assert(said::<F>(segments[n - 1], second[n - 1]));
            if let Segment::Key(name) = segments[n - 1] {
                let one = choose|key: &str|
                    key@ == name && #[trigger] call_ensures(
                        F::is_acceptable_key,
                        (key,),
                        first[n - 1],
                    );
                let other = choose|key: &str|
                    key@ == name && #[trigger] call_ensures(
                        F::is_acceptable_key,
                        (key,),
                        second[n - 1],
                    );
                assert(call_ensures(F::is_acceptable_key, (one,), first[n - 1]));
                assert(call_ensures(F::is_acceptable_key, (other,), second[n - 1]));
            }
        }
    }
}

/// Among the first `n` segments the same key is refused first whatever
/// verdict follows the first `n`.
pub proof fn lemma_later_verdict(segments: Seq<Segment>, verdicts: Seq<bool>, more: bool, n: nat)
    requires
        n <= verdicts.len(),
    ensures
        first_refused(segments, verdicts.push(more), n) == first_refused(segments, verdicts, n),
    decreases n,
{
    if n > 0 {
        lemma_later_verdict(segments, verdicts, more, (n - 1) as nat);
    }
}

/// Once a key is refused, it stays the first.
pub proof fn lemma_refused(segments: Seq<Segment>, verdicts: Seq<bool>, n: nat, m: nat)
    requires
        n <= m,
        first_refused(segments, verdicts, n) is Some,
    ensures
        first_refused(segments, verdicts, m) == first_refused(segments, verdicts, n),
    decreases m,
{
    if n < m {
        lemma_refused(segments, verdicts, n, (m - 1) as nat);
    }
}

/// Where there is no key, none is refused.
pub proof fn lemma_none_refused(segments: Seq<Segment>, verdicts: Seq<bool>, n: nat)
    requires
        key_free(segments),
        n <= segments.len(),
    ensures
        first_refused(segments, verdicts, n) is None,
    decreases n,
{
    if n > 0 {
        lemma_none_refused(segments, verdicts, (n - 1) as nat);
    }
}

/// Asks the resolver type `F` of each key in turn whether it could know it,
/// and returns the first that it refuses. Behind a refused key nothing more
/// is asked.
pub fn first_refused_key<'a, F: FormatKey>(slice: &[ParseSegment<'a>]) -> (r: Option<&'a str>)
    ensures
        exists|verdicts: Seq<bool>|
            {
                &&& #[trigger] judged::<F>(slice@, verdicts)
                &&& match first_refused(views(slice@), verdicts, slice@.len()) {
                    Some(name) => r matches Some(key) && key@ == name,
                    None => r is None,
                }
            },
{
    let ghost all = views(slice@);
    let ghost mut verdicts: Seq<bool> = Seq::empty();
    let mut i: usize = 0;
    while i < slice.len()
        invariant
            i <= slice@.len(),
            all == views(slice@),
            verdicts.len() == i,
            first_refused(all, verdicts, i as nat) is None,
            forall|j: int| 0 <= j < i ==> #[trigger] verdict_on::<F>(slice@[j], verdicts[j]),
        decreases slice@.len() - i,
    {
        let ghost earlier = verdicts;
        match &slice[i] {
            ParseSegment::Literal(_) => {
                proof {
                    lemma_later_verdict(all, verdicts, true, i as nat);
                    verdicts = verdicts.push(true);
                }
            },
            ParseSegment::Key(key) => {
                let acceptable = F::is_acceptable_key(key);
                proof {
                    lemma_later_verdict(all, verdicts, acceptable, i as nat);
                    verdicts = verdicts.push(acceptable);
                    assert(verdict_on::<F>(slice@[i as int], verdicts[i as int]));
                }
                if !acceptable {
                    proof {
                        lemma_refused(all, verdicts, (i + 1) as nat, slice@.len());
                        assert(first_refused(all, verdicts, slice@.len()) == Some(key@));
                        assert forall|j: int|
                            0 <= j < slice@.len() && first_refused(all, verdicts, j as nat) is None
                            implies #[trigger] verdict_on::<F>(slice@[j], verdicts[j]) by {
                            if j < i {
                                assert(verdict_on::<F>(slice@[j], earlier[j]));
                            } else if j > i {
                                lemma_refused(all, verdicts, (i + 1) as nat, j as nat);
                            }
                        }
                        assert(judged::<F>(slice@, verdicts));
                    }
                    return Some(*key);
                }
            },
        }
        proof {
            assert forall|j: int| 0 <= j < i + 1 implies #[trigger] verdict_on::<F>(
                slice@[j],
                verdicts[j],
            ) by {
                if j < i {
                    assert(verdict_on::<F>(slice@[j], earlier[j]));
                }
            }
        }
        i += 1;
    }
    proof {
        assert(first_refused(all, verdicts, slice@.len()) is None);
        assert(judged::<F>(slice@, verdicts));
    }
    None
}

/// A template that is parsed once, for resolvers of type `F`.
#[derive(Debug)]
pub struct CompiledFormatter<'a, F> {
    segments: SegmentStore<'a>,
    _fmt: PhantomData<&'a F>,
}

/// A precompiled template under its short name.
pub type Format<'a, F> = CompiledFormatter<'a, F>;

impl<'a, F> View for CompiledFormatter<'a, F> {
    type V = Seq<Segment>;

    /// The segments of the template, in its order.
    closed spec fn view(&self) -> Seq<Segment> {
        held(self.segments)
    }
}

/// What precompiling makes of a well-formed template with these `segments`,
/// given the `verdicts` of the resolver type on its keys.
pub open spec fn compiled<'a, F>(
    segments: Seq<Segment>,
    verdicts: Seq<bool>,
    r: Result<CompiledFormatter<'a, F>, FormatError<'a>>,
) -> bool {
    match first_refused(segments, verdicts, segments.len()) {
        Some(name) => r matches Err(FormatError::Key(key)) && key@ == name,
        None => r matches Ok(c) && c@ == segments,
    }
}

/// Whether `r` is what precompiling `template` for resolvers of type `F`
/// may give: `Parse` with the remainder for a template that leaves a
/// placeholder open, and for a well-formed one what `compiled` says of
/// verdicts that `F` gave.
pub open spec fn precompiled<'a, F: FormatKey>(
    template: Seq<char>,
    r: Result<CompiledFormatter<'a, F>, FormatError<'a>>,
) -> bool {
    if unterminated(template) {
        r matches Err(FormatError::Parse(rest)) && rest@ == remainder(template)
    } else {
        exists|verdicts: Seq<bool>|
            {
                &&& #[trigger] judged_by::<F>(segments(template), verdicts)
                &&& compiled(segments(template), verdicts, r)
            }
    }
}

/// Precompiling the same template twice, for a resolver type that decides
/// by the name alone, gives the same twice: the same failure, or the same
/// segments.
pub proof fn law_recompile<'a, F: FormatKey>(
    template: Seq<char>,
    first: Result<CompiledFormatter<'a, F>, FormatError<'a>>,
    second: Result<CompiledFormatter<'a, F>, FormatError<'a>>,
)
    requires
        decides_by_name::<F>(),
        precompiled(template, first),
        precompiled(template, second),
    ensures
        match (first, second) {
            (Ok(one), Ok(other)) => one@ == other@,
            (Err(one), Err(other)) => one@ == other@,
            _ => false,
        },
{
    if !unterminated(template) {
        let all = segments(template);
        let v = choose|verdicts: Seq<bool>|
            {
                &&& #[trigger] judged_by::<F>(all, verdicts)
                &&& compiled(all, verdicts, first)
            };
        let w = choose|verdicts: Seq<bool>|
            {
                &&& #[trigger] judged_by::<F>(all, verdicts)
                &&& compiled(all, verdicts, second)
            };
        lemma_same_refusal::<F>(all, v, w, all.len());
    }
}

impl<'a, F: FormatKey> CompiledFormatter<'a, F> {
    /// Parses `s`. A template that leaves a placeholder open is refused with
    /// `Parse` and the text behind the `{`. Of a well-formed one, `F` is
    /// asked about each key in turn, and the first that it does not accept
    /// is refused with `Key`. Where there is no key, or `F` accepts every
    /// key, the template is taken.
    pub fn new(s: &'a str) -> (r: Result<Self, FormatError<'a>>)
        ensures
            precompiled(s@, r),
            r matches Err(FormatError::Parse(rest)) ==> rest@.len() > 0 && rest@ == remainder(s@),
            !unterminated(s@) && key_free(segments(s@)) ==> r is Ok,
            !unterminated(s@) && accepts_all::<F>() ==> r is Ok,
    {
        let mut parser = Parser::new(s);
        let mut store = store_new();
        loop
            invariant
                segments(s@) == held(store) + segments_from(parser@),
                end_of(parser@) == end_of(start(s@)),
            ensures
                crate::template::step(parser@) is None,
            decreases parser.s@.len(),
        {
            let ghost before = parser@;
            proof {
                crate::template::lemma_step_consumes(before);
            }
            match parser.next() {
                Some(segment) => {
                    assert(held(store) + segments_from(before) == held(store).push(segment@)
                        + segments_from(parser@));
                    store_push(&mut store, segment);
                },
                None => {
                    break ;
                },
            }
        }
        assert(segments(s@) == held(store));
        if !parser.s.is_empty() {
            return Err(FormatError::Parse(parser.s));
        }
        let slice = store_as_slice(&store);
        let refused = first_refused_key::<F>(slice);
        let ghost verdicts = choose|verdicts: Seq<bool>|
            {
                &&& #[trigger] judged::<F>(slice@, verdicts)
                &&& match first_refused(views(slice@), verdicts, slice@.len()) {
                    Some(name) => refused matches Some(key) && key@ == name,
                    None => refused is None,
                }
            };
        let r = match refused {
            Some(key) => Err(FormatError::Key(key)),
            None => Ok(CompiledFormatter { segments: store, _fmt: PhantomData }),
        };
        proof {
            lemma_judged_views::<F>(slice@, verdicts);
            assert(judged_by::<F>(segments(s@), verdicts));
            assert(compiled(segments(s@), verdicts, r));
            if key_free(segments(s@)) {
                lemma_none_refused(segments(s@), verdicts, segments(s@).len());
            }
            if accepts_all::<F>() {
                lemma_all_accepted::<F>(segments(s@), verdicts, segments(s@).len());
            }
        }
        r
    }

    /// The names of the keys of the template, in its order, each as often as
    /// the template holds it.
    pub fn keys(&self) -> (names: Vec<&'a str>)
        ensures
            texts(names@) == key_names(self@),
    {
        let slice = store_as_slice(&self.segments);
        let ghost all = views(slice@);
        let mut names: Vec<&'a str> = Vec::new();
        let mut i: usize = 0;
        while i < slice.len()
            invariant
                i <= slice@.len(),
                all == views(slice@),
                texts(names@) == key_names(all.take(i as int)),
            decreases slice@.len() - i,
        {
            proof {
                assert(all.take(i + 1).drop_last() == all.take(i as int));
            }
            match &slice[i] {
                ParseSegment::Key(name) => {
                    names.push(*name);
                },
                ParseSegment::Literal(_) => {},
            }
            i += 1;
        }
        proof {
            assert(all.take(i as int) == all);
        }
        names
    }

    /// Binds the template to one resolver, for one render.
    pub fn with_args<'b>(&'b self, fmt: &'b F) -> (r: CompiledFmt<'b, F>)
        ensures
            r.segments() == self@,
            r.resolver() == fmt,
    {
        CompiledFmt { segments: store_as_slice(&self.segments), fmt }
    }
}

/// A precompiled template with the resolver that its keys are looked up in:
/// one render, ready to be made.
pub struct CompiledFmt<'a, F> {
    segments: &'a [ParseSegment<'a>],
    fmt: &'a F,
}

impl<'a, F> CompiledFmt<'a, F> {
    /// The segments that are rendered.
    pub closed spec fn segments(&self) -> Seq<Segment> {
        views(self.segments@)
    }

    /// The resolver that is asked.
    pub closed spec fn resolver(&self) -> &F {
        self.fmt
    }
}

impl<'a, F: FormatKey> CompiledFmt<'a, F> {
    /// Renders the segments into `f`. Rendering stops at the first failure,
    /// and what is written by then stays in `f`.
    pub fn fmt(&self, f: &mut Sink) -> (r: Result<(), FormatError<'a>>)
        ensures
            final(f).limit() == old(f).limit(),
            exists|replies: Seq<Reply>|
                {
                    &&& #[trigger] answers(
                        self.resolver(),
                        self.segments(),
                        replies,
                        old(f).limit(),
                        old(f)@,
                    )
                    &&& render_all(self.segments(), replies, old(f).limit(), old(f)@) == (
                        final(f)@,
                        failure_of(r),
                    )
                },
            !(r matches Err(FormatError::Parse(_))),
    {
        let ghost all = views(self.segments@);
        let ghost limit = f.limit();
        let ghost sink = f@;
        let ghost mut replies: Seq<Reply> = Seq::empty();
        let mut i: usize = 0;
        while i < self.segments.len()
            invariant
                i <= self.segments@.len(),
                all == views(self.segments@),
                f.limit() == limit,
                limit == old(f).limit(),
                sink == old(f)@,
                replies.len() == i,
                render_first(all, replies, limit, sink, i as nat) == (f@, None::<Failure>),
                forall|j: int|
                    0 <= j < i ==> #[trigger] asked(self.fmt, all, replies, limit, sink, j),
            decreases self.segments@.len() - i,
        {
            let ghost held = f@;
            let segment = &self.segments[i];
            let outcome = render_segment(segment, self.fmt, f);
            proof {
                let reply = choose|reply: Reply|
                    {
                        &&& #[trigger] answer_to(self.fmt, segment@, held, limit, reply)
                        &&& render_step(segment@, reply, limit, held) == (f@, failure_of(outcome))
                    };
                lemma_one_more(self.fmt, all, replies, reply, limit, sink);
                replies = replies.push(reply);
            }
            match outcome {
                Ok(()) => {},
                Err(e) => {
                    assert(answers(self.resolver(), self.segments(), replies, limit, sink));
                    return Err(e);
                },
            }
            i += 1;
        }
        proof {
            assert(render_all(self.segments(), replies, limit, sink) == (f@, None::<Failure>));
            assert(answers(self.resolver(), self.segments(), replies, limit, sink));
        }
        Ok(())
    }

    /// Renders the segments into a new text.
    pub fn render(&self) -> (r: Result<String, FormatError<'a>>)
        ensures
            exists|replies: Seq<Reply>|
                {
                    &&& #[trigger] answers(
                        self.resolver(),
                        self.segments(),
                        replies,
                        None,
                        Seq::empty(),
                    )
                    &&& collected(render_all(self.segments(), replies, None, Seq::empty()), r)
                },
            !(r matches Err(FormatError::Parse(_))),
    {
        let mut sink = Sink::new();
        match self.fmt(&mut sink) {
            Ok(()) => Ok(sink.into_string()),
            Err(e) => Err(e),
        }
    }
}

} // verus!
