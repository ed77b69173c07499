//! Runtime string templates: literal text with `{name}` placeholders, rendered
//! against a resolver that supplies the text of each name.
//!
//! `{{` stands for a literal `{`. A `}` outside a placeholder is literal
//! text. A `{` that is no half of `{{` and is never closed makes the template
//! malformed.

use vstd::prelude::*;

pub mod alloc_impls;
pub mod compiled;
pub mod error;
pub mod laws;
pub mod parser;
pub mod render;
pub mod resolver;
pub mod sink;
pub mod template;
pub mod text;

pub use crate::compiled::{CompiledFmt, CompiledFormatter, Format};
pub use crate::error::{FormatError, FormatKeyError};
pub use crate::render::Formatter;
pub use crate::resolver::FormatKey;
pub use crate::sink::Sink;

use crate::render::{answers, collected, render_template};
use crate::resolver::{failure_of, Reply};
use crate::template::{remainder, segments};

verus! {

/// Renders the template `s` against the resolver `f` into a new text.
///
/// The first failure ends the render: a key that `f` does not know, a write
/// that `f` reports as failed, or, behind all segments, a placeholder that
/// the template leaves open.
pub fn format<'a, F: FormatKey>(s: &'a str, f: &'a F) -> (r: Result<String, FormatError<'a>>)
    ensures
        exists|replies: Seq<Reply>|
            {
                &&& #[trigger] answers(f, segments(s@), replies, None, Seq::empty())
                &&& collected(render_template(s@, replies, None, Seq::empty()), r)
            },
        !s@.contains('{') ==> (r matches Ok(text) && text@ == s@),
        r matches Err(FormatError::Parse(rest)) ==> rest@.len() > 0 && rest@ == remainder(s@),
{
    let mut sink = Sink::new();
    let done = Formatter::new(s, f).fmt(&mut sink);
    proof {
        if !s@.contains('{') {
            let replies = choose|replies: Seq<Reply>|
                {
                    &&& #[trigger] answers(f, segments(s@), replies, None, Seq::empty())
                    &&& render_template(s@, replies, None, Seq::empty()) == (
                        sink@,
                        failure_of(done),
                    )
                };
            crate::laws::law_round_trip(s@, replies, None, Seq::empty());
            assert(Seq::<char>::empty() + s@ == s@);
        }
    }
    match done {
        Ok(()) => Ok(sink.into_string()),
        Err(e) => Err(e),
    }
}

} // verus!
