use runtime_format::parser::{ParseSegment, Parser};

/// The segments of a template as (is it a key, its text), and the parser
/// as it stands at the end.
fn read(template: &str) -> (Vec<(bool, &str)>, bool, &str) {
    let mut parser = Parser::new(template);
    let mut out = Vec::new();
    while let Some(segment) = parser.next() {
        match segment {
            ParseSegment::Literal(text) => out.push((false, text)),
            ParseSegment::Key(name) => out.push((true, name)),
        }
    }
    (out, parser.is_key, parser.s)
}

#[test]
fn empty_template_has_no_segments() {
    assert_eq!(read(""), (vec![], false, ""));
}

#[test]
fn text_without_braces_is_one_literal() {
    assert_eq!(read("abc"), (vec![(false, "abc")], false, ""));
}

#[test]
fn closing_brace_outside_a_placeholder_is_text() {
    assert_eq!(read("a}b}}c"), (vec![(false, "a}b}}c")], false, ""));
}

#[test]
fn literal_key_literal() {
    assert_eq!(
        read("a{b}c"),
        (vec![(false, "a"), (true, "b"), (false, "c")], false, "")
    );
}

#[test]
fn literal_before_a_placeholder_may_be_empty() {
    assert_eq!(
        read("{a}{b}"),
        (vec![(false, ""), (true, "a"), (false, ""), (true, "b")], false, "")
    );
}

#[test]
fn key_may_be_empty() {
    assert_eq!(read("{}"), (vec![(false, ""), (true, "")], false, ""));
}

#[test]
fn key_takes_everything_up_to_the_closing_brace() {
    assert_eq!(
        read("{a{b c}d"),
        (vec![(false, ""), (true, "a{b c"), (false, "d")], false, "")
    );
}

#[test]
fn doubled_brace_alone() {
    assert_eq!(read("{{"), (vec![(false, ""), (false, "{")], false, ""));
}

#[test]
fn doubled_brace_twice() {
    assert_eq!(
        read("{{{{"),
        (vec![(false, ""), (false, "{"), (false, ""), (false, "{")], false, "")
    );
}

#[test]
fn doubled_brace_needs_no_closing_brace() {
    assert_eq!(
        read("{{foo}"),
        (vec![(false, ""), (false, "{"), (false, "foo}")], false, "")
    );
}

#[test]
fn three_braces_open_a_placeholder_behind_the_escape() {
    assert_eq!(
        read("{{{a}"),
        (vec![(false, ""), (false, "{"), (false, ""), (true, "a")], false, "")
    );
}

#[test]
fn unclosed_placeholder_stops_the_parser() {
    assert_eq!(read("x{key"), (vec![(false, "x")], true, "key"));
}

#[test]
fn unclosed_placeholder_keeps_later_braces_in_the_remainder() {
    assert_eq!(read("x{a{b"), (vec![(false, "x")], true, "a{b"));
}

#[test]
fn brace_at_the_end_is_left_unread() {
    assert_eq!(read("abc{"), (vec![(false, "abc")], false, "{"));
    assert_eq!(read("{"), (vec![], false, "{"));
    assert_eq!(
        read("{{{"),
        (vec![(false, ""), (false, "{")], false, "{")
    );
    assert_eq!(
        read("a{b}{"),
        (vec![(false, "a"), (true, "b")], false, "{")
    );
}

#[test]
fn parser_stays_where_it_stopped() {
    let mut parser = Parser::new("x{key");
    assert!(parser.next().is_some());
    assert!(parser.next().is_none());
    assert!(parser.next().is_none());
    assert!(parser.is_key);
    assert_eq!(parser.s, "key");
}

#[test]
fn text_beyond_ascii_is_cut_at_characters() {
    assert_eq!(
        read("héllo {wörld} ✓{{€"),
        (
            vec![
                (false, "héllo "),
                (true, "wörld"),
                (false, " ✓"),
                (false, "{"),
                (false, "€"),
            ],
            false,
            ""
        )
    );
}

#[test]
fn bytes_that_look_like_braces_inside_characters_do_not_count() {
    // U+017B and U+047D hold the bytes 0x7B and 0x7D only as code points,
    // not in their UTF-8 encodings.
    assert_eq!(
        read("\u{17b}{\u{47d}}\u{17b}"),
        (
            vec![(false, "\u{17b}"), (true, "\u{47d}"), (false, "\u{17b}")],
            false,
            ""
        )
    );
}

#[test]
fn reading_twice_gives_the_same_segments() {
    let template = "Hello, {recipient}. {{ {a} {b";
    assert_eq!(read(template), read(template));
    let copy = String::from(template);
    assert_eq!(read(template), read(&copy));
}

#[test]
fn default_segment_is_the_empty_literal() {
    match ParseSegment::default() {
        ParseSegment::Literal(text) => assert_eq!(text, ""),
        ParseSegment::Key(_) => panic!("the default segment is a literal"),
    }
}

/// A template written out again from what the parser made of it.
fn write_back(template: &str) -> String {
    let (segments, open, rest) = read(template);
    let mut out = String::new();
    for (is_key, text) in segments {
        if is_key {
            out.push('{');
            out.push_str(text);
            out.push('}');
        } else if text == "{" {
            out.push_str("{{");
        } else {
            out.push_str(text);
        }
    }
    if open {
        out.push('{');
    }
    out.push_str(rest);
    out
}

#[test]
fn segments_written_back_are_the_template() {
    for template in [
        "",
        "plain } text",
        "a{b}c",
        "{{",
        "{{{{{a}}} {{x",
        "x{open",
        "abc{",
        "{",
        "{{{",
        "{a{b}{}",
        "héllo {wörld} ✓{{€{",
    ] {
        assert_eq!(write_back(template), template);
    }
}
