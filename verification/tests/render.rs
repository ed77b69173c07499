use runtime_format::resolver::settle;
use runtime_format::{FormatError, FormatKey, FormatKeyError, Formatter, Sink};
use std::cell::RefCell;

struct Message;

impl FormatKey for Message {
    fn fmt(&self, key: &str, f: &mut Sink) -> Result<(), FormatKeyError> {
        match key {
            "recipient" => f.write_str("World").map_err(FormatKeyError::Fmt),
            "time_descriptor" => f.write_str("morning").map_err(FormatKeyError::Fmt),
            _ => Err(FormatKeyError::UnknownKey),
        }
    }
}

/// Knows no key.
struct Nothing;

impl FormatKey for Nothing {
    fn fmt(&self, _key: &str, _f: &mut Sink) -> Result<(), FormatKeyError> {
        Err(FormatKeyError::UnknownKey)
    }
}

/// Reports every write as failed, without writing.
struct Broken;

impl FormatKey for Broken {
    fn fmt(&self, _key: &str, _f: &mut Sink) -> Result<(), FormatKeyError> {
        Err(FormatKeyError::Fmt(core::fmt::Error))
    }
}

/// Writes half a value and then gives up.
struct Half;

impl FormatKey for Half {
    fn fmt(&self, key: &str, f: &mut Sink) -> Result<(), FormatKeyError> {
        f.write_str("ha")?;
        if key == "lost" {
            Err(FormatKeyError::UnknownKey)
        } else {
            Err(FormatKeyError::Fmt(core::fmt::Error))
        }
    }
}

/// Writes the key in angle brackets, and notes what it was asked and what
/// the sink held then.
struct Recorder {
    asked: RefCell<Vec<(String, String)>>,
}

impl FormatKey for Recorder {
    fn fmt(&self, key: &str, f: &mut Sink) -> Result<(), FormatKeyError> {
        self.asked
            .borrow_mut()
            .push((key.to_string(), f.as_str().to_string()));
        f.write_str("<")?;
        f.write_str(key)?;
        f.write_str(">")?;
        Ok(())
    }
}

#[test]
fn template_without_placeholders_is_rendered_unchanged() {
    for template in ["", "plain", "a } b }} c", "héllo ✓", "line\nbreak\ttab"] {
        assert_eq!(runtime_format::format(template, &Message).unwrap(), template);
        assert_eq!(runtime_format::format(template, &Nothing).unwrap(), template);
        assert_eq!(runtime_format::format(template, &Broken).unwrap(), template);
        assert_eq!(runtime_format::format(template, &Half).unwrap(), template);
    }
}

#[test]
fn doubled_braces_are_rendered_as_single_ones() {
    for k in 0..6 {
        let template = "{{".repeat(k);
        let expected = "{".repeat(k);
        assert_eq!(runtime_format::format(&template, &Nothing).unwrap(), expected);
        let template = format!("head }} {}tail}}", "{{".repeat(k));
        let expected = format!("head }} {}tail}}", "{".repeat(k));
        assert_eq!(runtime_format::format(&template, &Nothing).unwrap(), expected);
    }
}

#[test]
fn escape_beside_a_placeholder() {
    assert_eq!(
        runtime_format::format("{{{recipient}}} {{{{{time_descriptor}", &Message).unwrap(),
        "{World}} {{morning"
    );
}

#[test]
fn happy_path_into_a_sink_that_holds_text_already() {
    let mut sink = Sink::new();
    sink.write_str(">> ").unwrap();
    let template = "Hello, {recipient}. Hope you are having a nice {time_descriptor}.";
    assert_eq!(Formatter::new(template, &Message).fmt(&mut sink), Ok(()));
    assert_eq!(
        sink.as_str(),
        ">> Hello, World. Hope you are having a nice morning."
    );
}

#[test]
fn failure_at_the_second_placeholder_leaves_what_was_rendered() {
    let template = "Hello, {recipient}. Hope you are having a nice {time_descriptr}.";
    let mut sink = Sink::new();
    assert_eq!(
        Formatter::new(template, &Message).fmt(&mut sink),
        Err(FormatError::Key("time_descriptr"))
    );
    assert_eq!(sink.as_str(), "Hello, World. Hope you are having a nice ");
}

#[test]
fn what_a_failing_resolver_wrote_stays_too() {
    let mut sink = Sink::new();
    assert_eq!(
        Formatter::new("a{lost}b", &Half).fmt(&mut sink),
        Err(FormatError::Key("lost"))
    );
    assert_eq!(sink.as_str(), "aha");
    let mut sink = Sink::new();
    assert_eq!(
        Formatter::new("a{other}b", &Half).fmt(&mut sink),
        Err(FormatError::Fmt(core::fmt::Error))
    );
    assert_eq!(sink.as_str(), "aha");
}

#[test]
fn failed_write_of_the_resolver_is_no_unknown_key() {
    assert_eq!(
        runtime_format::format("a{recipient}", &Broken),
        Err(FormatError::Fmt(core::fmt::Error))
    );
}

#[test]
fn first_failure_wins() {
    assert_eq!(
        runtime_format::format("{nope}{recipient}{open", &Message),
        Err(FormatError::Key("nope"))
    );
    assert_eq!(
        runtime_format::format("{recipient}{nope}{nada}", &Message),
        Err(FormatError::Key("nope"))
    );
}

#[test]
fn open_placeholder_shows_after_the_segments_before_it() {
    let mut sink = Sink::new();
    assert_eq!(
        Formatter::new("a{recipient}c{d", &Message).fmt(&mut sink),
        Err(FormatError::Parse("d"))
    );
    assert_eq!(sink.as_str(), "aWorldc");
}

#[test]
fn brace_that_ends_the_template_is_the_remainder() {
    assert_eq!(
        runtime_format::format("abc{", &Message),
        Err(FormatError::Parse("{"))
    );
    assert_eq!(
        runtime_format::format("{", &Message),
        Err(FormatError::Parse("{"))
    );
    assert_eq!(
        runtime_format::format("{{a{", &Message),
        Err(FormatError::Parse("{"))
    );
    let mut sink = Sink::new();
    assert_eq!(
        Formatter::new("{recipient} abc{", &Message).fmt(&mut sink),
        Err(FormatError::Parse("{"))
    );
    assert_eq!(sink.as_str(), "World abc");
}

#[test]
fn parse_payload_is_never_empty_and_ends_the_template() {
    for template in ["abc{", "{", "x{y", "{{{", "a{b}{c", "{a}{", "x{ {{ {"] {
        match runtime_format::format(template, &Nothing) {
            Err(FormatError::Parse(rest)) => {
                assert!(!rest.is_empty());
                assert!(template.ends_with(rest));
                assert!(!rest.contains('}'));
            }
            Err(FormatError::Key(_)) => {}
            other => panic!("{template:?} gave {other:?}"),
        }
    }
}

#[test]
fn remainder_is_handed_out_as_it_stands() {
    assert_eq!(
        runtime_format::format("x{a{b {{ c", &Message),
        Err(FormatError::Parse("a{b {{ c"))
    );
}

#[test]
fn empty_key_is_asked_of_the_resolver() {
    assert_eq!(
        runtime_format::format("a{}b", &Message),
        Err(FormatError::Key(""))
    );
    let recorder = Recorder { asked: RefCell::new(Vec::new()) };
    assert_eq!(runtime_format::format("a{}b", &recorder).unwrap(), "a<>b");
}

#[test]
fn resolver_is_asked_for_each_key_in_order_with_the_sink_so_far() {
    let recorder = Recorder { asked: RefCell::new(Vec::new()) };
    let mut sink = Sink::new();
    sink.write_str("0").unwrap();
    assert_eq!(
        Formatter::new("a{x}b{y y}{x}{{", &recorder).fmt(&mut sink),
        Ok(())
    );
    assert_eq!(sink.as_str(), "0a<x>b<y y><x>{");
    let asked = recorder.asked.borrow();
    assert_eq!(
        *asked,
        vec![
            ("x".to_string(), "0a".to_string()),
            ("y y".to_string(), "0a<x>b".to_string()),
            ("x".to_string(), "0a<x>b<y y>".to_string()),
        ]
    );
}

#[test]
fn resolver_is_not_asked_behind_a_failure() {
    let recorder = Recorder { asked: RefCell::new(Vec::new()) };
    let mut sink = Sink::with_limit(4);
    assert_eq!(
        Formatter::new("a{x}b{y}", &recorder).fmt(&mut sink),
        Err(FormatError::Fmt(core::fmt::Error))
    );
    assert_eq!(sink.as_str(), "a<x>");
    assert_eq!(recorder.asked.borrow().len(), 1);
}

#[test]
fn literal_that_the_sink_refuses_ends_the_render() {
    let mut sink = Sink::with_limit(6);
    assert_eq!(
        Formatter::new("Hello, {recipient}", &Message).fmt(&mut sink),
        Err(FormatError::Fmt(core::fmt::Error))
    );
    assert_eq!(sink.as_str(), "");
    let mut sink = Sink::with_limit(7);
    assert_eq!(
        Formatter::new("Hello, {recipient}", &Message).fmt(&mut sink),
        Err(FormatError::Fmt(core::fmt::Error))
    );
    assert_eq!(sink.as_str(), "Hello, ");
}

#[test]
fn render_that_fits_exactly_goes_through() {
    let mut sink = Sink::with_limit(12);
    assert_eq!(
        Formatter::new("Hello, {recipient}", &Message).fmt(&mut sink),
        Ok(())
    );
    assert_eq!(sink.as_str(), "Hello, World");
    let mut sink = Sink::with_limit(11);
    assert_eq!(
        Formatter::new("Hello, {recipient}", &Message).fmt(&mut sink),
        Err(FormatError::Fmt(core::fmt::Error))
    );
    assert_eq!(sink.as_str(), "Hello, ");
}

#[test]
fn one_formatter_renders_again_and_again() {
    let formatter = Formatter::new("{recipient}!", &Message);
    let mut sink = Sink::new();
    assert_eq!(formatter.fmt(&mut sink), Ok(()));
    assert_eq!(formatter.fmt(&mut sink), Ok(()));
    assert_eq!(sink.as_str(), "World!World!");
}

#[test]
fn settle_goes_on_after_a_written_value() {
    assert_eq!(settle("key", Ok(())), Ok(()));
}

#[test]
fn settle_names_the_unknown_key() {
    assert_eq!(
        settle("key", Err(FormatKeyError::UnknownKey)),
        Err(FormatError::Key("key"))
    );
}

#[test]
fn settle_passes_a_failed_write_up() {
    assert_eq!(
        settle("key", Err(FormatKeyError::Fmt(core::fmt::Error))),
        Err(FormatError::Fmt(core::fmt::Error))
    );
}

#[test]
fn fmt_error_turns_into_a_key_error() {
    assert_eq!(
        FormatKeyError::from(core::fmt::Error),
        FormatKeyError::Fmt(core::fmt::Error)
    );
}
