use runtime_format::{FormatError, FormatKey, FormatKeyError, Formatter, Sink};

fn render_into_buffer<'a, F: FormatKey>(
    s: &'a str,
    fmt: &'a F,
    f: impl FnOnce(&[u8]),
) -> Result<(), FormatError<'a>> {
    let mut bytes = Sink::with_limit(1024);
    let fmt = Formatter::new(s, fmt);
    match fmt.fmt(&mut bytes) {
        Ok(()) | Err(FormatError::Fmt(_)) => {}
        Err(err) => return Err(err),
    }

    f(bytes.as_str().as_bytes());
    Ok(())
}

struct Message;

impl FormatKey for Message {
    fn fmt(&self, key: &str, f: &mut Sink) -> Result<(), FormatKeyError> {
        match key {
            "recipient" => f.write_str("World").map_err(FormatKeyError::Fmt),
            "time_descriptor" => f.write_str("morning").map_err(FormatKeyError::Fmt),
            _ => Err(FormatKeyError::UnknownKey),
        }
    }

    fn is_acceptable_key(key: &str) -> bool {
        matches!(key, "recipient" | "time_descriptor")
    }
}

#[test]
fn lib_happy_path() {
    let format_str = "Hello, {recipient}. Hope you are having a nice {time_descriptor}.";
    let expected = "Hello, World. Hope you are having a nice morning.";
    render_into_buffer(format_str, &Message, |output| {
        assert_eq!(output, expected.as_bytes())
    })
    .unwrap();
}

#[test]
fn lib_missing_key() {
    let format_str = "Hello, {recipient}. Hope you are having a nice {time_descriptr}.";
    assert_eq!(
        render_into_buffer(format_str, &Message, |_| {}),
        Err(FormatError::Key("time_descriptr"))
    );
}

#[test]
fn lib_failed_parsing() {
    let format_str = "Hello, {recipient}. Hope you are having a nice {time_descriptor.";
    assert_eq!(
        render_into_buffer(format_str, &Message, |_| {}),
        Err(FormatError::Parse("time_descriptor."))
    );
}

#[test]
fn lib_escape_brackets() {
    let format_str = "You can make custom formatting terms using {{foo}!";
    let expected = "You can make custom formatting terms using {foo}!";
    render_into_buffer(format_str, &Message, |output| {
        assert_eq!(output, expected.as_bytes())
    })
    .unwrap();
}
