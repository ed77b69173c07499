use runtime_format::{FormatError, FormatKey, FormatKeyError, Sink};

struct Message;

impl FormatKey for Message {
    fn fmt(&self, key: &str, f: &mut Sink) -> Result<(), FormatKeyError> {
        match key {
            "recipient" => f.write_str("World").map_err(FormatKeyError::Fmt),
            "time_descriptor" => f.write_str("morning").map_err(FormatKeyError::Fmt),
            _ => Err(FormatKeyError::UnknownKey),
        }
    }
}

#[test]
fn alloc_impls_happy_path() {
    let format_str = "Hello, {recipient}. Hope you are having a nice {time_descriptor}.";
    let expected = "Hello, World. Hope you are having a nice morning.";
    assert_eq!(runtime_format::format(format_str, &Message).unwrap(), expected);
}

#[test]
fn alloc_impls_missing_key() {
    let format_str = "Hello, {recipient}. Hope you are having a nice {time_descriptr}.";
    assert_eq!(
        runtime_format::format(format_str, &Message),
        Err(FormatError::Key("time_descriptr"))
    );
}

#[test]
fn alloc_impls_failed_parsing() {
    let format_str = "Hello, {recipient}. Hope you are having a nice {time_descriptor.";
    assert_eq!(
        runtime_format::format(format_str, &Message),
        Err(FormatError::Parse("time_descriptor."))
    );
}

#[test]
fn alloc_impls_escape_brackets() {
    let format_str = "You can make custom formatting terms using {{foo}!";
    let expected = "You can make custom formatting terms using {foo}!";
    assert_eq!(runtime_format::format(format_str, &Message).unwrap(), expected);
}
