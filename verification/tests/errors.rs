use json_parser::{parse, ParseJsonError};

#[test]
fn mismatch_is_rendered() {
    assert_eq!(ParseJsonError::Expected(':', '1').to_string(), "Expected :, found 1.");
    assert_eq!(ParseJsonError::Expected('}', '"').to_string(), "Expected }, found \".");
}

#[test]
fn end_of_string_is_rendered() {
    assert_eq!(ParseJsonError::EndOfString('"').to_string(), "Expected \", found end of string.");
    assert_eq!(ParseJsonError::EndOfString('}').to_string(), "Expected }, found end of string.");
}

#[test]
fn every_other_error_is_rendered() {
    assert_eq!(ParseJsonError::Unexpected('?').to_string(), "Expected a value, found ?.");
    assert_eq!(ParseJsonError::UnexpectedEnd.to_string(), "Expected a value, found end of string.");
    assert_eq!(ParseJsonError::Trailing('x').to_string(), "Expected end of string, found x.");
    assert_eq!(
        ParseJsonError::MalformedNumber(Some('x')).to_string(),
        "Expected a digit, found x."
    );
    assert_eq!(
        ParseJsonError::MalformedNumber(None).to_string(),
        "Expected a digit, found end of string."
    );
    assert_eq!(
        ParseJsonError::ControlCharacter('\n').to_string(),
        "Expected an escape sequence, found a control character."
    );
    assert_eq!(
        ParseJsonError::InvalidEscape('x').to_string(),
        "Expected an escape character, found x."
    );
    assert_eq!(
        ParseJsonError::InvalidHexDigit('g').to_string(),
        "Expected a hexadecimal digit, found g."
    );
    assert_eq!(
        ParseJsonError::UnpairedSurrogate.to_string(),
        "Expected a surrogate pair, found an unpaired surrogate."
    );
    assert_eq!(
        ParseJsonError::DepthExceeded.to_string(),
        "Expected shallower nesting, found too many levels."
    );
}

#[test]
fn rendered_characters_may_be_of_any_script() {
    assert_eq!(
        ParseJsonError::Expected('\u{e9}', '\u{1F600}').to_string(),
        "Expected \u{e9}, found \u{1F600}."
    );
}

#[test]
fn errors_of_documents_are_rendered() {
    assert_eq!(parse("{").unwrap_err().to_string(), "Expected \", found end of string.");
    assert_eq!(parse("{\"a\" 1}").unwrap_err().to_string(), "Expected :, found 1.");
    assert_eq!(parse("[1 2]").unwrap_err().to_string(), "Expected ], found 2.");
}

#[test]
fn errors_compare_by_what_they_hold() {
    assert_eq!(ParseJsonError::Expected('a', 'b'), ParseJsonError::Expected('a', 'b'));
    assert_ne!(ParseJsonError::Expected('a', 'b'), ParseJsonError::Expected('b', 'a'));
    assert_ne!(ParseJsonError::EndOfString('a'), ParseJsonError::Unexpected('a'));
    let error = ParseJsonError::Trailing('x');
    let copy = error;
    assert_eq!(error, copy);
}
