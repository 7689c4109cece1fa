//! The errors of the parser and the sentence that each one renders to.
use vstd::prelude::*;

verus! {

/// Why a text is not a JSON document. Every variant holds what its sentence
/// names: the character that was required, the character that was found.
#[derive(Debug, Clone, Copy, PartialEq, Eq)]
pub enum ParseJsonError {
    /// `Expected(expected, found)`: the character `expected` was required and
    /// `found` stands in its place.
    Expected(char, char),
    /// `EndOfString(expected)`: the character `expected` was required and the
    /// text had ended.
    EndOfString(char),
    /// A value had to begin, and no value begins with this character.
    Unexpected(char),
    /// A value had to begin, and the text had ended.
    UnexpectedEnd,
    /// The document was complete, and this character follows it.
    Trailing(char),
    /// A number required a digit; the character found in its place, or `None`
    /// where the text had ended.
    MalformedNumber(Option<char>),
    /// A string holds this control character without an escape.
    ControlCharacter(char),
    /// In a string, this character follows a backslash and names no escape.
    InvalidEscape(char),
    /// In a `\u` escape, this character stands where a hexadecimal digit was
    /// required.
    InvalidHexDigit(char),
    /// `\u` escapes name one half of a surrogate pair without the other.
    UnpairedSurrogate,
    /// Arrays and objects are nested more deeply than the parser follows.
    DepthExceeded,
}

impl ParseJsonError {
    /// The sentence that describes the error.
    pub open spec fn message(self) -> Seq<char> {
        match self {
            ParseJsonError::Expected(expected, found) => "Expected "@ + seq![expected]
                + ", found "@ + seq![found] + "."@,
            ParseJsonError::EndOfString(expected) => "Expected "@ + seq![expected]
                + ", found end of string."@,
            ParseJsonError::Unexpected(found) => "Expected a value, found "@ + seq![found] + "."@,
            ParseJsonError::UnexpectedEnd => "Expected a value, found end of string."@,
            ParseJsonError::Trailing(found) => "Expected end of string, found "@ + seq![found]
                + "."@,
            ParseJsonError::MalformedNumber(Some(found)) => "Expected a digit, found "@
                + seq![found] + "."@,
            ParseJsonError::MalformedNumber(None) => "Expected a digit, found end of string."@,
            ParseJsonError::ControlCharacter(_) =>
                "Expected an escape sequence, found a control character."@,
            ParseJsonError::InvalidEscape(found) => "Expected an escape character, found "@
                + seq![found] + "."@,
            ParseJsonError::InvalidHexDigit(found) => "Expected a hexadecimal digit, found "@
                + seq![found] + "."@,
            ParseJsonError::UnpairedSurrogate =>
                "Expected a surrogate pair, found an unpaired surrogate."@,
            ParseJsonError::DepthExceeded => "Expected shallower nesting, found too many levels."@,
        }
    }

    /// Renders the error as a sentence of the form `Expected X, found Y.`
    pub fn to_string(&self) -> (text: String)
        ensures
            text@ == self.message(),
    {
        match *self {
            ParseJsonError::Expected(expected, found) => {
                let mut text = "Expected ".to_owned();
                text.push(expected);
                text.append(", found ");
                text.push(found);
                text.append(".");
                text
            },
            ParseJsonError::EndOfString(expected) => {
                let mut text = "Expected ".to_owned();
                text.push(expected);
                text.append(", found end of string.");
                text
            },
            ParseJsonError::Unexpected(found) => found_sentence("Expected a value, found ", found),
            ParseJsonError::UnexpectedEnd => "Expected a value, found end of string.".to_owned(),
            ParseJsonError::Trailing(found) => found_sentence(
                "Expected end of string, found ",
                found,
            ),
            ParseJsonError::MalformedNumber(Some(found)) => found_sentence(
                "Expected a digit, found ",
                found,
            ),
            ParseJsonError::MalformedNumber(None) => {
                "Expected a digit, found end of string.".to_owned()
            },
            ParseJsonError::ControlCharacter(_) => {
                "Expected an escape sequence, found a control character.".to_owned()
            },
            ParseJsonError::InvalidEscape(found) => found_sentence(
                "Expected an escape character, found ",
                found,
            ),
            ParseJsonError::InvalidHexDigit(found) => found_sentence(
                "Expected a hexadecimal digit, found ",
                found,
            ),
            ParseJsonError::UnpairedSurrogate => {
                "Expected a surrogate pair, found an unpaired surrogate.".to_owned()
            },
            ParseJsonError::DepthExceeded => {
                "Expected shallower nesting, found too many levels.".to_owned()
            },
        }
    }
}

/// `start`, then the character that was found, then a full stop.
fn found_sentence(start: &str, found: char) -> (text: String)
    ensures
        text@ == start@ + seq![found] + "."@,
{
    let mut text = start.to_owned();
    text.push(found);
    text.append(".");
    text
}

} // verus!
