//! The grammar of JSON as functions on a sequence of characters.
//!
//! Each function reads one production from a position of the text and gives
//! its [`Outcome`]: what was read and where the text goes on, or the first
//! error and where it was met. The parser is proved to return exactly this.
use crate::error::ParseJsonError;
use crate::value::{with_entry, Entries, Value};
use vstd::prelude::*;

verus! {

/// How reading a production ends: with what was read and the position behind
/// it, or with the error and the position at which it was met.
pub type Outcome<T> = Result<(T, int), (ParseJsonError, int)>;

/// The outcome of a production that read `value` and ends before `next`.
pub open spec fn done<T>(value: T, next: int) -> Outcome<T> {
    Ok((value, next))
}

/// How many arrays and objects may stand inside one another.
pub const MAX_DEPTH: usize = 128;

/// The character at position `i`, or `None` where the text has ended.
pub open spec fn peek(s: Seq<char>, i: int) -> Option<char> {
    if 0 <= i < s.len() {
        Some(s[i])
    } else {
        None
    }
}

/// Space, tab, line feed and carriage return.
pub open spec fn is_whitespace(c: char) -> bool {
    c == ' ' || c == '\t' || c == '\n' || c == '\r'
}

/// The ten digits.
pub open spec fn is_digit(c: char) -> bool {
    '0' <= c <= '9'
}

/// The digits, and the letters from `a` to `f` in either case.
pub open spec fn is_hex_digit(c: char) -> bool {
    ('0' <= c <= '9') || ('a' <= c <= 'f') || ('A' <= c <= 'F')
}

/// The number that a hexadecimal digit stands for.
pub open spec fn hex_value(c: char) -> int {
    if '0' <= c <= '9' {
        c as int - '0' as int
    } else if 'a' <= c <= 'f' {
        c as int - 'a' as int + 10
    } else {
        c as int - 'A' as int + 10
    }
}

/// The characters below the space, which a string holds only as escapes.
pub open spec fn is_control(c: char) -> bool {
    c <= '\u{1f}'
}

/// The characters that may follow a value in a document: whitespace, a
/// comma, a closing bracket and a closing brace.
pub open spec fn is_delimiter(c: char) -> bool {
    is_whitespace(c) || c == ',' || c == ']' || c == '}'
}

/// The first position from `i` on that holds no whitespace.
pub open spec fn whitespace_end(s: Seq<char>, i: int) -> int
    decreases s.len() - i,
{
    if 0 <= i < s.len() && is_whitespace(s[i]) {
        whitespace_end(s, i + 1)
    } else {
        i
    }
}

/// The first position from `i` on that holds no digit.
pub open spec fn digits_end(s: Seq<char>, i: int) -> int
    decreases s.len() - i,
{
    if 0 <= i < s.len() && is_digit(s[i]) {
        digits_end(s, i + 1)
    } else {
        i
    }
}

/// Reads the character `expected` at position `i`.
pub open spec fn expect(s: Seq<char>, i: int, expected: char) -> Outcome<()> {
    match peek(s, i) {
        None => Err((ParseJsonError::EndOfString(expected), i)),
        Some(found) => if found == expected {
            Ok(((), i + 1))
        } else {
            Err((ParseJsonError::Expected(expected, found), i))
        },
    }
}

/// Reads the characters of `word` from its index `from` on, one after the
/// other, and stops at the first that the text does not hold.
pub open spec fn expect_word(s: Seq<char>, i: int, word: Seq<char>, from: int) -> Outcome<()>
    decreases word.len() - from,
{
    if from < 0 || from >= word.len() {
        Ok(((), i))
    } else {
        match expect(s, i, word[from]) {
            Err(e) => Err(e),
            Ok((_, next)) => expect_word(s, next, word, from + 1),
        }
    }
}

/// Reads `true`, `false` or `null`. The first character decides which of
/// them is required: `t`, `f`, and `null` for any other.
pub open spec fn literal(s: Seq<char>, i: int) -> Outcome<Value> {
    let (word, value) = if peek(s, i) == Some('t') {
        ("true"@, Value::Boolean(true))
    } else if peek(s, i) == Some('f') {
        ("false"@, Value::Boolean(false))
    } else {
        ("null"@, Value::Null)
    };
    match expect_word(s, i, word, 0) {
        Err(e) => Err(e),
        Ok((_, next)) => Ok((value, next)),
    }
}

/// Reads one hexadecimal digit of a `\u` escape.
pub open spec fn hex_digit(s: Seq<char>, i: int) -> Outcome<int> {
    match peek(s, i) {
        None => Err((ParseJsonError::EndOfString('"'), i)),
        Some(c) => if is_hex_digit(c) {
            Ok((hex_value(c), i + 1))
        } else {
            Err((ParseJsonError::InvalidHexDigit(c), i))
        },
    }
}

/// Reads four hexadecimal digits as one number, the first digit counting most.
pub open spec fn hex4(s: Seq<char>, i: int) -> Outcome<int> {
    match hex_digit(s, i) {
        Err(e) => Err(e),
        Ok((a, _)) => match hex_digit(s, i + 1) {
            Err(e) => Err(e),
            Ok((b, _)) => match hex_digit(s, i + 2) {
                Err(e) => Err(e),
                Ok((c, _)) => match hex_digit(s, i + 3) {
                    Err(e) => Err(e),
                    Ok((d, _)) => Ok((((a * 16 + b) * 16 + c) * 16 + d, i + 4)),
                },
            },
        },
    }
}

/// The first half of a surrogate pair.
pub open spec fn is_high_surrogate(unit: int) -> bool {
    0xD800 <= unit <= 0xDBFF
}

/// The second half of a surrogate pair.
pub open spec fn is_low_surrogate(unit: int) -> bool {
    0xDC00 <= unit <= 0xDFFF
}

/// The code point that a surrogate pair stands for.
pub open spec fn pair_value(high: int, low: int) -> int {
    0x10000 + (high - 0xD800) * 0x400 + (low - 0xDC00)
}

/// Reads what follows `\u`: four hexadecimal digits that name a character,
/// or the first half of a surrogate pair followed by `\u` and the second.
pub open spec fn unicode_escape(s: Seq<char>, i: int) -> Outcome<char> {
    match hex4(s, i) {
        Err(e) => Err(e),
        Ok((unit, j)) => if is_high_surrogate(unit) {
            match expect(s, j, '\\') {
                Err(e) => Err(e),
                Ok((_, _)) => match expect(s, j + 1, 'u') {
                    Err(e) => Err(e),
                    Ok((_, _)) => match hex4(s, j + 2) {
                        Err(e) => Err(e),
                        Ok((low, k)) => if is_low_surrogate(low) {
                            Ok((pair_value(unit, low) as char, k))
                        } else {
                            Err((ParseJsonError::UnpairedSurrogate, j + 2))
                        },
                    },
                },
            }
        } else if is_low_surrogate(unit) {
            Err((ParseJsonError::UnpairedSurrogate, i))
        } else {
            Ok((unit as char, j))
        },
    }
}

/// The character that a backslash and `letter` stand for, for the eight
/// escapes of one letter.
pub open spec fn short_escape(letter: char) -> Option<char> {
    if letter == '"' || letter == '\\' || letter == '/' {
        Some(letter)
    } else if letter == 'b' {
        Some('\u{8}')
    } else if letter == 'f' {
        Some('\u{c}')
    } else if letter == 'n' {
        Some('\n')
    } else if letter == 'r' {
        Some('\r')
    } else if letter == 't' {
        Some('\t')
    } else {
        None
    }
}

/// Reads what follows a backslash in a string, and gives the character that
/// the escape stands for.
pub open spec fn escape(s: Seq<char>, i: int) -> Outcome<char> {
    match peek(s, i) {
        None => Err((ParseJsonError::EndOfString('"'), i)),
        Some(c) => if c == 'u' {
            unicode_escape(s, i + 1)
        } else {
            match short_escape(c) {
                Some(decoded) => Ok((decoded, i + 1)),
                None => Err((ParseJsonError::InvalidEscape(c), i)),
            }
        },
    }
}

/// Reads the inside of a string from position `i` up to the closing quote,
/// and gives `text` followed by the characters read, escapes decoded.
pub open spec fn string_body(s: Seq<char>, i: int, text: Seq<char>) -> Outcome<Seq<char>>
    decreases s.len() - i,
{
    match peek(s, i) {
        None => Err((ParseJsonError::EndOfString('"'), i)),
        Some(c) => if c == '"' {
            Ok((text, i + 1))
        } else if c == '\\' {
            match escape(s, i + 1) {
                Err(e) => Err(e),
                Ok((decoded, next)) => string_body(s, next, text.push(decoded)),
            }
        } else if is_control(c) {
            Err((ParseJsonError::ControlCharacter(c), i))
        } else {
            string_body(s, i + 1, text.push(c))
        },
    }
}

/// Reads a string, quotes included, and gives its decoded text.
pub open spec fn string(s: Seq<char>, i: int) -> Outcome<Seq<char>> {
    match expect(s, i, '"') {
        Err(e) => Err(e),
        Ok((_, next)) => string_body(s, next, Seq::empty()),
    }
}

/// Whether a digit stands at position `i`.
pub open spec fn digit_at(s: Seq<char>, i: int) -> bool {
    0 <= i < s.len() && is_digit(s[i])
}

/// The error of a number that lacks a digit at position `i`.
pub open spec fn digit_missing(s: Seq<char>, i: int) -> (ParseJsonError, int) {
    (ParseJsonError::MalformedNumber(peek(s, i)), i)
}

/// No number goes on at position `i`: the text ends there, or holds a
/// character that is no digit, no point and no `e` or `E`.
pub open spec fn number_stops(s: Seq<char>, i: int) -> bool {
    peek(s, i) matches Some(c) ==> !is_digit(c) && c != '.' && c != 'e' && c != 'E'
}

/// Where the integer part that starts at `i` ends: a single `0`, or a digit
/// from `1` to `9` and the digits that follow it.
pub open spec fn integer_end(s: Seq<char>, i: int) -> Result<int, (ParseJsonError, int)> {
    if !digit_at(s, i) {
        Err(digit_missing(s, i))
    } else if s[i] == '0' {
        Ok(i + 1)
    } else {
        Ok(digits_end(s, i + 1))
    }
}

/// Where the fraction ends that may start at `i`: a point and one digit or
/// more. Without a point at `i` there is none, and it ends at `i`.
pub open spec fn fraction_end(s: Seq<char>, i: int) -> Result<int, (ParseJsonError, int)> {
    if peek(s, i) != Some('.') {
        Ok(i)
    } else if !digit_at(s, i + 1) {
        Err(digit_missing(s, i + 1))
    } else {
        Ok(digits_end(s, i + 2))
    }
}

/// Where the exponent ends that may start at `i`: `e` or `E`, a sign or
/// none, and one digit or more. Without `e` or `E` at `i` there is none.
pub open spec fn exponent_end(s: Seq<char>, i: int) -> Result<int, (ParseJsonError, int)> {
    if peek(s, i) != Some('e') && peek(s, i) != Some('E') {
        Ok(i)
    } else {
        let digits = if peek(s, i + 1) == Some('+') || peek(s, i + 1) == Some('-') {
            i + 2
        } else {
            i + 1
        };
        if !digit_at(s, digits) {
            Err(digit_missing(s, digits))
        } else {
            Ok(digits_end(s, digits + 1))
        }
    }
}

/// Where the number that starts at `i` ends: a minus sign or none, the
/// integer part, then a fraction and an exponent where they are written.
pub open spec fn number_end(s: Seq<char>, i: int) -> Result<int, (ParseJsonError, int)> {
    let digits = if peek(s, i) == Some('-') {
        i + 1
    } else {
        i
    };
    match integer_end(s, digits) {
        Err(e) => Err(e),
        Ok(point) => match fraction_end(s, point) {
            Err(e) => Err(e),
            Ok(exponent) => exponent_end(s, exponent),
        },
    }
}

/// `lexeme` is a number from its first character to its last.
pub open spec fn is_number(lexeme: Seq<char>) -> bool {
    number_end(lexeme, 0) == Ok::<int, (ParseJsonError, int)>(lexeme.len() as int)
}

/// Reads a number and gives its lexeme.
pub open spec fn number(s: Seq<char>, i: int) -> Outcome<Seq<char>> {
    match number_end(s, i) {
        Err(e) => Err(e),
        Ok(end) => Ok((s.subrange(i, end), end)),
    }
}

/// The characters with which a value begins.
pub open spec fn starts_value(c: char) -> bool {
    c == '"' || c == '{' || c == '[' || c == 't' || c == 'f' || c == 'n' || c == '-' || is_digit(c)
}

/// Reads a value after the whitespace that may stand before it. The first
/// character decides which production follows. `depth` says how many arrays
/// and objects may still open inside one another.
pub open spec fn value(s: Seq<char>, i: int, depth: nat) -> Outcome<Value>
    decreases depth, 1int, 0int,
{
    let start = whitespace_end(s, i);
    match peek(s, start) {
        None => Err((ParseJsonError::UnexpectedEnd, start)),
        Some(c) => if c == '"' {
            match string(s, start) {
                Err(e) => Err(e),
                Ok((text, next)) => Ok((Value::String(text), next)),
            }
        } else if c == '{' {
            object(s, start, depth)
        } else if c == '[' {
            array(s, start, depth)
        } else if c == 't' || c == 'f' || c == 'n' {
            literal(s, start)
        } else if c == '-' || is_digit(c) {
            match number(s, start) {
                Err(e) => Err(e),
                Ok((lexeme, next)) => Ok((Value::Number(lexeme), next)),
            }
        } else {
            Err((ParseJsonError::Unexpected(c), start))
        },
    }
}

/// Reads an array after the whitespace that may stand before it: `[`, the
/// elements with a comma between each two, and `]`.
pub open spec fn array(s: Seq<char>, i: int, depth: nat) -> Outcome<Value>
    decreases depth, 0int, 0int,
{
    let start = whitespace_end(s, i);
    match expect(s, start, '[') {
        Err(e) => Err(e),
        Ok((_, inside)) => if depth == 0 {
            Err((ParseJsonError::DepthExceeded, start))
        } else {
            let first = whitespace_end(s, inside);
            if peek(s, first) == Some(']') {
                Ok((Value::Array(Seq::empty()), first + 1))
            } else {
                elements(s, first, (depth - 1) as nat, Seq::empty())
            }
        },
    }
}

/// Reads the elements of an array from position `i`, where one must start,
/// up to the closing bracket, and gives the array of `items` followed by them.
///
/// A value spans at least one character, so that `i <= comma` holds wherever a
/// comma follows the element, as [`lemma_value_spans`] shows; the test is there
/// to show that reading ends.
///
/// [`lemma_value_spans`]: crate::laws::lemma_value_spans
pub open spec fn elements(s: Seq<char>, i: int, depth: nat, items: Seq<Value>) -> Outcome<Value>
    decreases depth, 2int, s.len() - i,
{
    match value(s, i, depth) {
        Err(e) => Err(e),
        Ok((item, next)) => {
            let comma = whitespace_end(s, next);
            if peek(s, comma) == Some(',') && i <= comma {
                elements(s, comma + 1, depth, items.push(item))
            } else {
                match expect(s, comma, ']') {
                    Err(e) => Err(e),
                    Ok((_, end)) => Ok((Value::Array(items.push(item)), end)),
                }
            }
        },
    }
}

/// Reads an object after the whitespace that may stand before it: `{`, the
/// members with a comma between each two, and `}`.
pub open spec fn object(s: Seq<char>, i: int, depth: nat) -> Outcome<Value>
    decreases depth, 0int, 0int,
{
    let start = whitespace_end(s, i);
    match expect(s, start, '{') {
        Err(e) => Err(e),
        Ok((_, inside)) => if depth == 0 {
            Err((ParseJsonError::DepthExceeded, start))
        } else {
            let first = whitespace_end(s, inside);
            if peek(s, first) == Some('}') {
                Ok((Value::Object(Seq::empty()), first + 1))
            } else {
                members(s, first, (depth - 1) as nat, Seq::empty())
            }
        },
    }
}

/// Reads the members of an object from position `i`, where one must start,
/// up to the closing brace: each a string, a colon and a value. Gives the
/// object of `entries` with each member stored in turn, so that of two members
/// with one key the later value stays.
///
/// A member spans at least one character, so that `i <= comma` holds wherever
/// a comma follows it, as [`lemma_value_spans`] shows; the test is there to
/// show that reading ends.
///
/// [`lemma_value_spans`]: crate::laws::lemma_value_spans
pub open spec fn members(s: Seq<char>, i: int, depth: nat, entries: Entries) -> Outcome<Value>
    decreases depth, 2int, s.len() - i,
{
    match string(s, whitespace_end(s, i)) {
        Err(e) => Err(e),
        Ok((key, after_key)) => match expect(s, whitespace_end(s, after_key), ':') {
            Err(e) => Err(e),
            Ok((_, after_colon)) => match value(s, after_colon, depth) {
                Err(e) => Err(e),
                Ok((item, next)) => {
                    let comma = whitespace_end(s, next);
                    let stored = with_entry(entries, key, item);
                    if peek(s, comma) == Some(',') && i <= comma {
                        members(s, comma + 1, depth, stored)
                    } else {
                        match expect(s, comma, '}') {
                            Err(e) => Err(e),
                            Ok((_, end)) => Ok((Value::Object(stored), end)),
                        }
                    }
                },
            },
        },
    }
}

/// Reads a whole document from position `i`: one value, with nothing but
/// whitespace between it and the end of the text.
pub open spec fn document(s: Seq<char>, i: int) -> Outcome<Value> {
    match value(s, i, MAX_DEPTH as nat) {
        Err(e) => Err(e),
        Ok((root, next)) => {
            let end = whitespace_end(s, next);
            match peek(s, end) {
                None => Ok((root, end)),
                Some(c) => Err((ParseJsonError::Trailing(c), end)),
            }
        },
    }
}

} // verus!
