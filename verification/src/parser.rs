//! The parser: a cursor over the characters of a text, with one method for
//! each production of the grammar.
use crate::error::ParseJsonError;
use crate::grammar;
use crate::grammar::{Outcome, MAX_DEPTH};
use crate::laws::{lemma_parsed_value, lemma_parses_iff_document};
use crate::proofs::numbers::lemma_number_lexeme;
use crate::proofs::strings::lemma_literal_parsed;
use crate::syntax::is_document;
use crate::value::{lemma_array_view, views, Json, JsonNumber, JsonObject, Value};
use vstd::prelude::*;

verus! {

/// What contracts see of a [`Parser`]: the text, and the position of the next
/// character that has not been read.
pub struct Cursor {
    pub text: Seq<char>,
    pub position: int,
}

/// A cursor over a text. Reading moves it forward and never changes the text.
pub struct Parser {
    text: Vec<char>,
    position: usize,
}

impl View for Parser {
    type V = Cursor;

    closed spec fn view(&self) -> Cursor {
        Cursor { text: self.text@, position: self.position as int }
    }
}

/// Whether a method of the parser went as the grammar says: it returns what
/// `outcome` holds, as a tree with that view or as the same error, and leaves
/// the cursor `after` at the position that `outcome` names.
pub open spec fn follows<T: View>(
    result: Result<T, ParseJsonError>,
    after: Cursor,
    before: Cursor,
    outcome: Outcome<T::V>,
) -> bool {
    &&& after.text == before.text
    &&& match outcome {
        Ok((value, next)) => result matches Ok(read) && read@ == value && after.position == next,
        Err((error, at)) => result matches Err(e) && e == error && after.position == at,
    }
}

impl Parser {
    /// A parser at the start of `source`.
    pub fn new(source: &str) -> (parser: Parser)
        ensures
            parser@.text == source@,
            parser@.position == 0,
    {
        let mut text: Vec<char> = Vec::new();
        for c in it: source.chars()
            invariant
                it.seq() == source@,
                text@ == it.seq().take(it.index() as int),
        {
            text.push(c);
        }
        Parser { text, position: 0 }
    }

    /// How many characters have been read.
    pub fn position(&self) -> (position: usize)
        ensures
            position == self@.position,
    {
        self.position
    }

    /// The next character, which stays unread.
    pub fn peek(&self) -> (next: Option<char>)
        ensures
            next == grammar::peek(self@.text, self@.position),
    {
        if self.position < self.text.len() {
            Some(self.text[self.position])
        } else {
            None
        }
    }

    /// Reads the character `expected`. Where another character stands, or
    /// none, the cursor stays where it is.
    pub fn consume(&mut self, expected: char) -> (result: Result<(), ParseJsonError>)
        ensures
            follows(
                result,
                final(self)@,
                old(self)@,
                grammar::expect(old(self)@.text, old(self)@.position, expected),
            ),
            result is Err ==> final(self)@ == old(self)@,
    {
        if self.position >= self.text.len() {
            Err(ParseJsonError::EndOfString(expected))
        } else if self.text[self.position] == expected {
            self.position += 1;
            Ok(())
        } else {
            Err(ParseJsonError::Expected(expected, self.text[self.position]))
        }
    }

    /// Moves the cursor over spaces, tabs, line feeds and carriage returns to
    /// the first character that is none of them, or to the end of the text.
    pub fn skip_whitespace(&mut self)
        ensures
            final(self)@.text == old(self)@.text,
            final(self)@.position == grammar::whitespace_end(old(self)@.text, old(self)@.position),
            old(self)@.position <= final(self)@.position,
            forall|i: int|
                old(self)@.position <= i < final(self)@.position ==> grammar::is_whitespace(
                    #[trigger] final(self)@.text[i],
                ),
            grammar::peek(final(self)@.text, final(self)@.position) matches Some(c)
                ==> !grammar::is_whitespace(c),
    {
        while self.position < self.text.len() && is_whitespace(self.text[self.position])
            invariant
                self.text == old(self).text,
                old(self).position <= self.position,
                grammar::whitespace_end(old(self)@.text, old(self)@.position)
                    == grammar::whitespace_end(self@.text, self@.position),
                forall|i: int|
                    old(self)@.position <= i < self@.position ==> grammar::is_whitespace(
                        #[trigger] self@.text[i],
                    ),
            decreases self.text.len() - self.position,
        {
            self.position += 1;
        }
    }

    /// Moves the cursor over one character, where one is left.
    fn advance(&mut self)
        ensures
            final(self)@.text == old(self)@.text,
            final(self)@.position == if old(self)@.position < old(self)@.text.len() {
                old(self)@.position + 1
            } else {
                old(self)@.position
            },
    {
        if self.position < self.text.len() {
            self.position += 1;
        }
    }

    /// Whether the next character is `c`.
    fn next_is(&self, c: char) -> (is: bool)
        ensures
            is == (grammar::peek(self@.text, self@.position) == Some(c)),
    {
        self.position < self.text.len() && self.text[self.position] == c
    }

    /// Whether the next character is a digit.
    fn digit_here(&self) -> (is: bool)
        ensures
            is == grammar::digit_at(self@.text, self@.position),
    {
        self.position < self.text.len() && is_digit(self.text[self.position])
    }

    /// Moves the cursor over digits to the first character that is none.
    fn skip_digits(&mut self)
        ensures
            final(self)@.text == old(self)@.text,
            final(self)@.position == grammar::digits_end(old(self)@.text, old(self)@.position),
            old(self)@.position <= final(self)@.position,
            old(self)@.position <= old(self)@.text.len() ==> final(self)@.position <= old(
                self,
            )@.text.len(),
    {
        while self.position < self.text.len() && is_digit(self.text[self.position])
            invariant
                self.text == old(self).text,
                old(self).position <= self.position,
                old(self).position <= self.text.len() ==> self.position <= self.text.len(),
                grammar::digits_end(old(self)@.text, old(self)@.position) == grammar::digits_end(
                    self@.text,
                    self@.position,
                ),
            decreases self.text.len() - self.position,
        {
            self.position += 1;
        }
    }

    /// Reads the characters of `word`, one after the other.
    fn consume_word(&mut self, word: &str) -> (result: Result<(), ParseJsonError>)
        ensures
            follows(
                result,
                final(self)@,
                old(self)@,
                grammar::expect_word(old(self)@.text, old(self)@.position, word@, 0),
            ),
    {
        for c in it: word.chars()
            invariant
                it.seq() == word@,
                self@.text == old(self)@.text,
                grammar::expect_word(old(self)@.text, old(self)@.position, word@, 0)
                    == grammar::expect_word(self@.text, self@.position, word@, it.index() as int),
        {
            match self.consume(c) {
                Err(e) => {
                    return Err(e);
                },
                Ok(()) => {},
            }
        }
        Ok(())
    }

    /// Reads `true`, `false` or `null`. The next character decides which of
    /// them is required: `t`, `f`, and `null` for any other.
    pub fn parse_literal(&mut self) -> (result: Result<Json, ParseJsonError>)
        ensures
            follows(
                result,
                final(self)@,
                old(self)@,
                grammar::literal(old(self)@.text, old(self)@.position),
            ),
    {
        if self.next_is('t') {
            match self.consume_word("true") {
                Err(e) => Err(e),
                Ok(()) => Ok(Json::Boolean(true)),
            }
        } else if self.next_is('f') {
            match self.consume_word("false") {
                Err(e) => Err(e),
                Ok(()) => Ok(Json::Boolean(false)),
            }
        } else {
            match self.consume_word("null") {
                Err(e) => Err(e),
                Ok(()) => Ok(Json::Null),
            }
        }
    }

    /// Reads one hexadecimal digit of a `\u` escape.
    fn read_hex_digit(&mut self) -> (result: Result<u32, ParseJsonError>)
        ensures
            final(self)@.text == old(self)@.text,
            match grammar::hex_digit(old(self)@.text, old(self)@.position) {
                Ok((digit, next)) => result == Ok::<u32, ParseJsonError>(digit as u32) && digit
                    < 16 && final(self)@.position == next,
                Err((error, at)) => result == Err::<u32, ParseJsonError>(error)
                    && final(self)@.position == at,
            },
    {
        if self.position >= self.text.len() {
            return Err(ParseJsonError::EndOfString('"'));
        }
        let c = self.text[self.position];
        let digit = if '0' <= c && c <= '9' {
            c as u32 - '0' as u32
        } else if 'a' <= c && c <= 'f' {
            c as u32 - 'a' as u32 + 10
        } else if 'A' <= c && c <= 'F' {
            c as u32 - 'A' as u32 + 10
        } else {
            return Err(ParseJsonError::InvalidHexDigit(c));
        };
        self.position += 1;
        Ok(digit)
    }

    /// Reads four hexadecimal digits as one number.
    fn read_hex4(&mut self) -> (result: Result<u32, ParseJsonError>)
        ensures
            final(self)@.text == old(self)@.text,
            match grammar::hex4(old(self)@.text, old(self)@.position) {
                Ok((unit, next)) => result == Ok::<u32, ParseJsonError>(unit as u32) && unit
                    < 0x10000 && final(self)@.position == next,
                Err((error, at)) => result == Err::<u32, ParseJsonError>(error)
                    && final(self)@.position == at,
            },
    {
        let a = match self.read_hex_digit() {
            Err(e) => {
                return Err(e);
            },
            Ok(digit) => digit,
        };
        let b = match self.read_hex_digit() {
            Err(e) => {
                return Err(e);
            },
            Ok(digit) => digit,
        };
        let c = match self.read_hex_digit() {
            Err(e) => {
                return Err(e);
            },
            Ok(digit) => digit,
        };
        let d = match self.read_hex_digit() {
            Err(e) => {
                return Err(e);
            },
            Ok(digit) => digit,
        };
        Ok(((a * 16 + b) * 16 + c) * 16 + d)
    }

    /// Reads what follows `\u` and gives the character that it names.
    fn read_unicode_escape(&mut self) -> (result: Result<char, ParseJsonError>)
        ensures
            follows(
                result,
                final(self)@,
                old(self)@,
                grammar::unicode_escape(old(self)@.text, old(self)@.position),
            ),
    {
        let start = self.position;
        let unit = match self.read_hex4() {
            Err(e) => {
                return Err(e);
            },
            Ok(unit) => unit,
        };
        if 0xD800 <= unit && unit <= 0xDBFF {
            match self.consume('\\') {
                Err(e) => {
                    return Err(e);
                },
                Ok(()) => {},
            }
            match self.consume('u') {
                Err(e) => {
                    return Err(e);
                },
                Ok(()) => {},
            }
            let second = self.position;
            let low = match self.read_hex4() {
                Err(e) => {
                    return Err(e);
                },
                Ok(low) => low,
            };
            if 0xDC00 <= low && low <= 0xDFFF {
                let code: u32 = 0x10000 + (unit - 0xD800) * 0x400 + (low - 0xDC00);
                match char::from_u32(code) {
                    Some(c) => Ok(c),
                    None => Err(ParseJsonError::UnpairedSurrogate),
                }
            } else {
                self.position = second;
                Err(ParseJsonError::UnpairedSurrogate)
            }
        } else {
            match char::from_u32(unit) {
                Some(c) => Ok(c),
                None => {
                    self.position = start;
                    Err(ParseJsonError::UnpairedSurrogate)
                },
            }
        }
    }

    /// Reads what follows a backslash and gives the character that the
    /// escape stands for.
    fn read_escape(&mut self) -> (result: Result<char, ParseJsonError>)
        ensures
            follows(
                result,
                final(self)@,
                old(self)@,
                grammar::escape(old(self)@.text, old(self)@.position),
            ),
    {
        if self.position >= self.text.len() {
            return Err(ParseJsonError::EndOfString('"'));
        }
        let c = self.text[self.position];
        let decoded = if c == '"' || c == '\\' || c == '/' {
            c
        } else if c == 'b' {
            '\u{8}'
        } else if c == 'f' {
            '\u{c}'
        } else if c == 'n' {
            '\n'
        } else if c == 'r' {
            '\r'
        } else if c == 't' {
            '\t'
        } else if c == 'u' {
            self.position += 1;
            return self.read_unicode_escape();
        } else {
            return Err(ParseJsonError::InvalidEscape(c));
        };
        self.position += 1;
        Ok(decoded)
    }

    /// Reads a string, quotes included, and gives its decoded text.
    fn read_string(&mut self) -> (result: Result<String, ParseJsonError>)
        ensures
            follows(
                result,
                final(self)@,
                old(self)@,
                grammar::string(old(self)@.text, old(self)@.position),
            ),
            result is Ok ==> old(self)@.position < final(self)@.position,
    {
        match self.consume('"') {
            Err(e) => {
                return Err(e);
            },
            Ok(()) => {},
        }
        let mut text = String::new();
        loop
            invariant
                self@.text == old(self)@.text,
                old(self)@.position < self@.position,
                grammar::string(old(self)@.text, old(self)@.position) == grammar::string_body(
                    self@.text,
                    self@.position,
                    text@,
                ),
            decreases self.text.len() - self.position,
        {
            if self.position >= self.text.len() {
                return Err(ParseJsonError::EndOfString('"'));
            }
            let c = self.text[self.position];
            if c == '"' {
                self.position += 1;
                return Ok(text);
            } else if c == '\\' {
                self.position += 1;
                match self.read_escape() {
                    Err(e) => {
                        return Err(e);
                    },
                    Ok(decoded) => {
                        text.push(decoded);
                    },
                }
            } else if c <= '\u{1f}' {
                return Err(ParseJsonError::ControlCharacter(c));
            } else {
                text.push(c);
                self.position += 1;
            }
        }
    }

    /// Reads a string, quotes included: the characters between the quotes,
    /// with each escape replaced by the character that it stands for.
    pub fn parse_string(&mut self) -> (result: Result<Json, ParseJsonError>)
        ensures
            final(self)@.text == old(self)@.text,
            match grammar::string(old(self)@.text, old(self)@.position) {
                Ok((text, next)) => result matches Ok(read) && read@ == Value::String(text)
                    && final(self)@.position == next,
                Err((error, at)) => result matches Err(e) && e == error && final(self)@.position
                    == at,
            },
    {
        match self.read_string() {
            Err(e) => Err(e),
            Ok(text) => Ok(Json::String(text)),
        }
    }

    /// Moves the cursor over a number, or to where a digit is missing.
    fn skip_number(&mut self) -> (result: Result<(), ParseJsonError>)
        ensures
            final(self)@.text == old(self)@.text,
            match grammar::number_end(old(self)@.text, old(self)@.position) {
                Ok(end) => result is Ok && final(self)@.position == end && old(self)@.position
                    < end <= old(self)@.text.len(),
                Err((error, at)) => result == Err::<(), ParseJsonError>(error)
                    && final(self)@.position == at,
            },
    {
        if self.next_is('-') {
            self.advance();
        }
        if !self.digit_here() {
            return Err(ParseJsonError::MalformedNumber(self.peek()));
        }
        if self.next_is('0') {
            self.advance();
        } else {
            self.advance();
            self.skip_digits();
        }
        if self.next_is('.') {
            self.advance();
            if !self.digit_here() {
                return Err(ParseJsonError::MalformedNumber(self.peek()));
            }
            self.advance();
            self.skip_digits();
        }
        if self.next_is('e') || self.next_is('E') {
            self.advance();
            if self.next_is('+') || self.next_is('-') {
                self.advance();
            }
            if !self.digit_here() {
                return Err(ParseJsonError::MalformedNumber(self.peek()));
            }
            self.advance();
            self.skip_digits();
        }
        Ok(())
    }

    /// Reads a number: a minus sign or none, the integer part without a
    /// leading zero, then a fraction and an exponent where they are written.
    /// The value keeps the lexeme.
    pub fn parse_number(&mut self) -> (result: Result<Json, ParseJsonError>)
        ensures
            final(self)@.text == old(self)@.text,
            match grammar::number(old(self)@.text, old(self)@.position) {
                Ok((lexeme, next)) => result matches Ok(read) && read@ == Value::Number(lexeme)
                    && final(self)@.position == next,
                Err((error, at)) => result matches Err(e) && e == error && final(self)@.position
                    == at,
            },
            result is Ok ==> old(self)@.position < final(self)@.position,
    {
        let start = self.position;
        match self.skip_number() {
            Err(e) => {
                return Err(e);
            },
            Ok(()) => {},
        }
        proof {
            lemma_number_lexeme(self@.text, start as int);
        }
        let mut lexeme = String::new();
        let mut i = start;
        while i < self.position
            invariant
                start <= i <= self.position <= self.text.len(),
                lexeme@ == self.text@.subrange(start as int, i as int),
            decreases self.position - i,
        {
            lexeme.push(self.text[i]);
            i += 1;
        }
        Ok(Json::Number(JsonNumber::from_lexeme(lexeme)))
    }

    /// Reads a value that may hold `depth` levels of arrays and objects.
    fn read_value(&mut self, depth: usize) -> (result: Result<Json, ParseJsonError>)
        ensures
            follows(
                result,
                final(self)@,
                old(self)@,
                grammar::value(old(self)@.text, old(self)@.position, depth as nat),
            ),
            result is Ok ==> old(self)@.position < final(self)@.position,
        decreases depth, 1int,
    {
        self.skip_whitespace();
        match self.peek() {
            None => Err(ParseJsonError::UnexpectedEnd),
            Some(c) => {
                if c == '"' {
                    match self.read_string() {
                        Err(e) => Err(e),
                        Ok(text) => Ok(Json::String(text)),
                    }
                } else if c == '{' {
                    self.read_object(depth)
                } else if c == '[' {
                    self.read_array(depth)
                } else if c == 't' || c == 'f' || c == 'n' {
                    let ghost before = self@;
                    let result = self.parse_literal();
                    proof {
                        lemma_literal_parsed(before.text, before.position);
                    }
                    result
                } else if c == '-' || is_digit(c) {
                    self.parse_number()
                } else {
                    Err(ParseJsonError::Unexpected(c))
                }
            },
        }
    }

    /// Reads an array that may hold `depth` levels, its own included.
    fn read_array(&mut self, depth: usize) -> (result: Result<Json, ParseJsonError>)
        ensures
            follows(
                result,
                final(self)@,
                old(self)@,
                grammar::array(old(self)@.text, old(self)@.position, depth as nat),
            ),
            result is Ok ==> old(self)@.position < final(self)@.position,
        decreases depth, 0int,
    {
        self.skip_whitespace();
        let start = self.position;
        match self.consume('[') {
            Err(e) => {
                return Err(e);
            },
            Ok(()) => {},
        }
        if depth == 0 {
            self.position = start;
            return Err(ParseJsonError::DepthExceeded);
        }
        self.skip_whitespace();
        let mut items: Vec<Json> = Vec::new();
        assert(views(items@) =~= Seq::<Value>::empty());
        if self.next_is(']') {
            self.advance();
            proof {
                lemma_array_view(items);
            }
            return Ok(Json::Array(items));
        }
        loop
            invariant
                self@.text == old(self)@.text,
                old(self)@.position < self@.position,
                depth > 0,
                grammar::array(old(self)@.text, old(self)@.position, depth as nat)
                    == grammar::elements(
                    self@.text,
                    self@.position,
                    (depth - 1) as nat,
                    views(items@),
                ),
            decreases self.text.len() - self.position,
        {
            let ghost read = views(items@);
            let item = match self.read_value(depth - 1) {
                Err(e) => {
                    return Err(e);
                },
                Ok(item) => item,
            };
            items.push(item);
            assert(views(items@) =~= read.push(item@));
            self.skip_whitespace();
            if self.next_is(',') {
                self.advance();
            } else {
                match self.consume(']') {
                    Err(e) => {
                        return Err(e);
                    },
                    Ok(()) => {
                        proof {
                            lemma_array_view(items);
                        }
                        return Ok(Json::Array(items));
                    },
                }
            }
        }
    }

    /// Reads an object that may hold `depth` levels, its own included.
    fn read_object(&mut self, depth: usize) -> (result: Result<Json, ParseJsonError>)
        ensures
            follows(
                result,
                final(self)@,
                old(self)@,
                grammar::object(old(self)@.text, old(self)@.position, depth as nat),
            ),
            result is Ok ==> old(self)@.position < final(self)@.position,
        decreases depth, 0int,
    {
        self.skip_whitespace();
        let start = self.position;
        match self.consume('{') {
            Err(e) => {
                return Err(e);
            },
            Ok(()) => {},
        }
        if depth == 0 {
            self.position = start;
            return Err(ParseJsonError::DepthExceeded);
        }
        self.skip_whitespace();
        let mut object = JsonObject::new();
        if self.next_is('}') {
            self.advance();
            return Ok(Json::Object(object));
        }
        loop
            invariant
                self@.text == old(self)@.text,
                old(self)@.position < self@.position,
                depth > 0,
                grammar::object(old(self)@.text, old(self)@.position, depth as nat)
                    == grammar::members(self@.text, self@.position, (depth - 1) as nat, object@),
            decreases self.text.len() - self.position,
        {
            self.skip_whitespace();
            let key = match self.read_string() {
                Err(e) => {
                    return Err(e);
                },
                Ok(key) => key,
            };
            self.skip_whitespace();
            match self.consume(':') {
                Err(e) => {
                    return Err(e);
                },
                Ok(()) => {},
            }
            let item = match self.read_value(depth - 1) {
                Err(e) => {
                    return Err(e);
                },
                Ok(item) => item,
            };
            object.insert(key, item);
            self.skip_whitespace();
            if self.next_is(',') {
                self.advance();
            } else {
                match self.consume('}') {
                    Err(e) => {
                        return Err(e);
                    },
                    Ok(()) => {
                        return Ok(Json::Object(object));
                    },
                }
            }
        }
    }

    /// Reads a value after the whitespace that may stand before it: a
    /// string, an object, an array, `true`, `false`, `null` or a number, as the
    /// first character tells.
    pub fn parse_value(&mut self) -> (result: Result<Json, ParseJsonError>)
        ensures
            follows(
                result,
                final(self)@,
                old(self)@,
                grammar::value(old(self)@.text, old(self)@.position, MAX_DEPTH as nat),
            ),
    {
        self.read_value(MAX_DEPTH)
    }

    /// Reads an array after the whitespace that may stand before it.
    pub fn parse_array(&mut self) -> (result: Result<Json, ParseJsonError>)
        ensures
            follows(
                result,
                final(self)@,
                old(self)@,
                grammar::array(old(self)@.text, old(self)@.position, MAX_DEPTH as nat),
            ),
    {
        self.read_array(MAX_DEPTH)
    }

    /// Reads an object after the whitespace that may stand before it. Of two
    /// members with one key the later value stays, at the place of the first.
    pub fn parse_object(&mut self) -> (result: Result<Json, ParseJsonError>)
        ensures
            follows(
                result,
                final(self)@,
                old(self)@,
                grammar::object(old(self)@.text, old(self)@.position, MAX_DEPTH as nat),
            ),
    {
        self.read_object(MAX_DEPTH)
    }

    /// Reads a whole document: one value, and nothing but whitespace up to
    /// the end of the text.
    pub fn parse_document(&mut self) -> (result: Result<Json, ParseJsonError>)
        ensures
            follows(
                result,
                final(self)@,
                old(self)@,
                grammar::document(old(self)@.text, old(self)@.position),
            ),
    {
        let root = match self.read_value(MAX_DEPTH) {
            Err(e) => {
                return Err(e);
            },
            Ok(root) => root,
        };
        self.skip_whitespace();
        match self.peek() {
            None => Ok(root),
            Some(c) => Err(ParseJsonError::Trailing(c)),
        }
    }
}

/// Parses `text` as one JSON document.
///
/// The result is a tree exactly when `text` is a JSON document: a value that
/// the grammar allows, with nothing but whitespace around it, and with no
/// more than [`MAX_DEPTH`] arrays and objects inside one another. Otherwise it
/// is the first error that reading the text from left to right meets. A
/// [`Parser`] that is asked for its position after
/// [`parse_document`](Parser::parse_document) tells where that was.
pub fn parse(text: &str) -> (result: Result<Json, ParseJsonError>)
    ensures
        result is Ok <==> is_document(text@),
        match grammar::document(text@, 0) {
            Ok((root, _)) => result matches Ok(read) && read@ == root,
            Err((error, _)) => result matches Err(e) && e == error,
        },
        result matches Ok(read) ==> read@.well_formed() && read@.nests_within(MAX_DEPTH as nat),
{
    proof {
        lemma_parses_iff_document(text@);
        lemma_parsed_value(text@);
    }
    let mut parser = Parser::new(text);
    parser.parse_document()
}

impl JsonNumber {
    /// The number with the lexeme `lexeme`, where that is a number from its
    /// first character to its last: a minus sign or none, an integer part
    /// without a leading zero, then a fraction and an exponent or neither.
    pub fn new(lexeme: &str) -> (number: Option<JsonNumber>)
        ensures
            match number {
                Some(number) => grammar::is_number(lexeme@) && number@ == lexeme@,
                None => !grammar::is_number(lexeme@),
            },
    {
        let mut parser = Parser::new(lexeme);
        match parser.skip_number() {
            Err(_) => None,
            Ok(()) => {
                if parser.position == parser.text.len() {
                    Some(JsonNumber::from_lexeme(lexeme.to_owned()))
                } else {
                    None
                }
            },
        }
    }
}

impl std::str::FromStr for Json {
    type Err = ParseJsonError;

    /// Parses `text` as one JSON document, as [`parse`] does.
    fn from_str(text: &str) -> (result: Result<Json, ParseJsonError>)
        ensures
            result is Ok <==> is_document(text@),
            match grammar::document(text@, 0) {
                Ok((root, _)) => result matches Ok(read) && read@ == root,
                Err((error, _)) => result matches Err(e) && e == error,
            },
            result matches Ok(read) ==> read@.well_formed() && read@.nests_within(
                MAX_DEPTH as nat,
            ),
    {
        parse(text)
    }
}

fn is_whitespace(c: char) -> (whitespace: bool)
    ensures
        whitespace == grammar::is_whitespace(c),
{
    c == ' ' || c == '\t' || c == '\n' || c == '\r'
}

fn is_digit(c: char) -> (digit: bool)
    ensures
        digit == grammar::is_digit(c),
{
    '0' <= c && c <= '9'
}

} // verus!
