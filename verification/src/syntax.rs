//! JSON documents as the grammar derives them.
//!
//! A [`Syntax`] tree is one way of writing a value down: it fixes the
//! whitespace between the tokens and the form of every character of a string.
//! Its [`text`](Syntax::text) is the document, its [`value`](Syntax::value) is
//! what the document means. The laws of this library are stated over such
//! trees: a text is a JSON document when a valid tree writes it.
use crate::grammar::{
    hex_value, is_control, is_hex_digit, is_high_surrogate, is_low_surrogate, is_number,
    is_whitespace, pair_value, short_escape, MAX_DEPTH,
};
use crate::value::{with_entry, Entries, Value};
use vstd::prelude::*;

verus! {

/// Every character of `gap` is whitespace.
pub open spec fn all_whitespace(gap: Seq<char>) -> bool {
    forall|k: int| 0 <= k < gap.len() ==> is_whitespace(#[trigger] gap[k])
}

/// `digits` are four hexadecimal digits.
pub open spec fn is_hex4(digits: Seq<char>) -> bool {
    digits.len() == 4 && forall|k: int| 0 <= k < 4 ==> is_hex_digit(#[trigger] digits[k])
}

/// The number that four hexadecimal digits stand for.
pub open spec fn hex4_value(digits: Seq<char>) -> int {
    ((hex_value(digits[0]) * 16 + hex_value(digits[1])) * 16 + hex_value(digits[2])) * 16
        + hex_value(digits[3])
}

/// One character of a string, in the form in which a document writes it.
pub enum Piece {
    /// The character itself: any but the quote, the backslash and the control
    /// characters.
    Plain(char),
    /// A backslash and this letter, one of `"`, `\`, `/`, `b`, `f`, `n`, `r`, `t`.
    Short(char),
    /// `\u` and these four hexadecimal digits, which name no surrogate.
    Unicode(Seq<char>),
    /// `\u` and four digits that name the first half of a surrogate pair, then
    /// `\u` and four digits that name the second half.
    Pair(Seq<char>, Seq<char>),
}

impl Piece {
    /// The piece is one that the grammar allows.
    pub open spec fn valid(self) -> bool {
        match self {
            Piece::Plain(c) => c != '"' && c != '\\' && !is_control(c),
            Piece::Short(letter) => short_escape(letter) is Some,
            Piece::Unicode(digits) => is_hex4(digits) && !is_high_surrogate(hex4_value(digits))
                && !is_low_surrogate(hex4_value(digits)),
            Piece::Pair(high, low) => is_hex4(high) && is_hex4(low) && is_high_surrogate(
                hex4_value(high),
            ) && is_low_surrogate(hex4_value(low)),
        }
    }

    /// The characters that the document holds for the piece.
    pub open spec fn text(self) -> Seq<char> {
        match self {
            Piece::Plain(c) => seq![c],
            Piece::Short(letter) => seq!['\\', letter],
            Piece::Unicode(digits) => seq!['\\', 'u'] + digits,
            Piece::Pair(high, low) => seq!['\\', 'u'] + high + seq!['\\', 'u'] + low,
        }
    }

    /// The character that the piece stands for.
    pub open spec fn character(self) -> char {
        match self {
            Piece::Plain(c) => c,
            Piece::Short(letter) => short_escape(letter).unwrap(),
            Piece::Unicode(digits) => hex4_value(digits) as char,
            Piece::Pair(high, low) => pair_value(hex4_value(high), hex4_value(low)) as char,
        }
    }
}

/// The characters that the document holds for the pieces from index `from` on.
pub open spec fn pieces_text(pieces: Seq<Piece>, from: int) -> Seq<char>
    decreases pieces.len() - from,
{
    if from < 0 || from >= pieces.len() {
        Seq::empty()
    } else {
        pieces[from].text() + pieces_text(pieces, from + 1)
    }
}

/// The characters that the pieces stand for.
pub open spec fn characters(pieces: Seq<Piece>) -> Seq<char> {
    Seq::new(pieces.len(), |k: int| pieces[k].character())
}

/// Every piece is one that the grammar allows.
pub open spec fn pieces_valid(pieces: Seq<Piece>) -> bool {
    forall|k: int| 0 <= k < pieces.len() ==> (#[trigger] pieces[k]).valid()
}

/// A string as a document writes it: the pieces between two quotes.
pub open spec fn string_text(pieces: Seq<Piece>) -> Seq<char> {
    seq!['"'] + pieces_text(pieces, 0) + seq!['"']
}

/// A value with the whitespace that the document holds around it.
pub struct Element {
    pub before: Seq<char>,
    pub value: Syntax,
    pub after: Seq<char>,
}

/// A member of an object: whitespace, the key, whitespace, a colon, and the
/// value as an element.
pub struct Member {
    pub before: Seq<char>,
    pub key: Seq<Piece>,
    pub between: Seq<char>,
    pub element: Element,
}

/// A value as a document writes it.
pub enum Syntax {
    Null,
    True,
    False,
    /// A number, by its lexeme.
    Number(Seq<char>),
    /// A string, by its pieces.
    String(Seq<Piece>),
    /// An array, by its elements. Where it has none, the whitespace between
    /// the brackets.
    Array(Seq<char>, Seq<Element>),
    /// An object, by its members. Where it has none, the whitespace between
    /// the braces.
    Object(Seq<char>, Seq<Member>),
}

impl Element {
    /// The document writes the element as the grammar allows.
    pub open spec fn valid(self) -> bool
        decreases self, 0nat,
    {
        all_whitespace(self.before) && self.value.valid() && all_whitespace(self.after)
    }

    /// The characters of the element.
    pub open spec fn text(self) -> Seq<char>
        decreases self, 0nat,
    {
        self.before + self.value.text() + self.after
    }

    /// The element without its whitespace.
    pub open spec fn stripped(self) -> Element
        decreases self, 0nat,
    {
        Element { before: Seq::empty(), value: self.value.stripped(), after: Seq::empty() }
    }
}

impl Member {
    /// The document writes the member as the grammar allows.
    pub open spec fn valid(self) -> bool
        decreases self, 0nat,
    {
        all_whitespace(self.before) && pieces_valid(self.key) && all_whitespace(self.between)
            && self.element.valid()
    }

    /// The characters of the member.
    pub open spec fn text(self) -> Seq<char>
        decreases self, 0nat,
    {
        self.before + string_text(self.key) + self.between + seq![':'] + self.element.text()
    }

    /// The member without its whitespace.
    pub open spec fn stripped(self) -> Member
        decreases self, 0nat,
    {
        Member {
            before: Seq::empty(),
            key: self.key,
            between: Seq::empty(),
            element: self.element.stripped(),
        }
    }
}

/// The characters of the elements from index `from` on, with a comma between
/// each two.
pub open spec fn elements_text(elements: Seq<Element>, from: int) -> Seq<char>
    decreases elements, elements.len() - from,
{
    if from < 0 || from >= elements.len() {
        Seq::empty()
    } else if from == elements.len() - 1 {
        elements[from].text()
    } else {
        elements[from].text() + seq![','] + elements_text(elements, from + 1)
    }
}

/// The characters of the members from index `from` on, with a comma between
/// each two.
pub open spec fn members_text(members: Seq<Member>, from: int) -> Seq<char>
    decreases members, members.len() - from,
{
    if from < 0 || from >= members.len() {
        Seq::empty()
    } else if from == members.len() - 1 {
        members[from].text()
    } else {
        members[from].text() + seq![','] + members_text(members, from + 1)
    }
}

/// The entries that an object has when the members from index `from` on are
/// stored one after the other in `entries`.
pub open spec fn stored(members: Seq<Member>, from: int, entries: Entries) -> Entries
    decreases members, members.len() - from,
{
    if from < 0 || from >= members.len() {
        entries
    } else {
        stored(
            members,
            from + 1,
            with_entry(
                entries,
                characters(members[from].key),
                members[from].element.value.value(),
            ),
        )
    }
}

/// The values that the elements stand for, in their order.
pub open spec fn element_values(elements: Seq<Element>) -> Seq<Value> {
    Seq::new(elements.len(), |k: int| elements[k].value.value())
}

impl Syntax {
    /// The document writes the value as the grammar allows.
    pub open spec fn valid(self) -> bool
        decreases self, 0nat,
    {
        match self {
            Syntax::Null | Syntax::True | Syntax::False => true,
            Syntax::Number(lexeme) => is_number(lexeme),
            Syntax::String(pieces) => pieces_valid(pieces),
            Syntax::Array(gap, elements) => all_whitespace(gap) && forall|k: int|
                0 <= k < elements.len() ==> (#[trigger] elements[k]).valid(),
            Syntax::Object(gap, members) => all_whitespace(gap) && forall|k: int|
                0 <= k < members.len() ==> (#[trigger] members[k]).valid(),
        }
    }

    /// No more than `depth` arrays and objects stand inside one another.
    pub open spec fn nests_within(self, depth: nat) -> bool
        decreases self, 0nat,
    {
        match self {
            Syntax::Array(_, elements) => depth > 0 && forall|k: int|
                0 <= k < elements.len() ==> (#[trigger] elements[k]).value.nests_within(
                    (depth - 1) as nat,
                ),
            Syntax::Object(_, members) => depth > 0 && forall|k: int|
                0 <= k < members.len() ==> (#[trigger] members[k]).element.value.nests_within(
                    (depth - 1) as nat,
                ),
            _ => true,
        }
    }

    /// The characters of the document.
    pub open spec fn text(self) -> Seq<char>
        decreases self, 0nat,
    {
        match self {
            Syntax::Null => "null"@,
            Syntax::True => "true"@,
            Syntax::False => "false"@,
            Syntax::Number(lexeme) => lexeme,
            Syntax::String(pieces) => string_text(pieces),
            Syntax::Array(gap, elements) => if elements.len() == 0 {
                seq!['['] + gap + seq![']']
            } else {
                seq!['['] + elements_text(elements, 0) + seq![']']
            },
            Syntax::Object(gap, members) => if members.len() == 0 {
                seq!['{'] + gap + seq!['}']
            } else {
                seq!['{'] + members_text(members, 0) + seq!['}']
            },
        }
    }

    /// The value that the document stands for. Of two members of an object
    /// with one key, the later value stays, at the place of the first.
    pub open spec fn value(self) -> Value
        decreases self, 0nat,
    {
        match self {
            Syntax::Null => Value::Null,
            Syntax::True => Value::Boolean(true),
            Syntax::False => Value::Boolean(false),
            Syntax::Number(lexeme) => Value::Number(lexeme),
            Syntax::String(pieces) => Value::String(characters(pieces)),
            Syntax::Array(_, elements) => Value::Array(
                Seq::new(
                    elements.len(),
                    |k: int|
                        if 0 <= k < elements.len() {
                            elements[k].value.value()
                        } else {
                            Value::Null
                        },
                ),
            ),
            Syntax::Object(_, members) => Value::Object(stored(members, 0, Seq::empty())),
        }
    }

    /// The same tokens without the whitespace between them.
    pub open spec fn stripped(self) -> Syntax
        decreases self, 0nat,
    {
        match self {
            Syntax::Array(_, elements) => Syntax::Array(
                Seq::empty(),
                Seq::new(
                    elements.len(),
                    |k: int|
                        if 0 <= k < elements.len() {
                            elements[k].stripped()
                        } else {
                            elements[k]
                        },
                ),
            ),
            Syntax::Object(_, members) => Syntax::Object(
                Seq::empty(),
                Seq::new(
                    members.len(),
                    |k: int|
                        if 0 <= k < members.len() {
                            members[k].stripped()
                        } else {
                            members[k]
                        },
                ),
            ),
            other => other,
        }
    }
}

/// `s` is a JSON document that the parser follows to the end: the text of a
/// value that the grammar allows, with whitespace around it and no more than
/// [`MAX_DEPTH`] arrays and objects inside one another.
pub open spec fn is_document(s: Seq<char>) -> bool {
    exists|written: Element|
        written.valid() && written.value.nests_within(MAX_DEPTH as nat) && #[trigger] written.text()
            == s
}

/// The hexadecimal digit that stands for `n`, a number below sixteen.
pub open spec fn hex_digit_of(n: int) -> char {
    if n < 10 {
        ('0' as int + n) as char
    } else {
        ('a' as int + n - 10) as char
    }
}

/// The piece that [`encoding`] writes for `c`: an escape for the quote, the
/// backslash and the control characters, and the character itself for any
/// other.
pub open spec fn piece_of(c: char) -> Piece {
    if c == '"' || c == '\\' {
        Piece::Short(c)
    } else if is_control(c) {
        Piece::Unicode(seq!['0', '0', hex_digit_of(c as int / 16), hex_digit_of(c as int % 16)])
    } else {
        Piece::Plain(c)
    }
}

/// The pieces that [`encoding`] writes for the characters of a string.
pub open spec fn pieces_of(text: Seq<char>) -> Seq<Piece> {
    Seq::new(text.len(), |k: int| piece_of(text[k]))
}

/// The tree that [`encoding`] writes for `value`.
pub open spec fn canonical(value: Value) -> Syntax
    decreases value,
{
    match value {
        Value::Null => Syntax::Null,
        Value::Boolean(b) => if b {
            Syntax::True
        } else {
            Syntax::False
        },
        Value::Number(lexeme) => Syntax::Number(lexeme),
        Value::String(text) => Syntax::String(pieces_of(text)),
        Value::Array(items) => Syntax::Array(
            Seq::empty(),
            Seq::new(
                items.len(),
                |k: int|
                    Element {
                        before: Seq::empty(),
                        value: if 0 <= k < items.len() {
                            canonical(items[k])
                        } else {
                            Syntax::Null
                        },
                        after: Seq::empty(),
                    },
            ),
        ),
        Value::Object(entries) => Syntax::Object(
            Seq::empty(),
            Seq::new(
                entries.len(),
                |k: int|
                    Member {
                        before: Seq::empty(),
                        key: pieces_of(entries[k].0),
                        between: Seq::empty(),
                        element: Element {
                            before: Seq::empty(),
                            value: if 0 <= k < entries.len() {
                                canonical(entries[k].1)
                            } else {
                                Syntax::Null
                            },
                            after: Seq::empty(),
                        },
                    },
            ),
        ),
    }
}

/// One way of writing `value` down as a document: without whitespace, and
/// with an escape only where a string needs one.
pub open spec fn encoding(value: Value) -> Seq<char> {
    canonical(value).text()
}

} // verus!
