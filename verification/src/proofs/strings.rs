//! Words and strings: what is read where a text holds them, and what a
//! text holds where they were read.
use crate::grammar::{
    done, escape, expect_word, hex4, is_control, is_high_surrogate, literal, peek, string,
    string_body,
};
use crate::proofs::windows::{holds, lemma_holds_both, lemma_holds_joined, lemma_holds_peek};
use crate::syntax::{
    characters, hex4_value, is_hex4, pieces_text, pieces_valid, string_text, Piece, Syntax,
};
use vstd::prelude::*;

verus! {

/// A word that the text holds is read to its end.
pub proof fn lemma_word_read(s: Seq<char>, i: int, word: Seq<char>, from: int)
    requires
        holds(s, i, word),
        0 <= from <= word.len(),
    ensures
        expect_word(s, i + from, word, from) == done((), i + word.len()),
    decreases word.len() - from,
{
    if from < word.len() {
        lemma_holds_peek(s, i, word, from);
        lemma_word_read(s, i, word, from + 1);
    }
}

/// A word that was read ends as many characters on as it has, within the
/// text.
pub proof fn lemma_word_end(s: Seq<char>, i: int, word: Seq<char>, from: int)
    requires
        0 <= i,
        0 <= from <= word.len(),
    ensures
        expect_word(s, i, word, from) matches Ok((_, next)) ==> next == i + word.len() - from
            && (from < word.len() ==> next <= s.len()),
    decreases word.len() - from,
{
    if from < word.len() {
        lemma_word_end(s, i + 1, word, from + 1);
    }
}

/// The text holds a word that was read.
pub proof fn lemma_word_held(s: Seq<char>, i: int, word: Seq<char>, from: int)
    requires
        0 <= i,
        0 <= from <= word.len(),
        expect_word(s, i, word, from) is Ok,
    ensures
        forall|k: int| from <= k < word.len() ==> peek(s, i + k - from) == Some(#[trigger] word[k]),
        from < word.len() ==> i + word.len() - from <= s.len(),
    decreases word.len() - from,
{
    if from < word.len() {
        lemma_word_held(s, i + 1, word, from + 1);
    }
}

/// `null`, `true` or `false` that the text holds is read as its value.
pub proof fn lemma_literal_read(s: Seq<char>, start: int, x: Syntax)
    requires
        x is Null || x is True || x is False,
        holds(s, start, x.text()),
    ensures
        literal(s, start) == done(x.value(), start + x.text().len()),
{
    reveal_strlit("null");
    reveal_strlit("true");
    reveal_strlit("false");
    lemma_holds_peek(s, start, x.text(), 0);
    lemma_word_read(s, start, x.text(), 0);
}

/// `true`, `false` and `null` end behind their start and within the text,
/// and are well-formed values without depth.
pub proof fn lemma_literal_parsed(s: Seq<char>, i: int)
    requires
        0 <= i,
    ensures
        literal(s, i) matches Ok((read, next)) ==> i < next <= s.len() && (read is Null
            || read is Boolean),
{
    reveal_strlit("true");
    reveal_strlit("false");
    reveal_strlit("null");
    lemma_word_end(s, i, "true"@, 0);
    lemma_word_end(s, i, "false"@, 0);
    lemma_word_end(s, i, "null"@, 0);
}

/// The text holds `true`, `false` or `null` where one of them was read.
pub proof fn lemma_literal_written(s: Seq<char>, i: int) -> (x: Syntax)
    requires
        0 <= i,
        literal(s, i) is Ok,
    ensures
        x is Null || x is True || x is False,
        holds(s, i, x.text()),
        literal(s, i) == done(x.value(), i + x.text().len()),
{
    reveal_strlit("true");
    reveal_strlit("false");
    reveal_strlit("null");
    let x = if peek(s, i) == Some('t') {
        Syntax::True
    } else if peek(s, i) == Some('f') {
        Syntax::False
    } else {
        Syntax::Null
    };
    let word = x.text();
    lemma_word_held(s, i, word, 0);
    lemma_word_end(s, i, word, 0);
    assert(s.subrange(i, i + word.len()) =~= word) by {
        assert forall|k: int| 0 <= k < word.len() implies s.subrange(i, i + word.len())[k]
            == word[k] by {
            assert(peek(s, i + k - 0) == Some(word[k]));
        }
    }
    x
}

/// Four hexadecimal digits that the text holds are read as their number.
pub proof fn lemma_hex4_read(s: Seq<char>, i: int, digits: Seq<char>)
    requires
        holds(s, i, digits),
        is_hex4(digits),
    ensures
        hex4(s, i) == done(hex4_value(digits), i + 4),
        0 <= hex4_value(digits) < 0x10000,
{
    lemma_holds_peek(s, i, digits, 0);
    lemma_holds_peek(s, i, digits, 1);
    lemma_holds_peek(s, i, digits, 2);
    lemma_holds_peek(s, i, digits, 3);
}

/// The text holds the four hexadecimal digits that were read.
pub proof fn lemma_hex4_written(s: Seq<char>, i: int)
    requires
        0 <= i,
        hex4(s, i) is Ok,
    ensures
        i + 4 <= s.len(),
        is_hex4(s.subrange(i, i + 4)),
        hex4(s, i) == done(hex4_value(s.subrange(i, i + 4)), i + 4),
{
}

/// Reading a string goes over a piece that the text holds, and takes the
/// character that it stands for.
pub proof fn lemma_piece_read(s: Seq<char>, i: int, piece: Piece, text: Seq<char>)
    requires
        holds(s, i, piece.text()),
        piece.valid(),
    ensures
        string_body(s, i, text) == string_body(
            s,
            i + piece.text().len(),
            text.push(piece.character()),
        ),
        piece.text().len() > 0,
{
    match piece {
        Piece::Plain(c) => {
            lemma_holds_peek(s, i, piece.text(), 0);
        },
        Piece::Short(letter) => {
            lemma_holds_peek(s, i, piece.text(), 0);
            lemma_holds_peek(s, i, piece.text(), 1);
        },
        Piece::Unicode(digits) => {
            lemma_holds_both(s, i, seq!['\\', 'u'], digits);
            lemma_holds_peek(s, i, seq!['\\', 'u'], 0);
            lemma_holds_peek(s, i, seq!['\\', 'u'], 1);
            lemma_hex4_read(s, i + 2, digits);
        },
        Piece::Pair(high, low) => {
            let mark = seq!['\\', 'u'];
            lemma_holds_both(s, i, mark + high + mark, low);
            lemma_holds_both(s, i, mark + high, mark);
            lemma_holds_both(s, i, mark, high);
            lemma_holds_peek(s, i, mark, 0);
            lemma_holds_peek(s, i, mark, 1);
            lemma_hex4_read(s, i + 2, high);
            lemma_holds_peek(s, i + 6, mark, 0);
            lemma_holds_peek(s, i + 6, mark, 1);
            lemma_hex4_read(s, i + 8, low);
        },
    }
}

/// The inside of a string that the text holds, from the piece `from` on and
/// with the closing quote, is read to the end.
pub proof fn lemma_string_body_read(s: Seq<char>, i: int, pieces: Seq<Piece>, from: int)
    requires
        holds(s, i, pieces_text(pieces, from) + seq!['"']),
        pieces_valid(pieces),
        0 <= from <= pieces.len(),
    ensures
        string_body(s, i, characters(pieces).take(from)) == done(
            characters(pieces),
            i + pieces_text(pieces, from).len() + 1,
        ),
    decreases pieces.len() - from,
{
    let rest = pieces_text(pieces, from);
    lemma_holds_both(s, i, rest, seq!['"']);
    if from == pieces.len() {
        lemma_holds_peek(s, i, seq!['"'], 0);
        assert(characters(pieces).take(from) =~= characters(pieces));
    } else {
        let piece = pieces[from];
        let later = pieces_text(pieces, from + 1);
        assert(rest + seq!['"'] =~= piece.text() + (later + seq!['"']));
        lemma_holds_both(s, i, piece.text(), later + seq!['"']);
        lemma_piece_read(s, i, piece, characters(pieces).take(from));
        assert(characters(pieces).take(from).push(piece.character()) =~= characters(pieces).take(
            from + 1,
        ));
        lemma_string_body_read(s, i + piece.text().len(), pieces, from + 1);
    }
}

/// A string that the text holds is read as the characters that its pieces
/// stand for.
pub proof fn lemma_string_read(s: Seq<char>, i: int, pieces: Seq<Piece>)
    requires
        holds(s, i, string_text(pieces)),
        pieces_valid(pieces),
    ensures
        string(s, i) == done(characters(pieces), i + string_text(pieces).len()),
{
    let inside = pieces_text(pieces, 0);
    assert(string_text(pieces) =~= seq!['"'] + (inside + seq!['"']));
    lemma_holds_both(s, i, seq!['"'], inside + seq!['"']);
    lemma_holds_peek(s, i, seq!['"'], 0);
    assert(characters(pieces).take(0) =~= Seq::<char>::empty());
    lemma_string_body_read(s, i + 1, pieces, 0);
}

/// An escape ends behind its start and within the text.
pub proof fn lemma_escape_end(s: Seq<char>, i: int)
    requires
        0 <= i,
    ensures
        escape(s, i) matches Ok((_, next)) ==> i < next <= s.len(),
{
}

/// The inside of a string ends behind its start and within the text.
pub proof fn lemma_string_body_end(s: Seq<char>, i: int, text: Seq<char>)
    requires
        0 <= i,
    ensures
        string_body(s, i, text) matches Ok((_, next)) ==> i < next <= s.len(),
    decreases s.len() - i,
{
    match peek(s, i) {
        None => {},
        Some(c) => {
            if c == '"' {
            } else if c == '\\' {
                lemma_escape_end(s, i + 1);
                match escape(s, i + 1) {
                    Err(_) => {},
                    Ok((decoded, next)) => {
                        lemma_string_body_end(s, next, text.push(decoded));
                    },
                }
            } else if is_control(c) {
            } else {
                lemma_string_body_end(s, i + 1, text.push(c));
            }
        },
    }
}

/// A string ends behind its start and within the text.
pub proof fn lemma_string_end(s: Seq<char>, i: int)
    requires
        0 <= i,
    ensures
        string(s, i) matches Ok((_, next)) ==> i < next <= s.len(),
{
    lemma_string_body_end(s, i + 1, Seq::empty());
}

/// The characters of the pieces behind the first are those of the pieces
/// without the first.
pub proof fn lemma_pieces_text_shift(head: Piece, tail: Seq<Piece>, from: int)
    requires
        0 <= from <= tail.len(),
    ensures
        pieces_text(seq![head] + tail, from + 1) == pieces_text(tail, from),
    decreases tail.len() - from,
{
    let all = seq![head] + tail;
    assert(seq![head].len() == 1);
    if from < tail.len() {
        assert(all[from + 1] == tail[from]);
        lemma_pieces_text_shift(head, tail, from + 1);
    }
}

/// A piece before other pieces: the characters written, the characters
/// meant, and whether the grammar allows them.
pub proof fn lemma_pieces_cons(head: Piece, tail: Seq<Piece>)
    ensures
        pieces_text(seq![head] + tail, 0) == head.text() + pieces_text(tail, 0),
        characters(seq![head] + tail) == seq![head.character()] + characters(tail),
        head.valid() && pieces_valid(tail) ==> pieces_valid(seq![head] + tail),
{
    let pieces = seq![head] + tail;
    assert(seq![head].len() == 1);
    assert(pieces[0] == head);
    lemma_pieces_text_shift(head, tail, 0);
    assert(characters(pieces) =~= seq![head.character()] + characters(tail));
    if head.valid() && pieces_valid(tail) {
        assert forall|k: int| 0 <= k < pieces.len() implies (#[trigger] pieces[k]).valid() by {
            if k > 0 {
                assert(pieces[k] == tail[k - 1]);
            }
        }
    }
}

/// The text holds an escape that was read, as a piece that the grammar
/// allows and that stands for the character read.
pub proof fn lemma_escape_written(s: Seq<char>, i: int) -> (piece: Piece)
    requires
        0 <= i,
        peek(s, i) == Some('\\'),
        escape(s, i + 1) is Ok,
    ensures
        piece.valid(),
        holds(s, i, piece.text()),
        escape(s, i + 1) == done(piece.character(), i + piece.text().len()),
{
    let letter = s[i + 1];
    if letter == 'u' {
        lemma_hex4_written(s, i + 2);
        let high = s.subrange(i + 2, i + 6);
        if is_high_surrogate(hex4_value(high)) {
            lemma_hex4_written(s, i + 8);
            let low = s.subrange(i + 8, i + 12);
            let pair = Piece::Pair(high, low);
            assert(s.subrange(i, i + 12) =~= pair.text());
            pair
        } else {
            let unit = Piece::Unicode(high);
            assert(s.subrange(i, i + 6) =~= unit.text());
            unit
        }
    } else {
        let short = Piece::Short(letter);
        assert(s.subrange(i, i + 2) =~= short.text());
        short
    }
}

/// The text holds the first piece of the inside of a string that was read
/// and does not end at once: a piece that the grammar allows, behind which
/// reading goes on with the character that the piece stands for.
pub proof fn lemma_piece_written(s: Seq<char>, i: int, text: Seq<char>) -> (piece: Piece)
    requires
        0 <= i,
        string_body(s, i, text) is Ok,
        peek(s, i) != Some('"'),
    ensures
        piece.valid(),
        holds(s, i, piece.text()),
        piece.text().len() > 0,
        string_body(s, i, text) == string_body(
            s,
            i + piece.text().len(),
            text.push(piece.character()),
        ),
{
    if s[i] == '\\' {
        lemma_escape_written(s, i)
    } else {
        let plain = Piece::Plain(s[i]);
        assert(s.subrange(i, i + 1) =~= plain.text());
        plain
    }
}

/// The text holds the inside of a string that was read, as pieces that the
/// grammar allows and that stand for the characters read.
pub proof fn lemma_string_body_written(s: Seq<char>, i: int, text: Seq<char>) -> (pieces: Seq<
    Piece,
>)
    requires
        0 <= i,
        string_body(s, i, text) is Ok,
    ensures
        pieces_valid(pieces),
        holds(s, i, pieces_text(pieces, 0) + seq!['"']),
        string_body(s, i, text) == done(
            text + characters(pieces),
            i + pieces_text(pieces, 0).len() + 1,
        ),
    decreases s.len() - i,
{
    lemma_string_body_end(s, i, text);
    if peek(s, i) == Some('"') {
        let none = Seq::<Piece>::empty();
        assert(s.subrange(i, i + 1) =~= pieces_text(none, 0) + seq!['"']);
        assert(text + characters(none) =~= text);
        none
    } else {
        let piece = lemma_piece_written(s, i, text);
        let next = i + piece.text().len();
        lemma_string_body_end(s, next, text.push(piece.character()));
        let tail = lemma_string_body_written(s, next, text.push(piece.character()));
        lemma_pieces_cons(piece, tail);
        lemma_holds_joined(s, i, piece.text(), pieces_text(tail, 0) + seq!['"']);
        assert(piece.text() + (pieces_text(tail, 0) + seq!['"']) =~= piece.text() + pieces_text(
            tail,
            0,
        ) + seq!['"']);
        assert(text.push(piece.character()) + characters(tail) =~= text + (seq![
            piece.character(),
        ] + characters(tail)));
        seq![piece] + tail
    }
}

/// The text holds a string that was read, as pieces that the grammar allows
/// and that stand for the characters read.
pub proof fn lemma_string_written(s: Seq<char>, i: int) -> (pieces: Seq<Piece>)
    requires
        0 <= i,
        string(s, i) is Ok,
    ensures
        pieces_valid(pieces),
        holds(s, i, string_text(pieces)),
        string(s, i) == done(characters(pieces), i + string_text(pieces).len()),
{
    let inside = lemma_string_body_written(s, i + 1, Seq::empty());
    assert(s.subrange(i, i + 1) =~= seq!['"']);
    lemma_holds_joined(s, i, seq!['"'], pieces_text(inside, 0) + seq!['"']);
    assert(seq!['"'] + (pieces_text(inside, 0) + seq!['"']) =~= string_text(inside));
    assert(Seq::<char>::empty() + characters(inside) =~= characters(inside));
    inside
}

} // verus!
