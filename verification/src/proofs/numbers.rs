//! Numbers: where digits end, and that a number is read alike wherever a
//! text holds its characters.
use crate::error::ParseJsonError;
use crate::grammar::{
    digit_at, digits_end, done, exponent_end, fraction_end, integer_end, is_digit, is_number,
    number, number_end, number_stops, peek,
};
use crate::proofs::windows::{holds, lemma_holds_peek};
use vstd::prelude::*;

verus! {

/// The digits from `i` on end at the first character that is none.
pub proof fn lemma_digits_end(s: Seq<char>, i: int)
    ensures
        i <= digits_end(s, i),
        0 <= i <= s.len() ==> digits_end(s, i) <= s.len(),
        !digit_at(s, digits_end(s, i)),
        forall|k: int| i <= k < digits_end(s, i) ==> digit_at(s, k),
    decreases s.len() - i,
{
    if 0 <= i < s.len() && is_digit(s[i]) {
        lemma_digits_end(s, i + 1);
    }
}

/// Digits up to a character that is none end there.
pub proof fn lemma_digits_run(s: Seq<char>, i: int, end: int)
    requires
        i <= end,
        !digit_at(s, end),
        forall|k: int| i <= k < end ==> digit_at(s, k),
    ensures
        digits_end(s, i) == end,
    decreases end - i,
{
    if i < end {
        assert(digit_at(s, i));
        lemma_digits_run(s, i + 1, end);
    }
}

/// Where two texts hold the same characters, digits end at the same place of
/// them.
pub proof fn lemma_digits_window(
    a: Seq<char>,
    p: int,
    b: Seq<char>,
    q: int,
    r: Seq<char>,
    from: int,
)
    requires
        holds(a, p, r),
        holds(b, q, r),
        0 <= from <= r.len(),
        digits_end(a, p + from) <= p + r.len(),
        !digit_at(b, q + r.len()),
    ensures
        digits_end(b, q + from) - q == digits_end(a, p + from) - p,
        from <= digits_end(a, p + from) - p,
{
    lemma_digits_end(a, p + from);
    let end = digits_end(a, p + from) - p;
    assert forall|k: int| q + from <= k < q + end implies digit_at(b, k) by {
        lemma_holds_peek(a, p, r, k - q);
        lemma_holds_peek(b, q, r, k - q);
        assert(digit_at(a, p + (k - q)));
    }
    if end < r.len() {
        lemma_holds_peek(a, p, r, end);
        lemma_holds_peek(b, q, r, end);
    }
    lemma_digits_run(b, q + from, q + end);
}

/// Where two texts hold the same characters, a character of the one is that
/// of the other.
pub proof fn lemma_same_peek(a: Seq<char>, p: int, b: Seq<char>, q: int, r: Seq<char>, k: int)
    requires
        holds(a, p, r),
        holds(b, q, r),
        0 <= k < r.len(),
    ensures
        peek(a, p + k) == peek(b, q + k),
        peek(a, p + k) is Some,
{
    lemma_holds_peek(a, p, r, k);
    lemma_holds_peek(b, q, r, k);
}

/// A number that one text holds from end to end is a number in every text
/// that holds the same characters and does not go on with it.
pub proof fn lemma_number_window(a: Seq<char>, p: int, b: Seq<char>, q: int, r: Seq<char>)
    requires
        holds(a, p, r),
        holds(b, q, r),
        number_end(a, p) == Ok::<int, (ParseJsonError, int)>(p + r.len()),
        number_stops(b, q + r.len()),
    ensures
        number_end(b, q) == Ok::<int, (ParseJsonError, int)>(q + r.len()),
        r.len() > 0,
{
    let n = r.len() as int;
    // the sign
    let sign: int = if peek(a, p) == Some('-') {
        1
    } else {
        0
    };
    let integer = integer_end(a, p + sign)->Ok_0 - p;
    let fraction = fraction_end(a, p + integer)->Ok_0 - p;
    lemma_digits_end(a, p + sign + 1);
    lemma_digits_end(a, p + integer + 2);
    assert(sign < integer <= fraction <= n) by {
        if peek(a, p + fraction) == Some('e') || peek(a, p + fraction) == Some('E') {
            lemma_digits_end(a, p + fraction + 2);
            lemma_digits_end(a, p + fraction + 3);
        }
    }
    if 0 < n {
        lemma_same_peek(a, p, b, q, r, 0);
    }
    assert(peek(b, q) == Some('-') <==> sign == 1);
    // the integer part
    lemma_same_peek(a, p, b, q, r, sign);
    if peek(a, p + sign) != Some('0') {
        lemma_digits_window(a, p, b, q, r, sign + 1);
    }
    assert(integer_end(b, q + sign) == Ok::<int, (ParseJsonError, int)>(q + integer));
    // the fraction
    if integer < n {
        lemma_same_peek(a, p, b, q, r, integer);
    }
    if peek(a, p + integer) == Some('.') {
        lemma_same_peek(a, p, b, q, r, integer + 1);
        lemma_digits_window(a, p, b, q, r, integer + 2);
    }
    assert(fraction_end(b, q + integer) == Ok::<int, (ParseJsonError, int)>(q + fraction));
    // the exponent
    if fraction < n {
        lemma_same_peek(a, p, b, q, r, fraction);
    }
    if peek(a, p + fraction) == Some('e') || peek(a, p + fraction) == Some('E') {
        let signed: int = if peek(a, p + fraction + 1) == Some('+') || peek(a, p + fraction + 1)
            == Some('-') {
            1
        } else {
            0
        };
        lemma_digits_end(a, p + fraction + signed + 2);
        lemma_same_peek(a, p, b, q, r, fraction + 1);
        lemma_same_peek(a, p, b, q, r, fraction + signed + 1);
        lemma_digits_window(a, p, b, q, r, fraction + signed + 2);
    }
    assert(exponent_end(b, q + fraction) == Ok::<int, (ParseJsonError, int)>(q + n));
}

/// A number that the text holds, and that does not go on behind it, is read
/// as its lexeme.
pub proof fn lemma_number_read(s: Seq<char>, i: int, lexeme: Seq<char>)
    requires
        holds(s, i, lexeme),
        is_number(lexeme),
        number_stops(s, i + lexeme.len()),
    ensures
        number(s, i) == done(lexeme, i + lexeme.len()),
        lexeme.len() > 0,
        peek(s, i) matches Some(c) && (c == '-' || is_digit(c)),
{
    assert(lexeme.subrange(0, lexeme.len() as int) =~= lexeme);
    lemma_number_window(lexeme, 0, s, i, lexeme);
}

/// A number ends behind its start and within the text.
pub proof fn lemma_number_bounds(s: Seq<char>, i: int)
    requires
        0 <= i,
    ensures
        number_end(s, i) matches Ok(end) ==> i < end <= s.len(),
{
    let sign: int = if peek(s, i) == Some('-') {
        1
    } else {
        0
    };
    lemma_digits_end(s, i + sign + 1);
    if let Ok(integer) = integer_end(s, i + sign) {
        lemma_digits_end(s, integer + 2);
        if let Ok(fraction) = fraction_end(s, integer) {
            lemma_digits_end(s, fraction + 2);
            lemma_digits_end(s, fraction + 3);
        }
    }
}

/// The lexeme of a number that was read is a number from end to end.
pub proof fn lemma_number_lexeme(s: Seq<char>, i: int)
    requires
        0 <= i,
    ensures
        number(s, i) matches Ok((lexeme, next)) ==> is_number(lexeme) && lexeme.len() == next - i
            && i < next <= s.len(),
{
    if let Ok((lexeme, next)) = number(s, i) {
        lemma_number_bounds(s, i);
        assert(lexeme.subrange(0, lexeme.len() as int) =~= lexeme);
        lemma_number_window(s, i, lexeme, 0, lexeme);
    }
}

} // verus!
