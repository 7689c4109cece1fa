//! Texts that hold given characters at a position, and the whitespace
//! between tokens.
use crate::grammar::{is_delimiter, is_whitespace, peek, whitespace_end};
use crate::syntax::all_whitespace;
use vstd::prelude::*;

verus! {

/// The text `s` holds the characters `r` from position `i` on.
pub open spec fn holds(s: Seq<char>, i: int, r: Seq<char>) -> bool {
    0 <= i && i + r.len() <= s.len() && s.subrange(i, i + r.len()) == r
}

/// The character behind a value does not belong to it: the text ends at `i`,
/// or holds whitespace, a comma or a closing bracket or brace there.
pub open spec fn delimited(s: Seq<char>, i: int) -> bool {
    peek(s, i) matches Some(c) ==> is_delimiter(c)
}

/// A text that holds two sequences in a row holds each of them.
pub proof fn lemma_holds_both(s: Seq<char>, i: int, a: Seq<char>, b: Seq<char>)
    requires
        holds(s, i, a + b),
    ensures
        holds(s, i, a),
        holds(s, i + a.len(), b),
{
    let whole = s.subrange(i, i + (a + b).len());
    assert(s.subrange(i, i + a.len()) =~= a) by {
        assert forall|k: int| 0 <= k < a.len() implies s.subrange(i, i + a.len())[k] == a[k] by {
            assert(whole[k] == (a + b)[k]);
        }
    }
    assert(s.subrange(i + a.len(), i + a.len() + b.len()) =~= b) by {
        assert forall|k: int| 0 <= k < b.len() implies s.subrange(
            i + a.len(),
            i + a.len() + b.len(),
        )[k] == b[k] by {
            assert(whole[a.len() + k] == (a + b)[a.len() + k]);
        }
    }
}

/// A text that holds a sequence has each of its characters in its place.
pub proof fn lemma_holds_peek(s: Seq<char>, i: int, r: Seq<char>, k: int)
    requires
        holds(s, i, r),
        0 <= k < r.len(),
    ensures
        peek(s, i + k) == Some(r[k]),
{
    assert(s.subrange(i, i + r.len())[k] == r[k]);
}

/// A text that holds one sequence and another behind it holds the two in a
/// row.
pub proof fn lemma_holds_joined(s: Seq<char>, i: int, a: Seq<char>, b: Seq<char>)
    requires
        holds(s, i, a),
        holds(s, i + a.len(), b),
    ensures
        holds(s, i, a + b),
{
    assert(s.subrange(i, i + (a + b).len()) =~= a + b) by {
        assert forall|k: int| 0 <= k < (a + b).len() implies s.subrange(i, i + (a + b).len())[k]
            == (a + b)[k] by {
            if k < a.len() {
                assert(s.subrange(i, i + a.len())[k] == a[k]);
            } else {
                assert(s.subrange(i + a.len(), i + a.len() + b.len())[k - a.len()] == b[k
                    - a.len()]);
            }
        }
    }
}

/// A text holds each of its parts.
pub proof fn lemma_holds_part(s: Seq<char>, from: int, to: int)
    requires
        0 <= from <= to <= s.len(),
    ensures
        holds(s, from, s.subrange(from, to)),
        s.subrange(from, to).len() == to - from,
{
}

/// Whitespace is skipped up to the first character that is none.
pub proof fn lemma_whitespace_skipped(s: Seq<char>, i: int, gap: Seq<char>, from: int)
    requires
        holds(s, i, gap),
        all_whitespace(gap),
        0 <= from <= gap.len(),
        peek(s, i + gap.len()) matches Some(c) ==> !is_whitespace(c),
    ensures
        whitespace_end(s, i + from) == i + gap.len(),
    decreases gap.len() - from,
{
    if from < gap.len() {
        lemma_holds_peek(s, i, gap, from);
        lemma_whitespace_skipped(s, i, gap, from + 1);
    }
}

/// Where no whitespace stands, none is skipped.
pub proof fn lemma_no_whitespace(s: Seq<char>, i: int)
    requires
        peek(s, i) matches Some(c) ==> !is_whitespace(c),
    ensures
        whitespace_end(s, i) == i,
{
}

/// Skipping whitespace ends at a character that is none, or at the end.
pub proof fn lemma_whitespace_end(s: Seq<char>, i: int)
    ensures
        i <= whitespace_end(s, i),
        0 <= i <= s.len() ==> whitespace_end(s, i) <= s.len(),
        peek(s, whitespace_end(s, i)) matches Some(c) ==> !is_whitespace(c),
        whitespace_end(s, whitespace_end(s, i)) == whitespace_end(s, i),
    decreases s.len() - i,
{
    if 0 <= i < s.len() && is_whitespace(s[i]) {
        lemma_whitespace_end(s, i + 1);
    }
}

/// The whitespace that is skipped from `i` on is whitespace.
pub proof fn lemma_gap(s: Seq<char>, i: int)
    requires
        0 <= i <= s.len(),
    ensures
        all_whitespace(s.subrange(i, whitespace_end(s, i))),
        i <= whitespace_end(s, i) <= s.len(),
    decreases s.len() - i,
{
    lemma_whitespace_end(s, i);
    let end = whitespace_end(s, i);
    if i < s.len() && is_whitespace(s[i]) {
        lemma_gap(s, i + 1);
        assert forall|k: int| 0 <= k < end - i implies is_whitespace(
            #[trigger] s.subrange(i, end)[k],
        ) by {
            if k > 0 {
                assert(s.subrange(i + 1, end)[k - 1] == s[i + k]);
            }
        }
    }
}

} // verus!
