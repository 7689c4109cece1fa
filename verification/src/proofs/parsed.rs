//! What was read is well-formed, is no deeper than allowed, and lies within
//! the text.
use crate::grammar::{
    array, elements, expect, is_digit, members, object, peek, string, value, whitespace_end,
};
use crate::proofs::numbers::lemma_number_lexeme;
use crate::proofs::strings::{lemma_literal_parsed, lemma_string_end};
use crate::proofs::windows::lemma_whitespace_end;
use crate::value::{keys_distinct, lemma_with_entry, with_entry, Entries, Value};
use vstd::prelude::*;

verus! {

/// A value that was read is well-formed, nests no deeper than it was let,
/// and ends behind its start and within the text.
pub proof fn lemma_value_parsed(s: Seq<char>, i: int, depth: nat)
    requires
        0 <= i,
    ensures
        value(s, i, depth) matches Ok((read, next)) ==> read.well_formed() && read.nests_within(
            depth,
        ) && i < next <= s.len(),
    decreases depth, 1int, 0int,
{
    lemma_whitespace_end(s, i);
    let start = whitespace_end(s, i);
    match peek(s, start) {
        None => {},
        Some(c) => {
            if c == '"' {
                lemma_string_end(s, start);
            } else if c == '{' {
                lemma_object_parsed(s, start, depth);
            } else if c == '[' {
                lemma_array_parsed(s, start, depth);
            } else if c == 't' || c == 'f' || c == 'n' {
                lemma_literal_parsed(s, start);
            } else if c == '-' || is_digit(c) {
                lemma_number_lexeme(s, start);
            }
        },
    }
}

/// An array that was read is well-formed, nests no deeper than it was let,
/// and ends behind its start and within the text.
pub proof fn lemma_array_parsed(s: Seq<char>, i: int, depth: nat)
    requires
        0 <= i,
    ensures
        array(s, i, depth) matches Ok((read, next)) ==> read.well_formed() && read.nests_within(
            depth,
        ) && i < next <= s.len(),
    decreases depth, 0int, 0int,
{
    lemma_whitespace_end(s, i);
    let start = whitespace_end(s, i);
    if expect(s, start, '[') is Ok && depth > 0 {
        lemma_whitespace_end(s, start + 1);
        let first = whitespace_end(s, start + 1);
        if peek(s, first) != Some(']') {
            lemma_elements_parsed(s, first, (depth - 1) as nat, Seq::empty());
        }
    }
}

/// The elements of an array that were read are well-formed and nest no
/// deeper than they were let, where those read before them are.
pub proof fn lemma_elements_parsed(s: Seq<char>, i: int, depth: nat, items: Seq<Value>)
    requires
        0 <= i,
        forall|k: int|
            0 <= k < items.len() ==> (#[trigger] items[k]).well_formed() && items[k].nests_within(
                depth,
            ),
    ensures
        elements(s, i, depth, items) matches Ok((read, next)) ==> read.well_formed()
            && read.nests_within(depth + 1) && i < next <= s.len(),
    decreases depth, 2int, s.len() - i,
{
    lemma_value_parsed(s, i, depth);
    match value(s, i, depth) {
        Err(_) => {},
        Ok((item, next)) => {
            lemma_whitespace_end(s, next);
            let comma = whitespace_end(s, next);
            let all = items.push(item);
            assert forall|k: int| 0 <= k < all.len() implies (#[trigger] all[k]).well_formed()
                && all[k].nests_within(depth) by {
                if k < items.len() {
                    assert(all[k] == items[k]);
                }
            }
            if peek(s, comma) == Some(',') {
                lemma_elements_parsed(s, comma + 1, depth, all);
            }
        },
    }
}

/// An object that was read is well-formed, nests no deeper than it was let,
/// and ends behind its start and within the text.
pub proof fn lemma_object_parsed(s: Seq<char>, i: int, depth: nat)
    requires
        0 <= i,
    ensures
        object(s, i, depth) matches Ok((read, next)) ==> read.well_formed() && read.nests_within(
            depth,
        ) && i < next <= s.len(),
    decreases depth, 0int, 0int,
{
    lemma_whitespace_end(s, i);
    let start = whitespace_end(s, i);
    if expect(s, start, '{') is Ok && depth > 0 {
        lemma_whitespace_end(s, start + 1);
        let first = whitespace_end(s, start + 1);
        if peek(s, first) != Some('}') {
            lemma_members_parsed(s, first, (depth - 1) as nat, Seq::empty());
        }
    }
}

/// The members of an object that were read are well-formed and nest no
/// deeper than they were let, and no two of them have one key, where the same
/// holds of those read before them.
pub proof fn lemma_members_parsed(s: Seq<char>, i: int, depth: nat, entries: Entries)
    requires
        0 <= i,
        keys_distinct(entries),
        forall|k: int|
            0 <= k < entries.len() ==> (#[trigger] entries[k]).1.well_formed()
                && entries[k].1.nests_within(depth),
    ensures
        members(s, i, depth, entries) matches Ok((read, next)) ==> read.well_formed()
            && read.nests_within(depth + 1) && i < next <= s.len(),
    decreases depth, 2int, s.len() - i,
{
    lemma_whitespace_end(s, i);
    let start = whitespace_end(s, i);
    lemma_string_end(s, start);
    match string(s, start) {
        Err(_) => {},
        Ok((key, after_key)) => {
            lemma_whitespace_end(s, after_key);
            match expect(s, whitespace_end(s, after_key), ':') {
                Err(_) => {},
                Ok((_, after_colon)) => {
                    lemma_value_parsed(s, after_colon, depth);
                    match value(s, after_colon, depth) {
                        Err(_) => {},
                        Ok((item, next)) => {
                            lemma_whitespace_end(s, next);
                            let comma = whitespace_end(s, next);
                            let kept = with_entry(entries, key, item);
                            lemma_with_entry(entries, key, item);
                            assert forall|k: int| 0 <= k < kept.len() implies (
                            #[trigger] kept[k]).1.well_formed() && kept[k].1.nests_within(
                                depth,
                            ) by {
                                if kept[k].1 != item {
                                    assert(entries[k].1.well_formed());
                                }
                            }
                            if peek(s, comma) == Some(',') {
                                lemma_members_parsed(s, comma + 1, depth, kept);
                            }
                        },
                    }
                },
            }
        },
    }
}

} // verus!
