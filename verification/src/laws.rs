//! The laws of the parser, each proved from the grammar.
//!
//! A text parses exactly when it is a JSON document, and then to the value
//! that the document stands for. Whitespace between the tokens does not
//! matter, of two members with one key the later counts, and what is written
//! for a parsed value parses to the same value again.
use crate::grammar::{document, done, value, whitespace_end, MAX_DEPTH};
use crate::proofs::encoding::{lemma_canonical, lemma_stored_last, lemma_stripped};
use crate::proofs::parsed::lemma_value_parsed;
use crate::proofs::reading::{lemma_first_character, lemma_value_read};
use crate::proofs::windows::{
    delimited, lemma_holds_both, lemma_holds_peek, lemma_whitespace_end, lemma_whitespace_skipped,
};
use crate::proofs::written::lemma_element_written;
use crate::syntax::{canonical, characters, encoding, is_document, Element, Member, Syntax};
use crate::value::{lookup, Value};
use vstd::prelude::*;

verus! {

/// Every JSON document parses, and to the value that it stands for.
///
/// A document is the text of a tree that the grammar allows: a value with
/// whitespace around it. The parser follows arrays and objects
/// [`MAX_DEPTH`] levels deep, so the law is stated of the documents that nest
/// no deeper.
pub proof fn lemma_document_parses(written: Element)
    requires
        written.valid(),
        written.value.nests_within(MAX_DEPTH as nat),
    ensures
        document(written.text(), 0) == done(written.value.value(), written.text().len() as int),
{
    let s = written.text();
    let inner = written.value.text();
    assert(s =~= written.before + (inner + written.after));
    assert(s.subrange(0, s.len() as int) =~= s);
    lemma_holds_both(s, 0, written.before, inner + written.after);
    let start = written.before.len() as int;
    lemma_holds_both(s, start, inner, written.after);
    let next = start + inner.len();
    lemma_first_character(written.value);
    lemma_holds_peek(s, start, inner, 0);
    lemma_whitespace_skipped(s, 0, written.before, 0);
    assert(delimited(s, next)) by {
        if written.after.len() > 0 {
            lemma_holds_peek(s, next, written.after, 0);
        }
    }
    lemma_value_read(s, 0, start, written.value, MAX_DEPTH as nat);
    lemma_whitespace_skipped(s, next, written.after, 0);
}

/// Only a JSON document parses: a text that parses is the text of a tree
/// that the grammar allows, and what it parses to is the value of that tree.
pub proof fn lemma_parsed_is_written(s: Seq<char>) -> (written: Element)
    requires
        document(s, 0) is Ok,
    ensures
        written.valid(),
        written.value.nests_within(MAX_DEPTH as nat),
        written.text() == s,
        document(s, 0) == done(written.value.value(), s.len() as int),
{
    let e = lemma_element_written(s, 0, 0, MAX_DEPTH as nat);
    assert(e.text() =~= s);
    e
}

/// A text parses exactly when it is a JSON document.
pub proof fn lemma_parses_iff_document(s: Seq<char>)
    ensures
        document(s, 0) is Ok <==> is_document(s),
{
    if document(s, 0) is Ok {
        let written = lemma_parsed_is_written(s);
        assert(is_document(written.text()));
    }
    if is_document(s) {
        let written = choose|written: Element|
            written.valid() && written.value.nests_within(MAX_DEPTH as nat)
                && #[trigger] written.text() == s;
        lemma_document_parses(written);
    }
}

/// Whitespace between the tokens does not change what a document parses
/// to: two documents that are the same once their whitespace is taken out
/// parse to the same value.
pub proof fn lemma_whitespace_insensitive(a: Element, b: Element)
    requires
        a.valid(),
        b.valid(),
        a.value.nests_within(MAX_DEPTH as nat),
        a.stripped() == b.stripped(),
    ensures
        document(a.text(), 0) == done(a.value.value(), a.text().len() as int),
        document(b.text(), 0) == done(a.value.value(), b.text().len() as int),
{
    lemma_stripped(a.value, MAX_DEPTH as nat);
    lemma_stripped(b.value, MAX_DEPTH as nat);
    lemma_document_parses(a);
    lemma_document_parses(b);
}

/// A value that was read ends behind its start, and the whitespace behind
/// it ends no earlier. So the comma that [`elements`] and [`members`] look for
/// stands behind the start of what they read, as they test.
///
/// [`elements`]: crate::grammar::elements
/// [`members`]: crate::grammar::members
pub proof fn lemma_value_spans(s: Seq<char>, i: int, depth: nat)
    requires
        0 <= i,
    ensures
        value(s, i, depth) matches Ok((_, next)) ==> i < next <= whitespace_end(s, next),
{
    lemma_value_parsed(s, i, depth);
    if let Ok((_, next)) = value(s, i, depth) {
        lemma_whitespace_end(s, next);
    }
}

/// Of the members of an object that have one key, the last gives the value:
/// the object holds, under the key of a member that no later member shares,
/// the value of that member.
pub proof fn lemma_last_member_wins(gap: Seq<char>, members: Seq<Member>, last: int)
    requires
        0 <= last < members.len(),
        forall|k: int|
            last < k < members.len() ==> characters(#[trigger] members[k].key) != characters(
                members[last].key,
            ),
    ensures
        Syntax::Object(gap, members).value() matches Value::Object(entries) && lookup(
            entries,
            characters(members[last].key),
        ) == Some(members[last].element.value.value()),
{
    lemma_stored_last(members, 0, Seq::empty(), last);
}

/// What a document parses to is a well-formed value: every number in it is
/// written as the grammar of numbers allows, no object in it has two entries
/// with one key, and its arrays and objects nest no deeper than [`MAX_DEPTH`].
/// The document was read to its end.
pub proof fn lemma_parsed_value(s: Seq<char>)
    ensures
        document(s, 0) matches Ok((read, end)) ==> read.well_formed() && read.nests_within(
            MAX_DEPTH as nat,
        ) && end == s.len(),
{
    lemma_value_parsed(s, 0, MAX_DEPTH as nat);
    if let Ok((_, next)) = value(s, 0, MAX_DEPTH as nat) {
        lemma_whitespace_end(s, next);
    }
}

/// What is written for a value parses back to it: the encoding of a
/// well-formed value that nests no deeper than [`MAX_DEPTH`] is a document that
/// parses to the value.
pub proof fn lemma_round_trip(value: Value)
    requires
        value.well_formed(),
        value.nests_within(MAX_DEPTH as nat),
    ensures
        document(encoding(value), 0) == done(value, encoding(value).len() as int),
{
    lemma_canonical(value, MAX_DEPTH as nat);
    let written = Element { before: Seq::empty(), value: canonical(value), after: Seq::empty() };
    assert(written.text() =~= encoding(value));
    lemma_document_parses(written);
}

/// Parsing what was written for a parsed value gives that value again,
/// whatever the whitespace and the escapes of the first document were.
pub proof fn lemma_reparse(s: Seq<char>)
    ensures
        document(s, 0) matches Ok((read, _)) ==> document(encoding(read), 0) == done(
            read,
            encoding(read).len() as int,
        ),
{
    lemma_parsed_value(s);
    if let Ok((read, _)) = document(s, 0) {
        lemma_round_trip(read);
    }
}

} // verus!
