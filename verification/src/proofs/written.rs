//! What was read is a document: for every production that reads a text, a
//! tree whose characters the text holds and whose value was read.
use crate::grammar::{
    array, done, elements, expect, members, number, object, peek, string, value, whitespace_end,
};
use crate::proofs::numbers::lemma_number_lexeme;
use crate::proofs::parsed::lemma_value_parsed;
use crate::proofs::reading::lemma_array_value;
use crate::proofs::strings::{lemma_literal_written, lemma_string_end, lemma_string_written};
use crate::proofs::windows::{
    holds, lemma_gap, lemma_holds_joined, lemma_holds_part, lemma_whitespace_end,
};
use crate::syntax::{
    characters, element_values, elements_text, members_text, stored, string_text, Element, Member,
    Syntax,
};
use crate::value::{with_entry, Entries, Value};
use vstd::prelude::*;

verus! {

/// The characters of the elements behind the first are those of the elements
/// without the first.
pub proof fn lemma_elements_text_shift(head: Element, tail: Seq<Element>, from: int)
    requires
        0 <= from <= tail.len(),
    ensures
        elements_text(seq![head] + tail, from + 1) == elements_text(tail, from),
    decreases tail.len() - from,
{
    let all = seq![head] + tail;
    assert(seq![head].len() == 1);
    if from < tail.len() {
        assert(all[from + 1] == tail[from]);
        lemma_elements_text_shift(head, tail, from + 1);
    }
}

/// An element before other elements: the characters written, the values
/// meant, and whether the grammar allows them at a depth.
pub proof fn lemma_elements_cons(head: Element, tail: Seq<Element>, depth: nat)
    ensures
        (seq![head] + tail).len() == tail.len() + 1,
        elements_text(seq![head] + tail, 0) == if tail.len() == 0 {
            head.text()
        } else {
            head.text() + seq![','] + elements_text(tail, 0)
        },
        element_values(seq![head] + tail) == seq![head.value.value()] + element_values(tail),
        head.valid() && (forall|k: int| 0 <= k < tail.len() ==> (#[trigger] tail[k]).valid())
            ==> (forall|k: int|
            0 <= k < (seq![head] + tail).len() ==> (#[trigger] (seq![head] + tail)[k]).valid()),
        head.value.nests_within(depth) && (forall|k: int|
            0 <= k < tail.len() ==> (#[trigger] tail[k]).value.nests_within(depth)) ==> (forall|
            k: int,
        |
            0 <= k < (seq![head] + tail).len() ==> (#[trigger] (seq![head]
                + tail)[k]).value.nests_within(depth)),
{
    let all = seq![head] + tail;
    assert(seq![head].len() == 1);
    assert(all[0] == head);
    lemma_elements_text_shift(head, tail, 0);
    assert(element_values(all) =~= seq![head.value.value()] + element_values(tail));
    assert forall|k: int| 0 < k < all.len() implies #[trigger] all[k] == tail[k - 1] by {}
    if head.valid() && (forall|k: int| 0 <= k < tail.len() ==> (#[trigger] tail[k]).valid()) {
        assert forall|k: int| 0 <= k < all.len() implies (#[trigger] all[k]).valid() by {
            if k > 0 {
                assert(tail[k - 1].valid());
            }
        }
    }
    if head.value.nests_within(depth) && (forall|k: int|
        0 <= k < tail.len() ==> (#[trigger] tail[k]).value.nests_within(depth)) {
        assert forall|k: int| 0 <= k < all.len() implies (#[trigger] all[k]).value.nests_within(
            depth,
        ) by {
            if k > 0 {
                assert(tail[k - 1].value.nests_within(depth));
            }
        }
    }
}

/// The characters of the members behind the first are those of the members
/// without the first, and so are the entries that they store.
pub proof fn lemma_members_shift(head: Member, tail: Seq<Member>, from: int, entries: Entries)
    requires
        0 <= from <= tail.len(),
    ensures
        members_text(seq![head] + tail, from + 1) == members_text(tail, from),
        stored(seq![head] + tail, from + 1, entries) == stored(tail, from, entries),
    decreases tail.len() - from,
{
    let all = seq![head] + tail;
    assert(seq![head].len() == 1);
    if from < tail.len() {
        assert(all[from + 1] == tail[from]);
        lemma_members_shift(
            head,
            tail,
            from + 1,
            with_entry(
                entries,
                characters(tail[from].key),
                tail[from].element.value.value(),
            ),
        );
        lemma_members_shift(head, tail, from + 1, entries);
    }
}

/// A member before other members: the characters written, the entries
/// stored, and whether the grammar allows them at a depth.
pub proof fn lemma_members_cons(head: Member, tail: Seq<Member>, entries: Entries, depth: nat)
    ensures
        (seq![head] + tail).len() == tail.len() + 1,
        members_text(seq![head] + tail, 0) == if tail.len() == 0 {
            head.text()
        } else {
            head.text() + seq![','] + members_text(tail, 0)
        },
        stored(seq![head] + tail, 0, entries) == stored(
            tail,
            0,
            with_entry(entries, characters(head.key), head.element.value.value()),
        ),
        head.valid() && (forall|k: int| 0 <= k < tail.len() ==> (#[trigger] tail[k]).valid())
            ==> (forall|k: int|
            0 <= k < (seq![head] + tail).len() ==> (#[trigger] (seq![head] + tail)[k]).valid()),
        head.element.value.nests_within(depth) && (forall|k: int|
            0 <= k < tail.len() ==> (#[trigger] tail[k]).element.value.nests_within(depth))
            ==> (forall|k: int|
            0 <= k < (seq![head] + tail).len() ==> (#[trigger] (seq![head]
                + tail)[k]).element.value.nests_within(depth)),
{
    let all = seq![head] + tail;
    assert(seq![head].len() == 1);
    assert(all[0] == head);
    lemma_members_shift(
        head,
        tail,
        0,
        with_entry(entries, characters(head.key), head.element.value.value()),
    );
    assert forall|k: int| 0 < k < all.len() implies #[trigger] all[k] == tail[k - 1] by {}
    if head.valid() && (forall|k: int| 0 <= k < tail.len() ==> (#[trigger] tail[k]).valid()) {
        assert forall|k: int| 0 <= k < all.len() implies (#[trigger] all[k]).valid() by {
            if k > 0 {
                assert(tail[k - 1].valid());
            }
        }
    }
    if head.element.value.nests_within(depth) && (forall|k: int|
        0 <= k < tail.len() ==> (#[trigger] tail[k]).element.value.nests_within(depth)) {
        assert forall|k: int| 0 <= k < all.len() implies (
        #[trigger] all[k]).element.value.nests_within(depth) by {
            if k > 0 {
                assert(tail[k - 1].element.value.nests_within(depth));
            }
        }
    }
}

/// The text holds a value that was read, as a tree that the grammar allows
/// and that stands for the value.
pub proof fn lemma_value_written(s: Seq<char>, i: int, depth: nat) -> (x: Syntax)
    requires
        0 <= i,
        value(s, i, depth) is Ok,
    ensures
        x.valid(),
        x.nests_within(depth),
        holds(s, whitespace_end(s, i), x.text()),
        value(s, i, depth) == done(x.value(), whitespace_end(s, i) + x.text().len()),
    decreases depth, 1int, 0int,
{
    lemma_whitespace_end(s, i);
    let start = whitespace_end(s, i);
    let c = peek(s, start).unwrap();
    if c == '"' {
        Syntax::String(lemma_string_written(s, start))
    } else if c == '{' {
        lemma_object_written(s, start, depth)
    } else if c == '[' {
        lemma_array_written(s, start, depth)
    } else if c == 't' || c == 'f' || c == 'n' {
        lemma_literal_written(s, start)
    } else {
        lemma_number_lexeme(s, start);
        let lexeme = number(s, start)->Ok_0.0;
        lemma_holds_part(s, start, start + lexeme.len());
        Syntax::Number(lexeme)
    }
}

/// The text holds a value that was read and the whitespace around it, from
/// `p` on, as an element that the grammar allows.
pub proof fn lemma_element_written(s: Seq<char>, p: int, i: int, depth: nat) -> (e: Element)
    requires
        0 <= p <= i,
        whitespace_end(s, p) == whitespace_end(s, i),
        value(s, i, depth) is Ok,
    ensures
        e.valid(),
        e.value.nests_within(depth),
        holds(s, p, e.text()),
        value(s, i, depth) matches Ok((read, next)) && read == e.value.value() && i < next
            && whitespace_end(s, next) == p + e.text().len(),
    decreases depth, 1int, 1int,
{
    let x = lemma_value_written(s, i, depth);
    lemma_value_parsed(s, i, depth);
    let start = whitespace_end(s, i);
    let next = start + x.text().len();
    let end = whitespace_end(s, next);
    lemma_whitespace_end(s, p);
    lemma_gap(s, p);
    lemma_gap(s, next);
    let e = Element { before: s.subrange(p, start), value: x, after: s.subrange(next, end) };
    lemma_holds_part(s, p, start);
    lemma_holds_part(s, next, end);
    lemma_holds_joined(s, p, e.before, x.text());
    lemma_holds_joined(s, p, e.before + x.text(), e.after);
    e
}

/// The text holds an array that was read, as a tree that the grammar allows
/// and that stands for the array.
pub proof fn lemma_array_written(s: Seq<char>, i: int, depth: nat) -> (x: Syntax)
    requires
        0 <= i,
        array(s, i, depth) is Ok,
    ensures
        x.valid(),
        x.nests_within(depth),
        holds(s, whitespace_end(s, i), x.text()),
        array(s, i, depth) == done(x.value(), whitespace_end(s, i) + x.text().len()),
    decreases depth, 0int, 0int,
{
    lemma_whitespace_end(s, i);
    let start = whitespace_end(s, i);
    let inside = start + 1;
    lemma_gap(s, inside);
    lemma_whitespace_end(s, inside);
    let first = whitespace_end(s, inside);
    assert(s.subrange(start, start + 1) =~= seq!['[']);
    if peek(s, first) == Some(']') {
        let gap = s.subrange(inside, first);
        let none = Seq::<Element>::empty();
        let x = Syntax::Array(gap, none);
        lemma_array_value(gap, none);
        assert(element_values(none) =~= Seq::<Value>::empty());
        assert(s.subrange(start, first + 1) =~= x.text());
        x
    } else {
        let written = lemma_elements_written(s, inside, first, (depth - 1) as nat, Seq::empty());
        let x = Syntax::Array(Seq::empty(), written);
        lemma_array_value(Seq::empty(), written);
        assert(Seq::<Value>::empty() + element_values(written) =~= element_values(written));
        lemma_holds_joined(s, start, seq!['['], elements_text(written, 0) + seq![']']);
        assert(seq!['['] + (elements_text(written, 0) + seq![']']) =~= x.text());
        x
    }
}

/// The text holds the elements of an array that were read, from `p` on, as
/// elements that the grammar allows and that stand for the values read.
pub proof fn lemma_elements_written(
    s: Seq<char>,
    p: int,
    i: int,
    depth: nat,
    items: Seq<Value>,
) -> (written: Seq<Element>)
    requires
        0 <= p <= i,
        whitespace_end(s, p) == whitespace_end(s, i),
        elements(s, i, depth, items) is Ok,
    ensures
        written.len() > 0,
        forall|k: int| 0 <= k < written.len() ==> (#[trigger] written[k]).valid(),
        forall|k: int|
            0 <= k < written.len() ==> (#[trigger] written[k]).value.nests_within(depth),
        holds(s, p, elements_text(written, 0) + seq![']']),
        elements(s, i, depth, items) == done(
            Value::Array(items + element_values(written)),
            p + elements_text(written, 0).len() + 1,
        ),
    decreases depth, 2int, s.len() - i,
{
    let e = lemma_element_written(s, p, i, depth);
    let comma = p + e.text().len();
    let item = e.value.value();
    lemma_value_parsed(s, i, depth);
    let next = value(s, i, depth)->Ok_0.1;
    lemma_whitespace_end(s, next);
    if peek(s, comma) == Some(',') {
        lemma_whitespace_end(s, comma + 1);
        let tail = lemma_elements_written(s, comma + 1, comma + 1, depth, items.push(item));
        lemma_elements_cons(e, tail, depth);
        assert(s.subrange(comma, comma + 1) =~= seq![',']);
        lemma_holds_joined(s, comma, seq![','], elements_text(tail, 0) + seq![']']);
        lemma_holds_joined(
            s,
            p,
            e.text(),
            seq![','] + (elements_text(tail, 0) + seq![']']),
        );
        assert(e.text() + (seq![','] + (elements_text(tail, 0) + seq![']'])) =~= e.text() + seq![
            ',',
        ] + elements_text(tail, 0) + seq![']']);
        assert(items.push(item) + element_values(tail) =~= items + (seq![item] + element_values(
            tail,
        )));
        seq![e] + tail
    } else {
        let none = Seq::<Element>::empty();
        lemma_elements_cons(e, none, depth);
        assert(s.subrange(comma, comma + 1) =~= seq![']']);
        lemma_holds_joined(s, p, e.text(), seq![']']);
        assert(element_values(none) =~= Seq::<Value>::empty());
        assert(items.push(item) =~= items + (seq![item] + element_values(none)));
        seq![e] + none
    }
}

/// The text holds an object that was read, as a tree that the grammar allows
/// and that stands for the object.
pub proof fn lemma_object_written(s: Seq<char>, i: int, depth: nat) -> (x: Syntax)
    requires
        0 <= i,
        object(s, i, depth) is Ok,
    ensures
        x.valid(),
        x.nests_within(depth),
        holds(s, whitespace_end(s, i), x.text()),
        object(s, i, depth) == done(x.value(), whitespace_end(s, i) + x.text().len()),
    decreases depth, 0int, 0int,
{
    lemma_whitespace_end(s, i);
    let start = whitespace_end(s, i);
    let inside = start + 1;
    lemma_gap(s, inside);
    lemma_whitespace_end(s, inside);
    let first = whitespace_end(s, inside);
    assert(s.subrange(start, start + 1) =~= seq!['{']);
    if peek(s, first) == Some('}') {
        let gap = s.subrange(inside, first);
        let none = Seq::<Member>::empty();
        let x = Syntax::Object(gap, none);
        assert(stored(none, 0, Seq::empty()) == Entries::empty());
        assert(s.subrange(start, first + 1) =~= x.text());
        x
    } else {
        let written = lemma_members_written(s, inside, first, (depth - 1) as nat, Seq::empty());
        let x = Syntax::Object(Seq::empty(), written);
        lemma_holds_joined(s, start, seq!['{'], members_text(written, 0) + seq!['}']);
        assert(seq!['{'] + (members_text(written, 0) + seq!['}']) =~= x.text());
        x
    }
}

/// The text holds a member of an object that was read, from `p` on, as a
/// member that the grammar allows.
pub proof fn lemma_member_written(s: Seq<char>, p: int, i: int, depth: nat) -> (m: Member)
    requires
        0 <= p <= i,
        whitespace_end(s, p) == whitespace_end(s, i),
        string(s, whitespace_end(s, i)) matches Ok((_, after_key)) && expect(
            s,
            whitespace_end(s, after_key),
            ':',
        ) matches Ok((_, after_colon)) && value(s, after_colon, depth) is Ok,
    ensures
        m.valid(),
        m.element.value.nests_within(depth),
        holds(s, p, m.text()),
        string(s, whitespace_end(s, i)) matches Ok((key, after_key)) && expect(
            s,
            whitespace_end(s, after_key),
            ':',
        ) matches Ok((_, after_colon)) && value(s, after_colon, depth) matches Ok((read, next))
            && key == characters(m.key) && read == m.element.value.value() && i < next
            && whitespace_end(s, next) == p + m.text().len(),
    decreases depth, 1int, 2int,
{
    lemma_whitespace_end(s, p);
    lemma_gap(s, p);
    let start = whitespace_end(s, i);
    let key = lemma_string_written(s, start);
    lemma_string_end(s, start);
    let after_key = start + string_text(key).len();
    lemma_gap(s, after_key);
    let colon = whitespace_end(s, after_key);
    let e = lemma_element_written(s, colon + 1, colon + 1, depth);
    let m = Member {
        before: s.subrange(p, start),
        key: key,
        between: s.subrange(after_key, colon),
        element: e,
    };
    lemma_holds_part(s, p, start);
    lemma_holds_part(s, after_key, colon);
    assert(s.subrange(colon, colon + 1) =~= seq![':']);
    lemma_holds_joined(s, p, m.before, string_text(key));
    lemma_holds_joined(s, p, m.before + string_text(key), m.between);
    lemma_holds_joined(s, p, m.before + string_text(key) + m.between, seq![':']);
    lemma_holds_joined(s, p, m.before + string_text(key) + m.between + seq![':'], e.text());
    assert(m.text() == m.before + string_text(key) + m.between + seq![':'] + e.text());
    assert(m.text().len() == (start - p) + string_text(key).len() + (colon - after_key) + 1
        + e.text().len());
    lemma_whitespace_end(s, i);
    m
}

/// The text holds the members of an object that were read, from `p` on, as
/// members that the grammar allows and that store the entries read.
pub proof fn lemma_members_written(
    s: Seq<char>,
    p: int,
    i: int,
    depth: nat,
    entries: Entries,
) -> (written: Seq<Member>)
    requires
        0 <= p <= i,
        whitespace_end(s, p) == whitespace_end(s, i),
        members(s, i, depth, entries) is Ok,
    ensures
        written.len() > 0,
        forall|k: int| 0 <= k < written.len() ==> (#[trigger] written[k]).valid(),
        forall|k: int|
            0 <= k < written.len() ==> (#[trigger] written[k]).element.value.nests_within(depth),
        holds(s, p, members_text(written, 0) + seq!['}']),
        members(s, i, depth, entries) == done(
            Value::Object(stored(written, 0, entries)),
            p + members_text(written, 0).len() + 1,
        ),
    decreases depth, 2int, s.len() - i,
{
    let m = lemma_member_written(s, p, i, depth);
    let comma = p + m.text().len();
    let kept = with_entry(entries, characters(m.key), m.element.value.value());
    if peek(s, comma) == Some(',') {
        lemma_whitespace_end(s, comma + 1);
        let tail = lemma_members_written(s, comma + 1, comma + 1, depth, kept);
        lemma_members_cons(m, tail, entries, depth);
        assert(s.subrange(comma, comma + 1) =~= seq![',']);
        lemma_holds_joined(s, comma, seq![','], members_text(tail, 0) + seq!['}']);
        lemma_holds_joined(
            s,
            p,
            m.text(),
            seq![','] + (members_text(tail, 0) + seq!['}']),
        );
        assert(m.text() + (seq![','] + (members_text(tail, 0) + seq!['}'])) =~= m.text() + seq![
            ',',
        ] + members_text(tail, 0) + seq!['}']);
        seq![m] + tail
    } else {
        let none = Seq::<Member>::empty();
        lemma_members_cons(m, none, entries, depth);
        assert(s.subrange(comma, comma + 1) =~= seq!['}']);
        lemma_holds_joined(s, p, m.text(), seq!['}']);
        assert(stored(none, 0, kept) == kept);
        seq![m] + none
    }
}

} // verus!
