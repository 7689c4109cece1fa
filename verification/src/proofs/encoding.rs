//! Trees without whitespace, the tree that is written for a value, and the
//! entries that the members of an object store.
use crate::grammar::{hex_value, is_control, is_hex_digit};
use crate::syntax::{
    canonical, characters, hex4_value, hex_digit_of, is_hex4, piece_of, pieces_of, pieces_valid,
    stored, Member, Syntax,
};
use crate::value::{
    find_key, keys_distinct, lemma_find_key, lemma_lookup_other, lemma_lookup_stored, lookup,
    with_entry, Entries, Value,
};
use vstd::prelude::*;

verus! {

/// Objects whose members have the same keys and stand for the same values
/// have the same entries.
pub proof fn lemma_stored_alike(a: Seq<Member>, b: Seq<Member>, from: int, entries: Entries)
    requires
        a.len() == b.len(),
        forall|k: int|
            0 <= k < a.len() ==> characters(#[trigger] a[k].key) == characters(b[k].key)
                && a[k].element.value.value() == b[k].element.value.value(),
    ensures
        stored(a, from, entries) == stored(b, from, entries),
    decreases a.len() - from,
{
    if 0 <= from < a.len() {
        let kept = with_entry(entries, characters(a[from].key), a[from].element.value.value());
        lemma_stored_alike(a, b, from + 1, kept);
    }
}

/// Taking the whitespace out of a tree leaves it valid, as deep as it was,
/// and leaves its value.
pub proof fn lemma_stripped(x: Syntax, depth: nat)
    ensures
        x.stripped().value() == x.value(),
        x.stripped().nests_within(depth) == x.nests_within(depth),
        x.valid() ==> x.stripped().valid(),
    decreases x,
{
    match x {
        Syntax::Array(gap, elements) => {
            let bare = x.stripped()->Array_1;
            assert forall|k: int| 0 <= k < elements.len() implies (#[trigger] bare[k]).value.value()
                == elements[k].value.value() && bare[k].value.nests_within((depth - 1) as nat)
                == elements[k].value.nests_within((depth - 1) as nat) && (elements[k].valid()
                ==> bare[k].valid()) by {
                lemma_stripped(elements[k].value, (depth - 1) as nat);
            }
            assert(x.stripped().value()->Array_0 =~= x.value()->Array_0);
            if depth > 0 {
                assert(x.stripped().nests_within(depth) == x.nests_within(depth)) by {
                    if x.nests_within(depth) {
                        assert forall|k: int| 0 <= k < bare.len() implies (
                        #[trigger] bare[k]).value.nests_within((depth - 1) as nat) by {
                            assert(elements[k].value.nests_within((depth - 1) as nat));
                        }
                    }
                    if x.stripped().nests_within(depth) {
                        assert forall|k: int| 0 <= k < elements.len() implies (
                        #[trigger] elements[k]).value.nests_within((depth - 1) as nat) by {
                            assert(bare[k].value.nests_within((depth - 1) as nat));
                        }
                    }
                }
            }
            if x.valid() {
                assert forall|k: int| 0 <= k < bare.len() implies (#[trigger] bare[k]).valid() by {
                    assert(elements[k].valid());
                }
            }
        },
        Syntax::Object(gap, members) => {
            let bare = x.stripped()->Object_1;
            assert forall|k: int| 0 <= k < members.len() implies (
            #[trigger] bare[k]).element.value.value() == members[k].element.value.value()
                && bare[k].key == members[k].key && bare[k].element.value.nests_within(
                (depth - 1) as nat,
            ) == members[k].element.value.nests_within((depth - 1) as nat) && (members[k].valid()
                ==> bare[k].valid()) by {
                lemma_stripped(members[k].element.value, (depth - 1) as nat);
                assert(bare[k] == members[k].stripped());
                assert(bare[k].element == members[k].element.stripped());
                assert(bare[k].element.value == members[k].element.value.stripped());
            }
            lemma_stored_alike(bare, members, 0, Seq::empty());
            if depth > 0 {
                assert(x.stripped().nests_within(depth) == x.nests_within(depth)) by {
                    if x.nests_within(depth) {
                        assert forall|k: int| 0 <= k < bare.len() implies (
                        #[trigger] bare[k]).element.value.nests_within((depth - 1) as nat) by {
                            assert(members[k].element.value.nests_within((depth - 1) as nat));
                        }
                    }
                    if x.stripped().nests_within(depth) {
                        assert forall|k: int| 0 <= k < members.len() implies (
                        #[trigger] members[k]).element.value.nests_within((depth - 1) as nat) by {
                            assert(bare[k].element.value.nests_within((depth - 1) as nat));
                        }
                    }
                }
            }
            if x.valid() {
                assert forall|k: int| 0 <= k < bare.len() implies (#[trigger] bare[k]).valid() by {
                    assert(members[k].valid());
                }
            }
        },
        _ => {},
    }
}

/// The digit that is written for a number below sixteen stands for it.
pub proof fn lemma_hex_digit_of(n: int)
    requires
        0 <= n < 16,
    ensures
        is_hex_digit(hex_digit_of(n)),
        hex_value(hex_digit_of(n)) == n,
{
}

/// The piece that is written for a character is one that the grammar
/// allows, and stands for the character.
pub proof fn lemma_piece_of(c: char)
    ensures
        piece_of(c).valid(),
        piece_of(c).character() == c,
{
    if c != '"' && c != '\\' && is_control(c) {
        let code = c as int;
        lemma_hex_digit_of(code / 16);
        lemma_hex_digit_of(code % 16);
        let digits = seq!['0', '0', hex_digit_of(code / 16), hex_digit_of(code % 16)];
        assert(is_hex4(digits));
        assert(hex4_value(digits) == code);
    }
}

/// The pieces that are written for a string are ones that the grammar
/// allows, and stand for the string.
pub proof fn lemma_pieces_of(text: Seq<char>)
    ensures
        pieces_valid(pieces_of(text)),
        characters(pieces_of(text)) == text,
{
    assert forall|k: int| 0 <= k < text.len() implies (#[trigger] pieces_of(text)[k]).valid()
        && pieces_of(text)[k].character() == text[k] by {
        lemma_piece_of(text[k]);
    }
    assert(characters(pieces_of(text)) =~= text);
}

/// The members that are written for the entries of an object, stored one
/// after the other, are these entries, where no two of them have one key.
pub proof fn lemma_stored_entries(entries: Entries, members: Seq<Member>, from: int)
    requires
        keys_distinct(entries),
        members.len() == entries.len(),
        0 <= from <= entries.len(),
        forall|k: int|
            0 <= k < entries.len() ==> characters((#[trigger] members[k]).key) == entries[k].0
                && members[k].element.value.value() == entries[k].1,
    ensures
        stored(members, from, entries.take(from)) == entries,
    decreases entries.len() - from,
{
    if from == entries.len() {
        assert(entries.take(from) =~= entries);
    } else {
        let before = entries.take(from);
        let key = entries[from].0;
        lemma_find_key(before, key, 0);
        let at = find_key(before, key, 0);
        if at < before.len() {
            assert(before[at] == entries[at]);
            assert(entries[at].0 != entries[from].0);
        }
        assert(members[from].element.value.value() == entries[from].1);
        assert(with_entry(before, key, entries[from].1) =~= entries.take(from + 1));
        lemma_stored_entries(entries, members, from + 1);
    }
}

/// The tree that is written for a well-formed value is one that the grammar
/// allows, is as deep as the value, and stands for it.
pub proof fn lemma_canonical(value: Value, depth: nat)
    requires
        value.well_formed(),
    ensures
        canonical(value).valid(),
        canonical(value).value() == value,
        canonical(value).nests_within(depth) == value.nests_within(depth),
    decreases value,
{
    match value {
        Value::String(text) => {
            lemma_pieces_of(text);
        },
        Value::Array(items) => {
            let elements = canonical(value)->Array_1;
            assert forall|k: int| 0 <= k < items.len() implies (#[trigger] elements[k]).valid()
                && elements[k].value.value() == items[k] && elements[k].value.nests_within(
                (depth - 1) as nat,
            ) == items[k].nests_within((depth - 1) as nat) by {
                assert(items[k].well_formed());
                lemma_canonical(items[k], (depth - 1) as nat);
            }
            assert(canonical(value).value()->Array_0 =~= items);
            if depth > 0 {
                if value.nests_within(depth) {
                    assert forall|k: int| 0 <= k < elements.len() implies (
                    #[trigger] elements[k]).value.nests_within((depth - 1) as nat) by {
                        assert(items[k].nests_within((depth - 1) as nat));
                    }
                }
                if canonical(value).nests_within(depth) {
                    assert forall|k: int| 0 <= k < items.len() implies (
                    #[trigger] items[k]).nests_within((depth - 1) as nat) by {
                        assert(elements[k].value.nests_within((depth - 1) as nat));
                    }
                }
            }
        },
        Value::Object(entries) => {
            let members = canonical(value)->Object_1;
            assert forall|k: int| 0 <= k < entries.len() implies (#[trigger] members[k]).valid()
                && characters(members[k].key) == entries[k].0 && members[k].element.value.value()
                == entries[k].1 && members[k].element.value.nests_within((depth - 1) as nat)
                == entries[k].1.nests_within((depth - 1) as nat) by {
                assert(entries[k].1.well_formed());
                lemma_canonical(entries[k].1, (depth - 1) as nat);
                lemma_pieces_of(entries[k].0);
            }
            assert(entries.take(0) =~= Entries::empty());
            lemma_stored_entries(entries, members, 0);
            if depth > 0 {
                if value.nests_within(depth) {
                    assert forall|k: int| 0 <= k < members.len() implies (
                    #[trigger] members[k]).element.value.nests_within((depth - 1) as nat) by {
                        assert(entries[k].1.nests_within((depth - 1) as nat));
                    }
                }
                if canonical(value).nests_within(depth) {
                    assert forall|k: int| 0 <= k < entries.len() implies (
                    #[trigger] entries[k]).1.nests_within((depth - 1) as nat) by {
                        assert(members[k].element.value.nests_within((depth - 1) as nat));
                    }
                }
            }
        },
        _ => {},
    }
}

/// What the entries hold under a key stays when members with other keys are
/// stored.
pub proof fn lemma_stored_keeps(members: Seq<Member>, from: int, entries: Entries, key: Seq<char>)
    requires
        0 <= from,
        forall|k: int| from <= k < members.len() ==> characters(#[trigger] members[k].key) != key,
    ensures
        lookup(stored(members, from, entries), key) == lookup(entries, key),
    decreases members.len() - from,
{
    if from < members.len() {
        let member = members[from];
        assert(characters(member.key) != key);
        lemma_lookup_other(entries, characters(member.key), member.element.value.value(), key);
        lemma_stored_keeps(
            members,
            from + 1,
            with_entry(entries, characters(member.key), member.element.value.value()),
            key,
        );
    }
}

/// The entries hold, under the key of a member that no later member shares,
/// the value of that member.
pub proof fn lemma_stored_last(members: Seq<Member>, from: int, entries: Entries, last: int)
    requires
        0 <= from <= last < members.len(),
        forall|k: int|
            last < k < members.len() ==> characters(#[trigger] members[k].key) != characters(
                members[last].key,
            ),
    ensures
        lookup(stored(members, from, entries), characters(members[last].key)) == Some(
            members[last].element.value.value(),
        ),
    decreases last - from,
{
    let member = members[from];
    let kept = with_entry(entries, characters(member.key), member.element.value.value());
    if from == last {
        lemma_lookup_stored(entries, characters(member.key), member.element.value.value());
        lemma_stored_keeps(members, from + 1, kept, characters(member.key));
    } else {
        lemma_stored_last(members, from + 1, kept, last);
    }
}

} // verus!
