//! A text that holds the characters of a tree is read as the value of the
//! tree.
use crate::grammar::{
    array, done, is_digit, number_stops, object, peek, starts_value, value, whitespace_end,
};
use crate::proofs::numbers::{lemma_number_bounds, lemma_number_read};
use crate::proofs::strings::{lemma_literal_read, lemma_string_read};
use crate::proofs::windows::{
    delimited, holds, lemma_holds_both, lemma_holds_peek, lemma_no_whitespace,
    lemma_whitespace_skipped,
};
use crate::syntax::{
    characters, element_values, elements_text, members_text, stored, string_text, Element, Member,
    Syntax,
};
use crate::value::{with_entry, Entries, Value};
use vstd::prelude::*;

verus! {

/// A value begins with a character that tells its kind, and that is no
/// whitespace.
pub proof fn lemma_first_character(x: Syntax)
    requires
        x.valid(),
    ensures
        x.text().len() > 0,
        starts_value(x.text()[0]),
        match x {
            Syntax::Null => x.text()[0] == 'n',
            Syntax::True => x.text()[0] == 't',
            Syntax::False => x.text()[0] == 'f',
            Syntax::Number(_) => x.text()[0] == '-' || is_digit(x.text()[0]),
            Syntax::String(_) => x.text()[0] == '"',
            Syntax::Array(_, _) => x.text()[0] == '[',
            Syntax::Object(_, _) => x.text()[0] == '{',
        },
{
    reveal_strlit("null");
    reveal_strlit("true");
    reveal_strlit("false");
    match x {
        Syntax::Number(lexeme) => {
            lemma_number_bounds(lexeme, 0);
        },
        _ => {},
    }
}

/// An array stands for the values of its elements.
pub proof fn lemma_array_value(gap: Seq<char>, elements: Seq<Element>)
    ensures
        Syntax::Array(gap, elements).value() == Value::Array(element_values(elements)),
{
    assert(Syntax::Array(gap, elements).value()->Array_0 =~= element_values(elements));
}

/// A value that the text holds behind whitespace, and that does not go on
/// behind its last character, is read as what it stands for.
pub proof fn lemma_value_read(s: Seq<char>, i: int, start: int, x: Syntax, depth: nat)
    requires
        x.valid(),
        x.nests_within(depth),
        whitespace_end(s, i) == start,
        holds(s, start, x.text()),
        delimited(s, start + x.text().len()),
    ensures
        value(s, i, depth) == done(x.value(), start + x.text().len()),
    decreases x, 0nat,
{
    let text = x.text();
    lemma_first_character(x);
    lemma_holds_peek(s, start, text, 0);
    match x {
        Syntax::Null | Syntax::True | Syntax::False => {
            lemma_literal_read(s, start, x);
        },
        Syntax::Number(lexeme) => {
            assert(number_stops(s, start + lexeme.len()));
            lemma_number_read(s, start, lexeme);
        },
        Syntax::String(pieces) => {
            lemma_string_read(s, start, pieces);
        },
        Syntax::Array(gap, elements) => {
            lemma_array_read(s, start, gap, elements, depth);
        },
        Syntax::Object(gap, members) => {
            lemma_object_read(s, start, gap, members, depth);
        },
    }
}

/// An array that the text holds is read as the values of its elements.
pub proof fn lemma_array_read(
    s: Seq<char>,
    start: int,
    gap: Seq<char>,
    elements: Seq<Element>,
    depth: nat,
)
    requires
        Syntax::Array(gap, elements).valid(),
        Syntax::Array(gap, elements).nests_within(depth),
        holds(s, start, Syntax::Array(gap, elements).text()),
    ensures
        array(s, start, depth) == done(
            Syntax::Array(gap, elements).value(),
            start + Syntax::Array(gap, elements).text().len(),
        ),
    decreases elements, elements.len() + 1,
{
    let text = Syntax::Array(gap, elements).text();
    lemma_array_value(gap, elements);
    lemma_holds_peek(s, start, text, 0);
    lemma_no_whitespace(s, start);
    if elements.len() == 0 {
        assert(text =~= seq!['['] + (gap + seq![']']));
        lemma_holds_both(s, start, seq!['['], gap + seq![']']);
        lemma_holds_both(s, start + 1, gap, seq![']']);
        lemma_holds_peek(s, start + 1 + gap.len(), seq![']'], 0);
        lemma_whitespace_skipped(s, start + 1, gap, 0);
        assert(element_values(elements) =~= Seq::<Value>::empty());
    } else {
        let inside = elements_text(elements, 0);
        assert(text =~= seq!['['] + (inside + seq![']']));
        lemma_holds_both(s, start, seq!['['], inside + seq![']']);
        lemma_elements_begin(s, start + 1, elements, 0, seq![']']);
        let first = start + 1 + elements[0].before.len();
        assert(whitespace_end(s, start + 1) == first);
        assert(peek(s, first) != Some(']'));
        lemma_elements_read(s, first, start + 1, elements, 0, (depth - 1) as nat, Seq::empty());
        assert(Seq::<Value>::empty() + element_values(elements).skip(0) =~= element_values(
            elements,
        ));
    }
}

/// An object that the text holds is read as its members, stored one after
/// the other.
pub proof fn lemma_object_read(
    s: Seq<char>,
    start: int,
    gap: Seq<char>,
    members: Seq<Member>,
    depth: nat,
)
    requires
        Syntax::Object(gap, members).valid(),
        Syntax::Object(gap, members).nests_within(depth),
        holds(s, start, Syntax::Object(gap, members).text()),
    ensures
        object(s, start, depth) == done(
            Syntax::Object(gap, members).value(),
            start + Syntax::Object(gap, members).text().len(),
        ),
    decreases members, members.len() + 1,
{
    let text = Syntax::Object(gap, members).text();
    lemma_holds_peek(s, start, text, 0);
    lemma_no_whitespace(s, start);
    if members.len() == 0 {
        assert(text =~= seq!['{'] + (gap + seq!['}']));
        lemma_holds_both(s, start, seq!['{'], gap + seq!['}']);
        lemma_holds_both(s, start + 1, gap, seq!['}']);
        lemma_holds_peek(s, start + 1 + gap.len(), seq!['}'], 0);
        lemma_whitespace_skipped(s, start + 1, gap, 0);
        assert(stored(members, 0, Seq::empty()) == Entries::empty());
    } else {
        let inside = members_text(members, 0);
        assert(text =~= seq!['{'] + (inside + seq!['}']));
        lemma_holds_both(s, start, seq!['{'], inside + seq!['}']);
        lemma_members_begin(s, start + 1, members, 0, seq!['}']);
        let first = start + 1 + members[0].before.len();
        assert(whitespace_end(s, start + 1) == first);
        assert(peek(s, first) != Some('}'));
        lemma_members_read(s, first, start + 1, members, 0, (depth - 1) as nat, Seq::empty());
    }
}

/// What follows an element in the text of its array: the closing bracket
/// behind the last, a comma and the later elements behind another.
pub open spec fn elements_rest(elements: Seq<Element>, from: int, close: Seq<char>) -> Seq<char> {
    if from == elements.len() - 1 {
        close
    } else {
        seq![','] + elements_text(elements, from + 1) + close
    }
}

/// What follows a member in the text of its object: the closing brace behind
/// the last, a comma and the later members behind another.
pub open spec fn members_rest(members: Seq<Member>, from: int, close: Seq<char>) -> Seq<char> {
    if from == members.len() - 1 {
        close
    } else {
        seq![','] + members_text(members, from + 1) + close
    }
}

/// The characters of the elements from index `from` on and of what follows
/// them, part by part.
pub proof fn lemma_elements_text(elements: Seq<Element>, from: int, close: Seq<char>)
    requires
        0 <= from < elements.len(),
    ensures
        elements_text(elements, from) + close == elements[from].before + (
        elements[from].value.text() + (elements[from].after + elements_rest(
            elements,
            from,
            close,
        ))),
        elements_rest(elements, from, close).len() > 0 ==> elements_rest(elements, from, close)[0]
            == if from == elements.len() - 1 {
            close[0]
        } else {
            ','
        },
        from < elements.len() - 1 ==> elements_rest(elements, from, close) == seq![','] + (
        elements_text(elements, from + 1) + close),
        elements_text(elements, from).len() + close.len() == elements[from].before.len()
            + elements[from].value.text().len() + elements[from].after.len() + elements_rest(
            elements,
            from,
            close,
        ).len(),
{
    let e = elements[from];
    assert(e.text() == e.before + e.value.text() + e.after);
    if from == elements.len() - 1 {
        assert(elements_text(elements, from) == e.text());
        assert(e.text() + close =~= e.before + (e.value.text() + (e.after + close)));
    } else {
        let next = elements_text(elements, from + 1);
        assert(elements_text(elements, from) == e.text() + seq![','] + next);
        assert(e.text() + seq![','] + next + close =~= e.before + (e.value.text() + (e.after + (
        seq![','] + next + close))));
        assert(seq![','] + next + close =~= seq![','] + (next + close));
    }
}

/// The characters of the members from index `from` on and of what follows
/// them, part by part.
pub proof fn lemma_members_text(members: Seq<Member>, from: int, close: Seq<char>)
    requires
        0 <= from < members.len(),
    ensures
        members_text(members, from) + close == members[from].before + (string_text(
            members[from].key,
        ) + (members[from].between + (seq![':'] + (members[from].element.before + (
        members[from].element.value.text() + (members[from].element.after + members_rest(
            members,
            from,
            close,
        ))))))),
        members_rest(members, from, close).len() > 0 ==> members_rest(members, from, close)[0]
            == if from == members.len() - 1 {
            close[0]
        } else {
            ','
        },
        from < members.len() - 1 ==> members_rest(members, from, close) == seq![','] + (
        members_text(members, from + 1) + close),
        members_text(members, from).len() + close.len() == members[from].before.len()
            + string_text(members[from].key).len() + members[from].between.len() + 1
            + members[from].element.before.len() + members[from].element.value.text().len()
            + members[from].element.after.len() + members_rest(members, from, close).len(),
{
    let m = members[from];
    let e = m.element;
    let key = string_text(m.key);
    assert(e.text() == e.before + e.value.text() + e.after);
    assert(m.text() == m.before + key + m.between + seq![':'] + e.text());
    assert(m.text() =~= m.before + (key + (m.between + (seq![':'] + (e.before + (e.value.text()
        + e.after))))));
    if from == members.len() - 1 {
        assert(members_text(members, from) == m.text());
        assert(m.text() + close =~= m.before + (key + (m.between + (seq![':'] + (e.before + (
        e.value.text() + (e.after + close)))))));
    } else {
        let next = members_text(members, from + 1);
        assert(members_text(members, from) == m.text() + seq![','] + next);
        assert(m.text() + seq![','] + next + close =~= m.before + (key + (m.between + (seq![':']
            + (e.before + (e.value.text() + (e.after + (seq![','] + next + close))))))));
        assert(seq![','] + next + close =~= seq![','] + (next + close));
    }
}

/// Where the text holds the elements from index `from` on, the whitespace
/// before the first of them is skipped up to its value.
pub proof fn lemma_elements_begin(
    s: Seq<char>,
    p: int,
    elements: Seq<Element>,
    from: int,
    close: Seq<char>,
)
    requires
        0 <= from < elements.len(),
        elements[from].valid(),
        holds(s, p, elements_text(elements, from) + close),
    ensures
        forall|q: int|
            p <= q <= p + elements[from].before.len() ==> #[trigger] whitespace_end(s, q) == p
                + elements[from].before.len(),
        peek(s, p + elements[from].before.len()) matches Some(c) && starts_value(c),
{
    let e = elements[from];
    let later = elements_rest(elements, from, close);
    lemma_elements_text(elements, from, close);
    lemma_holds_both(s, p, e.before, e.value.text() + (e.after + later));
    lemma_holds_both(s, p + e.before.len(), e.value.text(), e.after + later);
    lemma_first_character(e.value);
    lemma_holds_peek(s, p + e.before.len(), e.value.text(), 0);
    assert forall|q: int| p <= q <= p + e.before.len() implies #[trigger] whitespace_end(s, q)
        == p + e.before.len() by {
        lemma_whitespace_skipped(s, p, e.before, q - p);
    }
}

/// Where the text holds the elements of an array from index `from` on and
/// the closing bracket, they are read and added to `items`.
pub proof fn lemma_elements_read(
    s: Seq<char>,
    q: int,
    p: int,
    elements: Seq<Element>,
    from: int,
    depth: nat,
    items: Seq<Value>,
)
    requires
        0 <= from < elements.len(),
        forall|k: int| 0 <= k < elements.len() ==> (#[trigger] elements[k]).valid(),
        forall|k: int|
            0 <= k < elements.len() ==> (#[trigger] elements[k]).value.nests_within(depth),
        holds(s, p, elements_text(elements, from) + seq![']']),
        p <= q <= p + elements[from].before.len(),
    ensures
        crate::grammar::elements(s, q, depth, items) == done(
            Value::Array(items + element_values(elements).skip(from)),
            p + elements_text(elements, from).len() + 1,
        ),
    decreases elements, elements.len() - from,
{
    let e = elements[from];
    let last = from == elements.len() - 1;
    let close = seq![']'];
    let later = elements_rest(elements, from, close);
    lemma_elements_text(elements, from, close);
    lemma_holds_both(s, p, e.before, e.value.text() + (e.after + later));
    let value_at = p + e.before.len();
    lemma_holds_both(s, value_at, e.value.text(), e.after + later);
    let after_at = value_at + e.value.text().len();
    lemma_holds_both(s, after_at, e.after, later);
    let rest_at = after_at + e.after.len();
    lemma_holds_peek(s, rest_at, later, 0);
    lemma_elements_begin(s, p, elements, from, close);
    assert(whitespace_end(s, q) == value_at);
    assert(delimited(s, after_at)) by {
        if e.after.len() > 0 {
            lemma_holds_peek(s, after_at, e.after, 0);
        }
    }
    lemma_value_read(s, q, value_at, e.value, depth);
    lemma_whitespace_skipped(s, after_at, e.after, 0);
    let item = e.value.value();
    if last {
        assert(items.push(item) =~= items + element_values(elements).skip(from));
    } else {
        lemma_holds_both(s, rest_at, seq![','], elements_text(elements, from + 1) + close);
        lemma_elements_read(
            s,
            rest_at + 1,
            rest_at + 1,
            elements,
            from + 1,
            depth,
            items.push(item),
        );
        assert(items.push(item) + element_values(elements).skip(from + 1) =~= items
            + element_values(elements).skip(from));
    }
}

/// Where the text holds the members from index `from` on, the whitespace
/// before the first of them is skipped up to its key.
pub proof fn lemma_members_begin(
    s: Seq<char>,
    p: int,
    members: Seq<Member>,
    from: int,
    close: Seq<char>,
)
    requires
        0 <= from < members.len(),
        members[from].valid(),
        holds(s, p, members_text(members, from) + close),
    ensures
        forall|q: int|
            p <= q <= p + members[from].before.len() ==> #[trigger] whitespace_end(s, q) == p
                + members[from].before.len(),
        peek(s, p + members[from].before.len()) == Some('"'),
{
    let m = members[from];
    let later = members_rest(members, from, close);
    let key = string_text(m.key);
    let behind = m.between + (seq![':'] + (m.element.before + (m.element.value.text() + (
    m.element.after + later))));
    lemma_members_text(members, from, close);
    lemma_holds_both(s, p, m.before, key + behind);
    lemma_holds_both(s, p + m.before.len(), key, behind);
    lemma_holds_peek(s, p + m.before.len(), key, 0);
    assert forall|q: int| p <= q <= p + m.before.len() implies #[trigger] whitespace_end(s, q)
        == p + m.before.len() by {
        lemma_whitespace_skipped(s, p, m.before, q - p);
    }
}

/// Where the text holds the members of an object from index `from` on and
/// the closing brace, they are read and stored in `entries`.
pub proof fn lemma_members_read(
    s: Seq<char>,
    q: int,
    p: int,
    members: Seq<Member>,
    from: int,
    depth: nat,
    entries: Entries,
)
    requires
        0 <= from < members.len(),
        forall|k: int| 0 <= k < members.len() ==> (#[trigger] members[k]).valid(),
        forall|k: int|
            0 <= k < members.len() ==> (#[trigger] members[k]).element.value.nests_within(depth),
        holds(s, p, members_text(members, from) + seq!['}']),
        p <= q <= p + members[from].before.len(),
    ensures
        crate::grammar::members(s, q, depth, entries) == done(
            Value::Object(stored(members, from, entries)),
            p + members_text(members, from).len() + 1,
        ),
    decreases members, members.len() - from,
{
    let m = members[from];
    let e = m.element;
    let last = from == members.len() - 1;
    let close = seq!['}'];
    let later = members_rest(members, from, close);
    let key = string_text(m.key);
    lemma_members_text(members, from, close);
    lemma_holds_both(
        s,
        p,
        m.before,
        key + (m.between + (seq![':'] + (e.before + (e.value.text() + (e.after + later))))),
    );
    let key_at = p + m.before.len();
    lemma_holds_both(
        s,
        key_at,
        key,
        m.between + (seq![':'] + (e.before + (e.value.text() + (e.after + later)))),
    );
    let between_at = key_at + key.len();
    lemma_holds_both(
        s,
        between_at,
        m.between,
        seq![':'] + (e.before + (e.value.text() + (e.after + later))),
    );
    let colon_at = between_at + m.between.len();
    lemma_holds_both(s, colon_at, seq![':'], e.before + (e.value.text() + (e.after + later)));
    lemma_holds_peek(s, colon_at, seq![':'], 0);
    let before_at = colon_at + 1;
    lemma_holds_both(s, before_at, e.before, e.value.text() + (e.after + later));
    let value_at = before_at + e.before.len();
    lemma_holds_both(s, value_at, e.value.text(), e.after + later);
    let after_at = value_at + e.value.text().len();
    lemma_holds_both(s, after_at, e.after, later);
    let rest_at = after_at + e.after.len();
    lemma_holds_peek(s, rest_at, later, 0);
    // the key
    lemma_members_begin(s, p, members, from, close);
    assert(whitespace_end(s, q) == key_at);
    lemma_string_read(s, key_at, m.key);
    // the colon
    lemma_whitespace_skipped(s, between_at, m.between, 0);
    // the value
    lemma_first_character(e.value);
    lemma_holds_peek(s, value_at, e.value.text(), 0);
    lemma_whitespace_skipped(s, before_at, e.before, 0);
    assert(delimited(s, after_at)) by {
        if e.after.len() > 0 {
            lemma_holds_peek(s, after_at, e.after, 0);
        }
    }
    lemma_value_read(s, before_at, value_at, e.value, depth);
    lemma_whitespace_skipped(s, after_at, e.after, 0);
    let kept = with_entry(entries, characters(m.key), e.value.value());
    if last {
        assert(stored(members, from + 1, kept) == kept);
    } else {
        lemma_holds_both(s, rest_at, seq![','], members_text(members, from + 1) + close);
        lemma_members_read(s, rest_at + 1, rest_at + 1, members, from + 1, depth, kept);
    }
}

} // verus!
