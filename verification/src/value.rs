//! The tree that a JSON document parses to, and the mathematical value that
//! the contracts speak of.
use crate::grammar::is_number;
use vstd::prelude::*;

verus! {

/// A JSON value as contracts see it: the view of a [`Json`] tree.
///
/// A number is its lexeme, the characters that the document wrote for it. An
/// object is the sequence of its entries in the order in which their keys first
/// occurred.
pub enum Value {
    Null,
    Boolean(bool),
    Number(Seq<char>),
    String(Seq<char>),
    Array(Seq<Value>),
    Object(Seq<(Seq<char>, Value)>),
}

/// The entries of an object: each a key and the value stored under it.
pub type Entries = Seq<(Seq<char>, Value)>;

/// The least index from `from` on whose entry has the key `key`, or the number
/// of entries where there is none.
pub open spec fn find_key(entries: Entries, key: Seq<char>, from: int) -> int
    decreases entries.len() - from,
{
    if from < 0 || from >= entries.len() {
        entries.len() as int
    } else if entries[from].0 == key {
        from
    } else {
        find_key(entries, key, from + 1)
    }
}

/// The value that `entries` holds under `key`.
pub open spec fn lookup(entries: Entries, key: Seq<char>) -> Option<Value> {
    let at = find_key(entries, key, 0);
    if at < entries.len() {
        Some(entries[at].1)
    } else {
        None
    }
}

/// `entries` after `value` was stored under `key`: a key that is present keeps
/// its place and takes the new value, a new key goes to the end.
pub open spec fn with_entry(entries: Entries, key: Seq<char>, value: Value) -> Entries {
    let at = find_key(entries, key, 0);
    if at < entries.len() {
        entries.update(at, (key, value))
    } else {
        entries.push((key, value))
    }
}

/// No two entries have the same key.
pub open spec fn keys_distinct(entries: Entries) -> bool {
    forall|i: int, j: int|
        0 <= i < j < entries.len() ==> (#[trigger] entries[i]).0 != (#[trigger] entries[j]).0
}

/// Where a key is looked for, it is found at its first entry from `from` on,
/// or nowhere.
pub proof fn lemma_find_key(entries: Entries, key: Seq<char>, from: int)
    requires
        0 <= from <= entries.len(),
    ensures
        from <= find_key(entries, key, from) <= entries.len(),
        find_key(entries, key, from) < entries.len() ==> entries[find_key(entries, key, from)].0
            == key,
        forall|k: int|
            from <= k < find_key(entries, key, from) ==> (#[trigger] entries[k]).0 != key,
    decreases entries.len() - from,
{
    if from < entries.len() && entries[from].0 != key {
        lemma_find_key(entries, key, from + 1);
    }
}

/// Storing an entry leaves the keys distinct, and leaves every entry but the
/// one that holds the new value.
pub proof fn lemma_with_entry(entries: Entries, key: Seq<char>, value: Value)
    requires
        keys_distinct(entries),
    ensures
        keys_distinct(with_entry(entries, key, value)),
        forall|k: int|
            0 <= k < with_entry(entries, key, value).len() ==> (#[trigger] with_entry(
                entries,
                key,
                value,
            )[k]).1 == value || (k < entries.len() && with_entry(entries, key, value)[k]
                == entries[k]),
{
    lemma_find_key(entries, key, 0);
    let at = find_key(entries, key, 0);
    let kept = with_entry(entries, key, value);
    assert forall|a: int, b: int| 0 <= a < b < kept.len() implies (#[trigger] kept[a]).0 != (
    #[trigger] kept[b]).0 by {
        if at < entries.len() {
            assert(entries[a].0 != entries[b].0);
        } else if b < entries.len() {
            assert(entries[a].0 != entries[b].0);
        } else {
            assert(entries[a].0 != key);
        }
    }
}

/// A key holds the value that was stored under it last.
pub proof fn lemma_lookup_stored(entries: Entries, key: Seq<char>, value: Value)
    ensures
        lookup(with_entry(entries, key, value), key) == Some(value),
{
    let kept = with_entry(entries, key, value);
    lemma_find_key(entries, key, 0);
    lemma_find_key(kept, key, 0);
    let before = find_key(entries, key, 0);
    let after = find_key(kept, key, 0);
    assert(kept[before].0 == key);
    if after < before {
        assert(entries[after].0 != key);
    }
}

/// Storing under one key leaves what the other keys hold.
pub proof fn lemma_lookup_other(entries: Entries, key: Seq<char>, value: Value, other: Seq<char>)
    requires
        other != key,
    ensures
        lookup(with_entry(entries, key, value), other) == lookup(entries, other),
{
    let kept = with_entry(entries, key, value);
    lemma_find_key(entries, key, 0);
    lemma_find_key(entries, other, 0);
    lemma_find_key(kept, other, 0);
    let before = find_key(entries, other, 0);
    let after = find_key(kept, other, 0);
    if before < entries.len() {
        assert(kept[before].0 == other);
        if after < before {
            assert(entries[after].0 != other);
        }
    } else if after < kept.len() {
        if after < entries.len() {
            assert(entries[after].0 != other);
        }
    }
}

impl Value {
    /// Every number is written as the grammar of numbers allows, and no
    /// object has two entries with one key.
    pub open spec fn well_formed(self) -> bool
        decreases self,
    {
        match self {
            Value::Number(lexeme) => is_number(lexeme),
            Value::Array(items) => forall|k: int|
                0 <= k < items.len() ==> (#[trigger] items[k]).well_formed(),
            Value::Object(entries) => keys_distinct(entries) && forall|k: int|
                0 <= k < entries.len() ==> (#[trigger] entries[k]).1.well_formed(),
            _ => true,
        }
    }

    /// No more than `depth` arrays and objects stand inside one another.
    pub open spec fn nests_within(self, depth: nat) -> bool
        decreases self,
    {
        match self {
            Value::Array(items) => depth > 0 && forall|k: int|
                0 <= k < items.len() ==> (#[trigger] items[k]).nests_within((depth - 1) as nat),
            Value::Object(entries) => depth > 0 && forall|k: int|
                0 <= k < entries.len() ==> (#[trigger] entries[k]).1.nests_within(
                    (depth - 1) as nat,
                ),
            _ => true,
        }
    }
}

/// A number of a JSON document: the lexeme as the document wrote it, which
/// follows the grammar of JSON numbers.
#[derive(Debug, PartialEq, Eq)]
pub struct JsonNumber {
    lexeme: String,
}

impl View for JsonNumber {
    type V = Seq<char>;

    closed spec fn view(&self) -> Seq<char> {
        self.lexeme@
    }
}

impl JsonNumber {
    /// The lexeme is a number from its first character to its last.
    #[verifier::type_invariant]
    spec fn lexeme_is_number(self) -> bool {
        is_number(self.lexeme@)
    }

    /// Wraps a lexeme that was found to be a number.
    pub(crate) fn from_lexeme(lexeme: String) -> (number: JsonNumber)
        requires
            is_number(lexeme@),
        ensures
            number@ == lexeme@,
    {
        JsonNumber { lexeme }
    }

    /// The lexeme of the number.
    pub fn as_str(&self) -> (lexeme: &str)
        ensures
            lexeme@ == self@,
            is_number(self@),
    {
        proof {
            use_type_invariant(self);
        }
        self.lexeme.as_str()
    }
}

/// The entries of a JSON object, in the order in which their keys first
/// occurred.
#[derive(Debug, PartialEq, Eq)]
pub struct JsonObject {
    entries: Vec<(String, Json)>,
}

/// A JSON value.
#[derive(Debug, PartialEq, Eq)]
pub enum Json {
    Null,
    Boolean(bool),
    Number(JsonNumber),
    String(String),
    Array(Vec<Json>),
    Object(JsonObject),
}

impl View for JsonObject {
    type V = Entries;

    closed spec fn view(&self) -> Entries
        decreases self,
    {
        Seq::new(
            self.entries@.len(),
            |i: int|
                if 0 <= i < self.entries@.len() {
                    (self.entries[i].0@, self.entries[i].1@)
                } else {
                    (Seq::empty(), Value::Null)
                },
        )
    }
}

impl View for Json {
    type V = Value;

    open spec fn view(&self) -> Value
        decreases self,
    {
        match self {
            Json::Null => Value::Null,
            Json::Boolean(b) => Value::Boolean(*b),
            Json::Number(number) => Value::Number(number@),
            Json::String(text) => Value::String(text@),
            Json::Array(items) => Value::Array(
                Seq::new(
                    items@.len(),
                    |i: int|
                        if 0 <= i < items@.len() {
                            items[i]@
                        } else {
                            Value::Null
                        },
                ),
            ),
            Json::Object(object) => Value::Object(object@),
        }
    }
}

/// The entries that pairs of a key and a tree stand for, in their order.
pub open spec fn entries_view(entries: Seq<(String, Json)>) -> Entries {
    Seq::new(entries.len(), |i: int| (entries[i].0@, entries[i].1@))
}

/// The values that the trees of `items` stand for, in their order.
pub open spec fn views(items: Seq<Json>) -> Seq<Value> {
    Seq::new(items.len(), |i: int| items[i]@)
}

/// An array stands for the values of its items.
pub proof fn lemma_array_view(items: Vec<Json>)
    ensures
        Json::Array(items)@ == Value::Array(views(items@)),
{
    assert(Json::Array(items)@->Array_0 =~= views(items@));
}

impl JsonObject {
    /// No two entries have the same key.
    #[verifier::type_invariant]
    spec fn one_entry_for_each_key(self) -> bool {
        keys_distinct(self@)
    }

    /// An object without entries.
    pub fn new() -> (object: JsonObject)
        ensures
            object@ == Entries::empty(),
    {
        JsonObject { entries: Vec::new() }
    }

    /// The number of entries, no two of which have the same key.
    pub fn len(&self) -> (n: usize)
        ensures
            n == self@.len(),
            keys_distinct(self@),
    {
        proof {
            use_type_invariant(self);
        }
        self.entries.len()
    }

    /// Whether the object has no entry.
    pub fn is_empty(&self) -> (empty: bool)
        ensures
            empty == (self@.len() == 0),
    {
        self.entries.len() == 0
    }

    /// The value stored under `key`, if there is one.
    pub fn get(&self, key: &str) -> (found: Option<&Json>)
        ensures
            match lookup(self@, key@) {
                Some(value) => found matches Some(json) && json@ == value,
                None => found is None,
            },
    {
        let mut i: usize = 0;
        while i < self.entries.len()
            invariant
                i <= self.entries.len(),
                find_key(self@, key@, 0) == find_key(self@, key@, i as int),
            decreases self.entries.len() - i,
        {
            if *self.entries[i].0.as_str() == *key {
                return Some(&self.entries[i].1);
            }
            i += 1;
        }
        None
    }

    /// Stores `value` under `key`. A key that is present keeps its place and
    /// takes the new value; a new key goes to the end.
    pub fn insert(&mut self, key: String, value: Json)
        ensures
            final(self)@ == with_entry(old(self)@, key@, value@),
    {
        proof {
            use_type_invariant(&*self);
            lemma_with_entry(self@, key@, value@);
        }
        let mut taken = JsonObject::new();
        std::mem::swap(self, &mut taken);
        let ghost before = taken@;
        let mut entries = taken.entries;
        assert(entries_view(entries@) =~= before);
        let mut i: usize = 0;
        while i < entries.len() && *entries[i].0.as_str() != *key.as_str()
            invariant
                i <= entries.len(),
                entries_view(entries@) == before,
                find_key(before, key@, 0) == find_key(before, key@, i as int),
            decreases entries.len() - i,
        {
            i += 1;
        }
        if i < entries.len() {
            entries.set(i, (key, value));
        } else {
            entries.push((key, value));
        }
        assert(entries_view(entries@) =~= with_entry(before, key@, value@));
        *self = JsonObject::from_entries(entries);
    }

    /// The object of entries of which no two have the same key.
    fn from_entries(entries: Vec<(String, Json)>) -> (object: JsonObject)
        requires
            keys_distinct(entries_view(entries@)),
        ensures
            object@ == entries_view(entries@),
    {
        proof {
            assert((JsonObject { entries })@ =~= entries_view(entries@));
        }
        JsonObject { entries }
    }

    /// The entries, in their order. No two of them have the same key.
    pub fn entries(&self) -> (entries: &Vec<(String, Json)>)
        ensures
            entries_view(entries@) == self@,
            keys_distinct(self@),
    {
        proof {
            use_type_invariant(self);
        }
        assert(entries_view(self.entries@) =~= self@);
        &self.entries
    }

    /// The entries, in their order, out of the object.
    pub fn into_entries(self) -> (entries: Vec<(String, Json)>)
        ensures
            entries_view(entries@) == self@,
            keys_distinct(self@),
    {
        proof {
            use_type_invariant(&self);
        }
        assert(entries_view(self.entries@) =~= self@);
        self.entries
    }
}

} // verus!
