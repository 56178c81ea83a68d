//! JSON documents as the library reads and writes them.
//!
//! remctl and bearcli speak JSON; the program's edge parses their output
//! (and renders what the library builds) with `serde_json`, and hands the
//! library these plain values.

use vstd::prelude::*;

use crate::text::{chars_of, dec, dec_signed, decimal, decimal_signed, string_of};
use crate::models::same_chars;

verus! {

/// A JSON number: its value as `i64` when it has one, whether it is zero, and
/// its decimal text as `serde_json` writes it.
#[derive(Debug, Clone, PartialEq)]
pub struct JsonNumber {
    pub int: Option<i64>,
    pub zero: bool,
    pub text: String,
}

/// A JSON value. Arrays and objects also carry their compact text as read,
/// which is how a value that should have been a string is shown; values the
/// library builds leave it empty.
#[derive(Debug)]
pub enum Json {
    Null,
    Bool(bool),
    Number(JsonNumber),
    Str(String),
    Array(Vec<Json>, String),
    /// Entries in order, keys distinct.
    Object(Vec<(String, Json)>, String),
}

/// The value an optional reference points to.
pub open spec fn deref_opt<T>(o: Option<&T>) -> Option<T> {
    match o {
        Some(x) => Some(*x),
        None => None,
    }
}

/// The value stored under `key` among `entries`: the first such entry.
pub open spec fn entry_get(entries: Seq<(String, Json)>, key: Seq<char>) -> Option<Json>
    decreases entries.len(),
{
    if entries.len() == 0 {
        None
    } else if entries[0].0@ == key {
        Some(entries[0].1)
    } else {
        entry_get(entries.drop_first(), key)
    }
}

/// `value.get(key)`: the member of an object, None for anything else.
pub open spec fn json_get(j: Json, key: Seq<char>) -> Option<Json> {
    match j {
        Json::Object(entries, _) => entry_get(entries@, key),
        _ => None,
    }
}

/// The index of the first entry with this key.
pub open spec fn entry_index(entries: Seq<(String, Json)>, key: Seq<char>, i: int) -> bool {
    0 <= i < entries.len() && entries[i].0@ == key && forall|j: int|
        0 <= j < i ==> entries[j].0@ != key
}

pub proof fn lemma_entry_get(entries: Seq<(String, Json)>, key: Seq<char>)
    ensures
        entry_get(entries, key) is None <==> forall|j: int|
            0 <= j < entries.len() ==> entries[j].0@ != key,
        forall|i: int| entry_index(entries, key, i) ==> entry_get(entries, key) == Some(entries[i].1),
    decreases entries.len(),
{
    if entries.len() > 0 {
        lemma_entry_get(entries.drop_first(), key);
        assert forall|i: int| entry_index(entries, key, i) implies entry_get(entries, key) == Some(
            entries[i].1,
        ) by {
            if i > 0 {
                assert(entry_index(entries.drop_first(), key, i - 1));
            }
        }
        if entries[0].0@ != key {
            assert forall|j: int| 0 <= j < entries.len() && entry_get(entries, key) is None implies entries[j].0@ != key by {
                if j > 0 {
                    assert(entries.drop_first()[j - 1] == entries[j]);
                }
            }
        }
    }
}

/// The member of `entries` named `key`, if any.
pub fn entries_get<'a>(entries: &'a Vec<(String, Json)>, key: &str) -> (r: Option<&'a Json>)
    ensures
        deref_opt(r) == entry_get(entries@, key@),
{
    let k = chars_of(key);
    let mut i: usize = 0;
    while i < entries.len()
        invariant
            i <= entries@.len(),
            k@ == key@,
            forall|j: int| 0 <= j < i ==> entries@[j].0@ != key@,
        decreases entries.len() - i,
    {
        let entry = &entries[i];
        assert(*entry == entries@[i as int]);
        let name = chars_of(entry.0.as_str());
        assert(name@ == entries@[i as int].0@);
        if same_chars(name.as_slice(), k.as_slice()) {
            proof {
                lemma_entry_get(entries@, key@);
                assert(entry_index(entries@, key@, i as int));
            }
            return Some(&entries[i].1);
        }
        i += 1;
    }
    proof {
        lemma_entry_get(entries@, key@);
    }
    None
}

impl Json {
    /// `value.get(key)`.
    pub fn get(&self, key: &str) -> (r: Option<&Json>)
        ensures
            deref_opt(r) == json_get(*self, key@),
    {
        match self {
            Json::Object(entries, _) => entries_get(entries, key),
            _ => None,
        }
    }

    /// `value.as_str()`.
    pub fn as_str(&self) -> (r: Option<&String>)
        ensures
            deref_opt(r) == match *self {
                Json::Str(s) => Some(s),
                _ => None,
            },
    {
        match self {
            Json::Str(s) => Some(s),
            _ => None,
        }
    }

    /// `value.as_bool()`.
    pub fn as_bool(&self) -> (r: Option<bool>)
        ensures
            r == match *self {
                Json::Bool(b) => Some(b),
                _ => None,
            },
    {
        match self {
            Json::Bool(b) => Some(*b),
            _ => None,
        }
    }

    /// `value.as_i64()`.
    pub fn as_i64(&self) -> (r: Option<i64>)
        ensures
            r == match *self {
                Json::Number(n) => n.int,
                _ => None,
            },
    {
        match self {
            Json::Number(n) => n.int,
            _ => None,
        }
    }

    /// `value.as_array()`.
    pub fn as_array(&self) -> (r: Option<&Vec<Json>>)
        ensures
            deref_opt(r) == match *self {
                Json::Array(items, _) => Some(items),
                _ => None,
            },
    {
        match self {
            Json::Array(items, _) => Some(items),
            _ => None,
        }
    }

    /// Whether this is an object.
    pub fn is_object(&self) -> (r: bool)
        ensures
            r == (*self is Object),
    {
        match self {
            Json::Object(..) => true,
            _ => false,
        }
    }
}

/// A JSON value as plain values: what it holds, without the text read with it.
pub enum JsonView {
    Null,
    Bool(bool),
    /// The `i64` value when there is one, whether it is zero, and its text.
    Number(Option<i64>, bool, Seq<char>),
    Str(Seq<char>),
    Array(Seq<JsonView>),
    Object(Seq<(Seq<char>, JsonView)>),
}

/// The plain value of a JSON value.
pub open spec fn jv(j: Json) -> JsonView
    decreases j, 0nat,
{
    match j {
        Json::Null => JsonView::Null,
        Json::Bool(b) => JsonView::Bool(b),
        Json::Number(n) => JsonView::Number(n.int, n.zero, n.text@),
        Json::Str(s) => JsonView::Str(s@),
        Json::Array(items, _) => {
            proof {
                assert(decreases_to!(items => items@));
            }
            JsonView::Array(jv_items(items@))
        },
        Json::Object(entries, _) => {
            proof {
                assert(decreases_to!(entries => entries@));
            }
            JsonView::Object(jv_entries(entries@))
        },
    }
}

/// The plain values of a run of JSON values.
pub open spec fn jv_items(s: Seq<Json>) -> Seq<JsonView>
    decreases s, s.len(),
{
    if s.len() == 0 {
        Seq::empty()
    } else {
        jv_items(s.drop_last()).push(jv(s.last()))
    }
}

/// The plain values of object entries.
pub open spec fn jv_entries(s: Seq<(String, Json)>) -> Seq<(Seq<char>, JsonView)>
    decreases s, s.len(),
{
    if s.len() == 0 {
        Seq::empty()
    } else {
        jv_entries(s.drop_last()).push((s.last().0@, jv(s.last().1)))
    }
}

/// A string member value.
pub open spec fn json_str(s: Seq<char>) -> JsonView {
    JsonView::Str(s)
}

/// An integer as `serde_json` holds one.
pub open spec fn json_int_view(n: int) -> JsonView {
    JsonView::Number(Some(n as i64), n == 0, dec_signed(n))
}

/// A count as `serde_json` holds one.
pub open spec fn json_count_view(n: nat) -> JsonView {
    JsonView::Number(if n <= i64::MAX {
        Some(n as i64)
    } else {
        None
    }, n == 0, dec(n))
}

/// The entries after `key` is set to `value`: the first entry with that key
/// takes the value in its place, else the entry is added at the end.
pub open spec fn entries_set(es: Seq<(Seq<char>, JsonView)>, key: Seq<char>, value: JsonView) -> Seq<(Seq<char>, JsonView)>
    decreases es.len(),
{
    if es.len() == 0 {
        seq![(key, value)]
    } else if es[0].0 == key {
        es.update(0, (key, value))
    } else {
        seq![es[0]] + entries_set(es.drop_first(), key, value)
    }
}

impl Json {
    /// A deep copy.
    pub fn copy(&self) -> (r: Json)
        ensures
            jv(r) == jv(*self),
        decreases *self,
    {
        match self {
            Json::Null => Json::Null,
            Json::Bool(b) => Json::Bool(*b),
            Json::Number(n) => Json::Number(JsonNumber { int: n.int, zero: n.zero, text: n.text.clone() }),
            Json::Str(s) => Json::Str(s.clone()),
            Json::Array(items, text) => {
                let mut out: Vec<Json> = Vec::new();
                let mut k: usize = 0;
                while k < items.len()
                    invariant
                        k <= items@.len(),
                        *self == Json::Array(*items, *text),
                        jv_items(out@) == jv_items(items@.take(k as int)),
                    decreases items.len() - k,
                {
                    proof {
                        assert(decreases_to!(*self => (*self)->Array_0));
                        assert((*self)->Array_0 == *items);
                        assert(decreases_to!(*items => items@));
                        assert(decreases_to!(items@ => items@[k as int]));
                    }
                    let c = items[k].copy();
                    let ghost before = out@;
                    out.push(c);
                    proof {
                        assert(out@.drop_last() =~= before);
                        assert(items@.take(k + 1).drop_last() =~= items@.take(k as int));
                    }
                    k += 1;
                }
                assert(items@.take(items@.len() as int) =~= items@);
                Json::Array(out, text.clone())
            },
            Json::Object(entries, text) => {
                let mut out: Vec<(String, Json)> = Vec::new();
                let mut k: usize = 0;
                while k < entries.len()
                    invariant
                        k <= entries@.len(),
                        *self == Json::Object(*entries, *text),
                        jv_entries(out@) == jv_entries(entries@.take(k as int)),
                    decreases entries.len() - k,
                {
                    proof {
                        assert(decreases_to!(*self => (*self)->Object_0));
                        assert((*self)->Object_0 == *entries);
                        assert(decreases_to!(*entries => entries@));
                        assert(decreases_to!(entries@ => entries@[k as int]));
                        assert(decreases_to!(entries@[k as int] => entries@[k as int].1));
                    }
                    let c = entries[k].1.copy();
                    let ghost before = out@;
                    out.push((entries[k].0.clone(), c));
                    proof {
                        assert(out@.drop_last() =~= before);
                        assert(entries@.take(k + 1).drop_last() =~= entries@.take(k as int));
                    }
                    k += 1;
                }
                assert(entries@.take(entries@.len() as int) =~= entries@);
                Json::Object(out, text.clone())
            },
        }
    }

    /// A string value.
    pub fn text(s: &str) -> (r: Json)
        ensures
            jv(r) == json_str(s@),
    {
        Json::Str(string_of(chars_of(s).as_slice()))
    }

    /// An integer value.
    pub fn integer(n: i64) -> (r: Json)
        ensures
            jv(r) == json_int_view(n as int),
    {
        Json::Number(JsonNumber { int: Some(n), zero: n == 0, text: string_of(decimal_signed(n).as_slice()) })
    }

    /// A count.
    pub fn count(n: usize) -> (r: Json)
        ensures
            jv(r) == json_count_view(n as nat),
    {
        let small = if (n as u64) <= 9_223_372_036_854_775_807u64 {
            Some(n as i64)
        } else {
            None
        };
        Json::Number(JsonNumber { int: small, zero: n == 0, text: string_of(decimal(n as u64).as_slice()) })
    }

    /// An object with these entries.
    pub fn object(entries: Vec<(String, Json)>) -> (r: Json)
        ensures
            jv(r) == JsonView::Object(jv_entries(entries@)),
    {
        Json::Object(entries, String::new())
    }

    /// An array with these items.
    pub fn array(items: Vec<Json>) -> (r: Json)
        ensures
            jv(r) == JsonView::Array(jv_items(items@)),
    {
        Json::Array(items, String::new())
    }
}

/// Set `key` to `value` among object entries.
pub fn set_entry(es: &mut Vec<(String, Json)>, key: &str, value: Json)
    ensures
        jv_entries(final(es)@) == entries_set(jv_entries(old(es)@), key@, jv(value)),
{
    let ghost start = jv_entries(es@);
    let mut i: usize = 0;
    proof {
        lemma_jv_entries_len(es@);
        assert(start.take(0) =~= Seq::<(Seq<char>, JsonView)>::empty());
        assert(start.skip(0) =~= start);
    }
    while i < es.len()
        invariant
            i <= es@.len(),
            *es == *old(es),
            start == jv_entries(es@),
            start.len() == es@.len(),
            entries_set(start, key@, jv(value)) == start.take(i as int) + entries_set(start.skip(i as int), key@, jv(value)),
        decreases es.len() - i,
    {
        proof {
            lemma_jv_entries_at(es@, i as int);
            assert(start.skip(i as int).drop_first() =~= start.skip(i + 1));
        }
        if crate::models::same_str(es[i].0.as_str(), key) {
            let ghost vv = jv(value);
            let k = string_of(chars_of(key).as_slice());
            es.set(i, (k, value));
            proof {
                lemma_jv_entries_update(old(es)@, i as int, es@[i as int]);
                assert(es@ == old(es)@.update(i as int, es@[i as int]));
                assert(jv_entries(es@) =~= start.take(i as int) + start.skip(i as int).update(0, (key@, vv)));
            }
            return;
        }
        i += 1;
        proof {
            assert(entries_set(start.skip(i - 1), key@, jv(value)) =~= seq![start[i - 1]] + entries_set(start.skip(i as int), key@, jv(value)));
            assert(start.take(i as int) =~= start.take(i - 1).push(start[i - 1]));
            assert(entries_set(start, key@, jv(value)) =~= start.take(i as int) + entries_set(start.skip(i as int), key@, jv(value)));
        }
    }
    let ghost vv = jv(value);
    let k = string_of(chars_of(key).as_slice());
    es.push((k, value));
    proof {
        assert(start.skip(i as int) =~= Seq::<(Seq<char>, JsonView)>::empty());
        assert(start.take(i as int) =~= start);
        assert(es@.drop_last() =~= old(es)@);
        assert(jv_entries(es@) =~= start.push((key@, vv)));
    }
}

pub proof fn lemma_jv_entries_len(s: Seq<(String, Json)>)
    ensures
        jv_entries(s).len() == s.len(),
    decreases s.len(),
{
    if s.len() > 0 {
        lemma_jv_entries_len(s.drop_last());
    }
}

pub proof fn lemma_jv_entries_at(s: Seq<(String, Json)>, i: int)
    requires
        0 <= i < s.len(),
    ensures
        jv_entries(s).len() == s.len(),
        jv_entries(s)[i] == (s[i].0@, jv(s[i].1)),
    decreases s.len(),
{
    lemma_jv_entries_len(s);
    if i < s.len() - 1 {
        lemma_jv_entries_at(s.drop_last(), i);
    }
}

proof fn lemma_jv_entries_update(s: Seq<(String, Json)>, i: int, e: (String, Json))
    requires
        0 <= i < s.len(),
    ensures
        jv_entries(s.update(i, e)) == jv_entries(s).update(i, (e.0@, jv(e.1))),
    decreases s.len(),
{
    lemma_jv_entries_len(s);
    lemma_jv_entries_len(s.update(i, e));
    if i < s.len() - 1 {
        lemma_jv_entries_update(s.drop_last(), i, e);
        assert(s.update(i, e).drop_last() =~= s.drop_last().update(i, e));
    } else {
        assert(s.update(i, e).drop_last() =~= s.drop_last());
    }
    assert(jv_entries(s.update(i, e)) =~= jv_entries(s).update(i, (e.0@, jv(e.1))));
}

/// Adding an entry adds its plain value.
pub proof fn lemma_jv_entries_push(s: Seq<(String, Json)>, e: (String, Json))
    ensures
        jv_entries(s.push(e)) == jv_entries(s).push((e.0@, jv(e.1))),
        jv_entries(Seq::<(String, Json)>::empty()) == Seq::<(Seq<char>, JsonView)>::empty(),
{
    assert(s.push(e).drop_last() =~= s);
}

/// Adding an item adds its plain value.
pub proof fn lemma_jv_items_push(s: Seq<Json>, e: Json)
    ensures
        jv_items(s.push(e)) == jv_items(s).push(jv(e)),
        jv_items(Seq::<Json>::empty()) == Seq::<JsonView>::empty(),
{
    assert(s.push(e).drop_last() =~= s);
}

proof fn lemma_jv_items_len(s: Seq<Json>)
    ensures
        jv_items(s).len() == s.len(),
    decreases s.len(),
{
    if s.len() > 0 {
        lemma_jv_items_len(s.drop_last());
    }
}

/// Replacing an item replaces its plain value.
pub proof fn lemma_jv_items_update(s: Seq<Json>, i: int, e: Json)
    requires
        0 <= i < s.len(),
    ensures
        jv_items(s.update(i, e)) == jv_items(s).update(i, jv(e)),
    decreases s.len(),
{
    lemma_jv_items_len(s);
    lemma_jv_items_len(s.update(i, e));
    if i < s.len() - 1 {
        lemma_jv_items_update(s.drop_last(), i, e);
        assert(s.update(i, e).drop_last() =~= s.drop_last().update(i, e));
    } else {
        assert(s.update(i, e).drop_last() =~= s.drop_last());
    }
    assert(jv_items(s.update(i, e)) =~= jv_items(s).update(i, jv(e)));
}

/// The entries of an object, or none.
pub open spec fn entries_of(j: Json) -> Seq<(Seq<char>, JsonView)> {
    match j {
        Json::Object(es, _) => jv_entries(es@),
        _ => Seq::empty(),
    }
}

/// A deep copy of a run of values.
pub fn copy_items(items: &Vec<Json>) -> (r: Vec<Json>)
    ensures
        jv_items(r@) == jv_items(items@),
        r@.len() == items@.len(),
{
    let mut out: Vec<Json> = Vec::new();
    let mut k: usize = 0;
    while k < items.len()
        invariant
            k <= items@.len(),
            out@.len() == k,
            jv_items(out@) == jv_items(items@.take(k as int)),
        decreases items.len() - k,
    {
        let c = items[k].copy();
        proof {
            lemma_jv_items_push(out@, c);
            assert(items@.take(k + 1).drop_last() =~= items@.take(k as int));
        }
        out.push(c);
        k += 1;
    }
    assert(items@.take(items@.len() as int) =~= items@);
    out
}

/// Removing an item removes its plain value.
pub proof fn lemma_jv_items_remove(s: Seq<Json>, i: int)
    requires
        0 <= i < s.len(),
    ensures
        jv_items(s.remove(i)) == jv_items(s).remove(i),
    decreases s.len(),
{
    lemma_jv_items_len(s);
    lemma_jv_items_len(s.remove(i));
    if i < s.len() - 1 {
        lemma_jv_items_remove(s.drop_last(), i);
        lemma_jv_items_len(s.drop_last());
        assert(s.remove(i).drop_last() =~= s.drop_last().remove(i));
        assert(s.remove(i).last() == s.last());
    } else {
        assert(s.remove(i) =~= s.drop_last());
    }
    assert(jv_items(s.remove(i)) =~= jv_items(s).remove(i));
}

} // verus!
