//! JSON values of `serde_json`: what they hold, how they are made, and their
//! texts.
//!
//! A value stays one of `serde_json`. Each name below stands for what one of its
//! functions returns, and the contracts of the functions that make and read
//! values are stated over these names.

use crate::text;
use vstd::prelude::*;

verus! {

/// A JSON value.
#[verifier::external_type_specification]
#[verifier::external_body]
pub struct ExValue(serde_json::Value);

/// What an object holds, by key; `None` for a value that is no object
/// (`Value::as_object`).
pub uninterp spec fn json_object(v: serde_json::Value) -> Option<Map<Seq<char>, serde_json::Value>>;

/// What an array holds; `None` for a value that is no array (`Value::as_array`).
pub uninterp spec fn json_array(v: serde_json::Value) -> Option<Seq<serde_json::Value>>;

/// The text of a string; `None` for a value that is no string (`Value::as_str`).
pub uninterp spec fn json_string(v: serde_json::Value) -> Option<Seq<char>>;

/// The truth value; `None` for a value that is none (`Value::as_bool`).
pub uninterp spec fn json_bool(v: serde_json::Value) -> Option<bool>;

/// The number as an unsigned integer, when it is one (`Value::as_u64`).
pub uninterp spec fn json_u64(v: serde_json::Value) -> Option<u64>;

/// The number as a signed integer, when it is one (`Value::as_i64`).
pub uninterp spec fn json_i64(v: serde_json::Value) -> Option<i64>;

/// The text of a number; `None` for a value that is no number (`Number`'s
/// `to_string`).
pub uninterp spec fn json_number(v: serde_json::Value) -> Option<Seq<char>>;

/// The compact text of a value (`Value`'s `to_string`).
pub uninterp spec fn json_text(v: serde_json::Value) -> Seq<char>;

/// The indented text of a value (`to_string_pretty`).
pub uninterp spec fn json_pretty(v: serde_json::Value) -> Seq<char>;

/// The value that a text stands for, when it is JSON (`from_str`).
pub uninterp spec fn json_parsed(s: Seq<char>) -> Option<serde_json::Value>;

/// The value of `key` in an object.
pub open spec fn member(v: serde_json::Value, key: Seq<char>) -> Option<serde_json::Value> {
    match json_object(v) {
        Some(m) => if m.contains_key(key) {
            Some(m[key])
        } else {
            None
        },
        None => None,
    }
}

/// The value is made of strings, truth values, integers and objects of such,
/// nested at most `depth` deep.
pub open spec fn is_exact(v: serde_json::Value, depth: nat) -> bool
    decreases depth,
{
    ||| json_string(v) is Some
    ||| json_bool(v) is Some
    ||| json_u64(v) is Some
    ||| json_i64(v) is Some
    ||| depth > 0 && (json_object(v) matches Some(m) && forall|k: Seq<char>|
        m.contains_key(k) ==> is_exact(#[trigger] m[k], (depth - 1) as nat))
}

/// The contents of an object that is made of entries: of several with one key,
/// the last counts.
pub open spec fn entries_map(entries: Seq<(String, serde_json::Value)>) -> Map<
    Seq<char>,
    serde_json::Value,
>
    decreases entries.len(),
{
    if entries.len() == 0 {
        Map::empty()
    } else {
        entries_map(entries.drop_last()).insert(entries.last().0@, entries.last().1)
    }
}

/// The texts are the keys of the object, each once, in ascending order.
pub open spec fn lists_keys(keys: Seq<Seq<char>>, m: Map<Seq<char>, serde_json::Value>) -> bool {
    &&& forall|k: Seq<char>| keys.contains(k) <==> #[trigger] m.contains_key(k)
    &&& forall|i: int, j: int|
        0 <= i < j < keys.len() ==> text::precedes(#[trigger] keys[i], #[trigger] keys[j])
}

/// The keys of an object, in ascending order.
pub open spec fn key_order(m: Map<Seq<char>, serde_json::Value>) -> Seq<Seq<char>> {
    choose|keys: Seq<Seq<char>>| lists_keys(keys, m)
}

/// There is only one ascending order of the keys of an object.
pub proof fn lemma_key_order(keys: Seq<Seq<char>>, m: Map<Seq<char>, serde_json::Value>)
    requires
        lists_keys(keys, m),
    ensures
        key_order(m) == keys,
{
    let other = key_order(m);
    assert forall|k: Seq<char>| keys.contains(k) <==> other.contains(k) by {
        assert(keys.contains(k) <==> m.contains_key(k));
    }
    lemma_same_keys(keys, other);
}

proof fn lemma_greatest(s: Set<Seq<char>>) -> (x: Seq<char>)
    requires
        s.finite(),
        s.len() > 0,
    ensures
        s.contains(x),
        forall|y: Seq<char>| #[trigger] s.contains(y) && y != x ==> text::precedes(y, x),
    decreases s.len(),
{
    let a = s.choose();
    let rest = s.remove(a);
    if rest.len() == 0 {
        assert forall|y: Seq<char>| #[trigger] s.contains(y) && y != a implies text::precedes(
            y,
            a,
        ) by {
            assert(rest.contains(y));
        }
        a
    } else {
        let b = lemma_greatest(rest);
        text::lemma_precedes_total(a, b);
        if text::precedes(b, a) {
            assert forall|y: Seq<char>| #[trigger] s.contains(y) && y != a implies text::precedes(
                y,
                a,
            ) by {
                assert(rest.contains(y));
                if y != b {
                    text::lemma_precedes_transitive(y, b, a);
                }
            }
            a
        } else {
            assert forall|y: Seq<char>| #[trigger] s.contains(y) && y != b implies text::precedes(
                y,
                b,
            ) by {
                if y != a {
                    assert(rest.contains(y));
                }
            }
            b
        }
    }
}

proof fn lemma_listing(s: Set<Seq<char>>) -> (keys: Seq<Seq<char>>)
    requires
        s.finite(),
    ensures
        forall|k: Seq<char>| keys.contains(k) <==> #[trigger] s.contains(k),
        forall|i: int, j: int|
            0 <= i < j < keys.len() ==> text::precedes(#[trigger] keys[i], #[trigger] keys[j]),
    decreases s.len(),
{
    if s.len() == 0 {
        let keys = Seq::<Seq<char>>::empty();
        assert forall|k: Seq<char>| keys.contains(k) <==> #[trigger] s.contains(k) by {
            if s.contains(k) {
                assert(s.len() > 0);
            }
        }
        keys
    } else {
        let x = lemma_greatest(s);
        let rest = s.remove(x);
        let before = lemma_listing(rest);
        let keys = before.push(x);
        assert forall|k: Seq<char>| keys.contains(k) <==> #[trigger] s.contains(k) by {
            assert(rest.contains(k) <==> before.contains(k));
            if keys.contains(k) {
                let i = choose|i: int| 0 <= i < keys.len() && keys[i] == k;
                if i < before.len() {
                    assert(before[i] == k);
                    assert(before.contains(k));
                }
            }
            if s.contains(k) {
                if k == x {
                    assert(keys[before.len() as int] == k);
                } else {
                    let i = choose|i: int| 0 <= i < before.len() && before[i] == k;
                    assert(keys[i] == k);
                }
            }
        }
        assert forall|i: int, j: int| 0 <= i < j < keys.len() implies text::precedes(
            #[trigger] keys[i],
            #[trigger] keys[j],
        ) by {
            if j == before.len() {
                assert(before.contains(before[i]));
                assert(rest.contains(before[i]));
                assert(s.contains(before[i]));
            }
        }
        keys
    }
}

/// The keys of a finite object have an ascending order.
pub proof fn lemma_key_order_exists(m: Map<Seq<char>, serde_json::Value>)
    requires
        m.dom().finite(),
    ensures
        lists_keys(key_order(m), m),
{
    let keys = lemma_listing(m.dom());
    assert forall|k: Seq<char>| keys.contains(k) <==> #[trigger] m.contains_key(k) by {
        assert(m.dom().contains(k) <==> keys.contains(k));
    }
    assert(lists_keys(keys, m));
}

proof fn lemma_same_keys(a: Seq<Seq<char>>, b: Seq<Seq<char>>)
    requires
        forall|k: Seq<char>| a.contains(k) <==> b.contains(k),
        forall|i: int, j: int|
            0 <= i < j < a.len() ==> text::precedes(#[trigger] a[i], #[trigger] a[j]),
        forall|i: int, j: int|
            0 <= i < j < b.len() ==> text::precedes(#[trigger] b[i], #[trigger] b[j]),
    ensures
        a == b,
    decreases a.len(),
{
    if a.len() == 0 {
        if b.len() > 0 {
            assert(b.contains(b[0]));
        }
        assert(a == b);
    } else if b.len() == 0 {
        assert(a.contains(a[0]));
    } else {
        let x = a.last();
        let y = b.last();
        assert(a.contains(x) && b.contains(y));
        assert(b.contains(x) && a.contains(y));
        let i = choose|i: int| 0 <= i < b.len() && b[i] == x;
        let j = choose|j: int| 0 <= j < a.len() && a[j] == y;
        text::lemma_precedes_total(x, y);
        assert(x == y) by {
            if i < b.len() - 1 && j < a.len() - 1 {
                assert(text::precedes(b[i], b[b.len() - 1]));
                assert(text::precedes(a[j], a[a.len() - 1]));
            }
        }
        let a1 = a.drop_last();
        let b1 = b.drop_last();
        assert forall|k: Seq<char>| a1.contains(k) <==> b1.contains(k) by {
            if a1.contains(k) {
                let p = choose|p: int| 0 <= p < a1.len() && a1[p] == k;
                assert(a[p] == k && text::precedes(a[p], a[a.len() - 1]));
                text::lemma_precedes_total(k, x);
                assert(a.contains(k));
                let q = choose|q: int| 0 <= q < b.len() && b[q] == k;
                assert(b1[q] == k);
            }
            if b1.contains(k) {
                let p = choose|p: int| 0 <= p < b1.len() && b1[p] == k;
                assert(b[p] == k && text::precedes(b[p], b[b.len() - 1]));
                text::lemma_precedes_total(k, x);
                assert(b.contains(k));
                let q = choose|q: int| 0 <= q < a.len() && a[q] == k;
                assert(a1[q] == k);
            }
        }
        lemma_same_keys(a1, b1);
        assert(a == a1.push(x));
        assert(b == b1.push(y));
    }
}

/// `Value::get` with a string: the value of the key in an object, nothing in any
/// other value.
#[verifier::external_body]
pub(crate) fn get<'a>(v: &'a serde_json::Value, key: &str) -> (r: Option<&'a serde_json::Value>)
    ensures
        match r {
            Some(x) => member(*v, key@) == Some(*x),
            None => member(*v, key@) is None,
        },
{
    v.get(key)
}

/// `Value::as_str`.
#[verifier::external_body]
pub(crate) fn as_str(v: &serde_json::Value) -> (r: Option<String>)
    ensures
        match r {
            Some(s) => json_string(*v) == Some(s@),
            None => json_string(*v) is None,
        },
{
    Some(v.as_str()?.to_string())
}

/// `Value::as_bool`.
#[verifier::external_body]
pub(crate) fn as_bool(v: &serde_json::Value) -> (r: Option<bool>)
    ensures
        r == json_bool(*v),
{
    v.as_bool()
}

/// `Value::as_u64`.
#[verifier::external_body]
pub(crate) fn as_u64(v: &serde_json::Value) -> (r: Option<u64>)
    ensures
        r == json_u64(*v),
{
    v.as_u64()
}

/// `Value::as_i64`.
#[verifier::external_body]
pub(crate) fn as_i64(v: &serde_json::Value) -> (r: Option<i64>)
    ensures
        r == json_i64(*v),
{
    v.as_i64()
}

/// `Number`'s `to_string`, of a value that is a number. An integer is written in
/// decimal; how a fraction is written is only named.
#[verifier::external_body]
pub(crate) fn number_text(v: &serde_json::Value) -> (r: Option<String>)
    ensures
        match r {
            Some(s) => json_number(*v) == Some(s@),
            None => json_number(*v) is None,
        },
        json_u64(*v) is Some ==> r is Some && r->0@ == text::dec(json_u64(*v)->0 as nat),
        json_i64(*v) is Some ==> r is Some && r->0@ == text::signed(json_i64(*v)->0 as int),
{
    Some(v.as_number()?.to_string())
}

/// The keys of `Value::as_object`, as `Map::keys` hands them out: each key once, in
/// ascending order, since the map is a `BTreeMap` of strings.
#[verifier::external_body]
pub(crate) fn object_keys(v: &serde_json::Value) -> (r: Option<Vec<String>>)
    ensures
        match r {
            Some(keys) => json_object(*v) is Some && lists_keys(
                text::views(keys@),
                json_object(*v)->0,
            ),
            None => json_object(*v) is None,
        },
{
    Some(v.as_object()?.keys().cloned().collect())
}

/// `Value::from` of an unsigned number.
#[verifier::external_body]
pub(crate) fn from_u64(n: u64) -> (r: serde_json::Value)
    ensures
        json_u64(r) == Some(n),
        n <= i64::MAX ==> json_i64(r) == Some(n as i64),
{
    serde_json::Value::from(n)
}

/// `Value::from` of a signed number.
#[verifier::external_body]
pub(crate) fn from_i64(n: i64) -> (r: serde_json::Value)
    ensures
        json_i64(r) == Some(n),
        n >= 0 ==> json_u64(r) == Some(n as u64),
{
    serde_json::Value::from(n)
}

/// `Value::from` of a truth value.
#[verifier::external_body]
pub(crate) fn from_bool(b: bool) -> (r: serde_json::Value)
    ensures
        json_bool(r) == Some(b),
{
    serde_json::Value::from(b)
}

/// `Value::from` of a string.
#[verifier::external_body]
pub(crate) fn from_text(s: &str) -> (r: serde_json::Value)
    ensures
        json_string(r) == Some(s@),
{
    serde_json::Value::from(s)
}

/// `Value::from` of a vector of values.
#[verifier::external_body]
pub(crate) fn from_items(items: Vec<serde_json::Value>) -> (r: serde_json::Value)
    ensures
        json_array(r) == Some(items@),
{
    serde_json::Value::from(items)
}

/// `Value::Object` of a map collected from entries.
#[verifier::external_body]
pub(crate) fn from_entries(entries: Vec<(String, serde_json::Value)>) -> (r: serde_json::Value)
    ensures
        json_object(r) == Some(entries_map(entries@)),
{
    serde_json::Value::Object(entries.into_iter().collect())
}

/// `serde_json::from_str` of a value; `None` when the text is not JSON.
#[verifier::external_body]
pub(crate) fn parse(s: &str) -> (r: Option<serde_json::Value>)
    ensures
        r == json_parsed(s@),
{
    serde_json::from_str::<serde_json::Value>(s).ok()
}

/// `Value`'s `to_string`: the compact text.
#[verifier::external_body]
pub(crate) fn compact(v: &serde_json::Value) -> (r: String)
    ensures
        r@ == json_text(*v),
{
    v.to_string()
}

/// `serde_json::to_string_pretty` of strings, truth values, integers and objects,
/// within the depth that the parser reads. It does not fail on such a value, since
/// the keys are strings, and the text is read back as the value was.
#[verifier::external_body]
pub(crate) fn pretty(v: &serde_json::Value) -> (r: String)
    requires
        is_exact(*v, 8),
    ensures
        r@ == json_pretty(*v),
        json_parsed(r@) == Some(*v),
{
    serde_json::to_string_pretty(v).unwrap_or_default()
}

/// Looking up a key in an object of entries with distinct keys gives the value of
/// its entry.
pub proof fn lemma_entry(entries: Seq<(String, serde_json::Value)>, i: int)
    requires
        0 <= i < entries.len(),
        forall|a: int, b: int|
            0 <= a < b < entries.len() ==> (#[trigger] entries[a]).0@ != (#[trigger] entries[b]).0@,
    ensures
        entries_map(entries).contains_key(entries[i].0@),
        entries_map(entries)[entries[i].0@] == entries[i].1,
    decreases entries.len(),
{
    if i < entries.len() - 1 {
        let before = entries.drop_last();
        assert(before[i] == entries[i]);
        lemma_entry(before, i);
        assert(entries[i].0@ != entries[entries.len() - 1].0@);
    }
}

/// Every key of an object of entries is the key of one of them.
pub proof fn lemma_entry_keys(entries: Seq<(String, serde_json::Value)>, k: Seq<char>)
    requires
        entries_map(entries).contains_key(k),
    ensures
        exists|i: int| 0 <= i < entries.len() && (#[trigger] entries[i]).0@ == k,
    decreases entries.len(),
{
    if entries.len() > 0 {
        let last = entries.len() - 1;
        if entries[last].0@ != k {
            lemma_entry_keys(entries.drop_last(), k);
            let i = choose|i: int|
                0 <= i < entries.drop_last().len() && (#[trigger] entries.drop_last()[i]).0@ == k;
            assert(entries[i].0@ == k);
        }
    }
}

} // verus!
