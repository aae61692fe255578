//! A TOML document as plain values, with the lookups, edits and number
//! comparisons that the configuration code performs on it.
//!
//! Floats are held by their IEEE-754 binary64 bit pattern; they are only
//! compared against a few exactly representable constants, which the bit
//! pattern decides without floating-point arithmetic.

use vstd::prelude::*;
use crate::text::{append_str, chars_of, push_char, trim};

verus! {

broadcast use vstd::string::group_string_axioms;

/// A TOML value. Tables keep their entries in document order.
#[derive(Debug)]
pub enum TomlDoc {
    Str(String),
    Int(i64),
    /// A float, as the bits of its IEEE-754 binary64 encoding.
    Float(u64),
    Bool(bool),
    /// A date or time, in its TOML text form.
    Datetime(String),
    Array(Vec<TomlDoc>),
    Table(Vec<(String, TomlDoc)>),
}

// ---------------------------------------------------------------------------
// Lookups
// ---------------------------------------------------------------------------

/// Index of the first entry of `entries[i..]` whose key is `key`.
pub open spec fn find_key_from(entries: Seq<(String, TomlDoc)>, key: Seq<char>, i: int) -> Option<int>
    decreases entries.len() - i,
{
    if i < 0 || i >= entries.len() {
        None
    } else if entries[i].0@ == key {
        Some(i)
    } else {
        find_key_from(entries, key, i + 1)
    }
}

/// Index of the entry whose key is `key`.
pub open spec fn find_key(entries: Seq<(String, TomlDoc)>, key: Seq<char>) -> Option<int> {
    find_key_from(entries, key, 0)
}

pub proof fn lemma_find_key_from(entries: Seq<(String, TomlDoc)>, key: Seq<char>, i: int)
    requires
        0 <= i,
    ensures
        find_key_from(entries, key, i) matches Some(j) ==> i <= j < entries.len() && entries[j].0@ == key
            && forall|m: int| i <= m < j ==> (#[trigger] entries[m]).0@ != key,
        find_key_from(entries, key, i) is None ==> forall|m: int|
            i <= m < entries.len() ==> (#[trigger] entries[m]).0@ != key,
    decreases entries.len() - i,
{
    if i < entries.len() && entries[i].0@ != key {
        lemma_find_key_from(entries, key, i + 1);
    }
}

/// The value under `key` in a table's entries.
pub open spec fn entry(entries: Seq<(String, TomlDoc)>, key: Seq<char>) -> Option<TomlDoc> {
    match find_key(entries, key) {
        Some(i) => Some(entries[i].1),
        None => None,
    }
}

/// The value under `key` when `doc` is a table (what `Value::get` gives).
pub open spec fn get(doc: TomlDoc, key: Seq<char>) -> Option<TomlDoc> {
    match doc {
        TomlDoc::Table(t) => entry(t@, key),
        _ => None,
    }
}

/// `get` applied along a path of keys.
pub open spec fn get_path(doc: TomlDoc, keys: Seq<Seq<char>>) -> Option<TomlDoc>
    decreases keys.len(),
{
    if keys.len() == 0 {
        Some(doc)
    } else {
        match get(doc, keys[0]) {
            Some(v) => get_path(v, keys.drop_first()),
            None => None,
        }
    }
}

/// The string a value holds, if it is a string.
pub open spec fn as_str(v: Option<TomlDoc>) -> Option<Seq<char>> {
    match v {
        Some(TomlDoc::Str(s)) => Some(s@),
        _ => None,
    }
}

/// The integer a value holds, if it is an integer.
pub open spec fn as_int(v: Option<TomlDoc>) -> Option<i64> {
    match v {
        Some(TomlDoc::Int(i)) => Some(i),
        _ => None,
    }
}

/// The float bits a value holds, if it is a float.
pub open spec fn as_float(v: Option<TomlDoc>) -> Option<u64> {
    match v {
        Some(TomlDoc::Float(b)) => Some(b),
        _ => None,
    }
}

/// The boolean a value holds, if it is a boolean.
pub open spec fn as_bool(v: Option<TomlDoc>) -> Option<bool> {
    match v {
        Some(TomlDoc::Bool(b)) => Some(b),
        _ => None,
    }
}

/// The entries of a value, if it is a table.
pub open spec fn as_table(v: Option<TomlDoc>) -> Option<Seq<(String, TomlDoc)>> {
    match v {
        Some(TomlDoc::Table(t)) => Some(t@),
        _ => None,
    }
}

/// The items of a value, if it is an array.
pub open spec fn as_array(v: Option<TomlDoc>) -> Option<Seq<TomlDoc>> {
    match v {
        Some(TomlDoc::Array(a)) => Some(a@),
        _ => None,
    }
}

/// Index of the entry with key `key` (see `find_key`).
pub fn find_entry(entries: &Vec<(String, TomlDoc)>, key: &str) -> (r: Option<usize>)
    ensures
        r matches Some(i) ==> find_key(entries@, key@) == Some(i as int) && i < entries@.len()
            && entries@[i as int].0@ == key@,
        r is None ==> find_key(entries@, key@) is None,
{
    let k = chars_of(key);
    let mut i: usize = 0;
    while i < entries.len()
        invariant
            0 <= i <= entries@.len(),
            k@ == key@,
            find_key(entries@, key@) == find_key_from(entries@, key@, i as int),
        decreases entries@.len() - i,
    {
        let name = chars_of(entries[i].0.as_str());
        if same(&name, &k) {
            return Some(i);
        }
        i = i + 1;
    }
    None
}

/// Whether two character vectors are equal.
fn same(a: &Vec<char>, b: &Vec<char>) -> (r: bool)
    ensures
        r == (a@ == b@),
{
    if a.len() != b.len() {
        return false;
    }
    let mut k: usize = 0;
    while k < a.len()
        invariant
            0 <= k <= a@.len(),
            a@.len() == b@.len(),
            forall|m: int| 0 <= m < k ==> a@[m] == b@[m],
        decreases a@.len() - k,
    {
        if a[k] != b[k] {
            return false;
        }
        k = k + 1;
    }
    assert(a@ =~= b@);
    true
}

/// The value under `key` when `doc` is a table.
pub fn get_value<'a>(doc: &'a TomlDoc, key: &str) -> (r: Option<&'a TomlDoc>)
    ensures
        r matches Some(v) ==> get(*doc, key@) == Some(*v),
        r is None ==> get(*doc, key@) is None,
{
    match doc {
        TomlDoc::Table(entries) => match find_entry(entries, key) {
            Some(i) => Some(&entries[i].1),
            None => None,
        },
        _ => None,
    }
}

/// The entries under `key` when that value is a table.
pub fn get_table<'a>(entries: &'a Vec<(String, TomlDoc)>, key: &str) -> (r: Option<&'a Vec<(String, TomlDoc)>>)
    ensures
        r matches Some(t) ==> as_table(entry(entries@, key@)) == Some(t@),
        r is None ==> as_table(entry(entries@, key@)) is None,
{
    match find_entry(entries, key) {
        Some(i) => match &entries[i].1 {
            TomlDoc::Table(t) => Some(t),
            _ => None,
        },
        None => None,
    }
}

/// The string under `key`, when it is one.
pub fn get_str<'a>(entries: &'a Vec<(String, TomlDoc)>, key: &str) -> (r: Option<&'a String>)
    ensures
        r matches Some(s) ==> as_str(entry(entries@, key@)) == Some(s@),
        r is None ==> as_str(entry(entries@, key@)) is None,
{
    match find_entry(entries, key) {
        Some(i) => match &entries[i].1 {
            TomlDoc::Str(s) => Some(s),
            _ => None,
        },
        None => None,
    }
}

/// The integer under `key`, when it is one.
pub fn get_int(entries: &Vec<(String, TomlDoc)>, key: &str) -> (r: Option<i64>)
    ensures
        r == as_int(entry(entries@, key@)),
{
    match find_entry(entries, key) {
        Some(i) => match &entries[i].1 {
            TomlDoc::Int(v) => Some(*v),
            _ => None,
        },
        None => None,
    }
}

/// The float bits under `key`, when it is a float.
pub fn get_float(entries: &Vec<(String, TomlDoc)>, key: &str) -> (r: Option<u64>)
    ensures
        r == as_float(entry(entries@, key@)),
{
    match find_entry(entries, key) {
        Some(i) => match &entries[i].1 {
            TomlDoc::Float(v) => Some(*v),
            _ => None,
        },
        None => None,
    }
}

/// The boolean under `key`, when it is one.
pub fn get_bool(entries: &Vec<(String, TomlDoc)>, key: &str) -> (r: Option<bool>)
    ensures
        r == as_bool(entry(entries@, key@)),
{
    match find_entry(entries, key) {
        Some(i) => match &entries[i].1 {
            TomlDoc::Bool(v) => Some(*v),
            _ => None,
        },
        None => None,
    }
}

/// The items under `key`, when it is an array.
pub fn get_array<'a>(entries: &'a Vec<(String, TomlDoc)>, key: &str) -> (r: Option<&'a Vec<TomlDoc>>)
    ensures
        r matches Some(a) ==> as_array(entry(entries@, key@)) == Some(a@),
        r is None ==> as_array(entry(entries@, key@)) is None,
{
    match find_entry(entries, key) {
        Some(i) => match &entries[i].1 {
            TomlDoc::Array(a) => Some(a),
            _ => None,
        },
        None => None,
    }
}

// ---------------------------------------------------------------------------
// Edits
// ---------------------------------------------------------------------------

/// `entries` with the value under `key` replaced by `value`, or with the
/// entry added at the end when there is none (what `Map::insert` does to
/// the mapping).
pub open spec fn with_entry(entries: Seq<(String, TomlDoc)>, key: String, value: TomlDoc) -> Seq<(String, TomlDoc)> {
    match find_key(entries, key@) {
        Some(i) => entries.update(i, (entries[i].0, value)),
        None => entries.push((key, value)),
    }
}

/// After `with_entry`, `key` gives `value` and every other key gives what
/// it gave before.
pub proof fn lemma_with_entry(entries: Seq<(String, TomlDoc)>, key: String, value: TomlDoc, other: Seq<char>)
    ensures
        entry(with_entry(entries, key, value), key@) == Some(value),
        other != key@ ==> entry(with_entry(entries, key, value), other) == entry(entries, other),
{
    let e2 = with_entry(entries, key, value);
    lemma_find_key_from(entries, key@, 0);
    lemma_find_key_from(entries, other, 0);
    lemma_find_key_from(e2, key@, 0);
    lemma_find_key_from(e2, other, 0);
    match find_key(entries, key@) {
        Some(i) => {
            assert(e2[i].0@ == key@);
            match find_key(e2, key@) {
                Some(j) => {
                    if j < i {
                        assert(e2[j] == entries[j]);
                    }
                    assert(j == i);
                },
                None => {
                    assert(e2[i].0@ == key@);
                },
            }
            if other != key@ {
                match find_key(entries, other) {
                    Some(j) => {
                        assert(e2[j] == entries[j]);
                        match find_key(e2, other) {
                            Some(j2) => {
                                assert(e2[j2].0 == entries[j2].0);
                                if j2 < j {
                                    assert(entries[j2].0@ == other);
                                }
                            },
                            None => {},
                        }
                    },
                    None => {
                        match find_key(e2, other) {
                            Some(j2) => {
                                assert(e2[j2].0 == entries[j2].0);
                            },
                            None => {},
                        }
                    },
                }
            }
        },
        None => {
            assert(e2[entries.len() as int].0@ == key@);
            match find_key(e2, key@) {
                Some(j) => {
                    if j < entries.len() {
                        assert(e2[j] == entries[j]);
                    }
                },
                None => {},
            }
            if other != key@ {
                match find_key(entries, other) {
                    Some(j) => {
                        assert(e2[j] == entries[j]);
                        match find_key(e2, other) {
                            Some(j2) => {
                                if j2 < j {
                                    assert(e2[j2] == entries[j2]);
                                }
                            },
                            None => {},
                        }
                    },
                    None => {
                        match find_key(e2, other) {
                            Some(j2) => {
                                if j2 < entries.len() {
                                    assert(e2[j2] == entries[j2]);
                                }
                            },
                            None => {},
                        }
                    },
                }
            }
        },
    }
}

/// Sets `key` to `value` in `entries` (see `with_entry`).
pub fn set_entry(entries: &mut Vec<(String, TomlDoc)>, key: String, value: TomlDoc)
    ensures
        final(entries)@ == with_entry(old(entries)@, key, value),
{
    match find_entry(entries, key.as_str()) {
        Some(i) => {
            let (name, _) = entries.remove(i);
            entries.insert(i, (name, value));
            assert(final(entries)@ =~= with_entry(old(entries)@, key, value));
        },
        None => {
            entries.push((key, value));
        },
    }
}

// ---------------------------------------------------------------------------
// Layering a document over defaults
// ---------------------------------------------------------------------------

/// No two entries share a key (what a TOML table read from text has).
pub open spec fn keys_unique(entries: Seq<(String, TomlDoc)>) -> bool {
    forall|i: int, j: int| 0 <= i < j < entries.len() ==> (#[trigger] entries[i]).0@ != (#[trigger] entries[j]).0@
}

/// `r` is `incoming` laid over `defaults`: where both are tables, every key
/// of `incoming` overrides the default (recursing where both sides hold a
/// value) and every other key keeps its default; anywhere else `incoming`
/// replaces the default whole.
pub open spec fn merged(defaults: TomlDoc, incoming: TomlDoc, r: TomlDoc) -> bool
    decreases defaults,
{
    match defaults {
        TomlDoc::Table(dt) => match incoming {
            TomlDoc::Table(it) => match r {
                TomlDoc::Table(rt) => {
                    &&& forall|k: Seq<char>| #[trigger] entry(it@, k) is None ==> entry(rt@, k) == entry(dt@, k)
                    &&& forall|k: Seq<char>|
                        entry(dt@, k) is None && #[trigger] entry(it@, k) is Some ==> entry(rt@, k) == entry(it@, k)
                    &&& forall|i: int|
                        0 <= i < dt@.len() && find_key(dt@, (#[trigger] dt@[i]).0@) == Some(i)
                            && entry(it@, dt@[i].0@) is Some ==> {
                            &&& entry(rt@, dt@[i].0@) is Some
                            &&& merged(dt@[i].1, entry(it@, dt@[i].0@)->0, entry(rt@, dt@[i].0@)->0)
                        }
                },
                _ => false,
            },
            _ => r == incoming,
        },
        _ => r == incoming,
    }
}

/// For each entry, whether it is the first one with its key.
fn first_occurrences(entries: &Vec<(String, TomlDoc)>) -> (r: Vec<bool>)
    ensures
        r@.len() == entries@.len(),
        forall|j: int| 0 <= j < r@.len() ==> r@[j] == (find_key(entries@, #[trigger] entries@[j].0@) == Some(j)),
{
    let mut r: Vec<bool> = Vec::new();
    let mut j: usize = 0;
    while j < entries.len()
        invariant
            0 <= j <= entries@.len(),
            r@.len() == j,
            forall|m: int| 0 <= m < j ==> r@[m] == (find_key(entries@, #[trigger] entries@[m].0@) == Some(m)),
        decreases entries@.len() - j,
    {
        let is_first = match find_entry(entries, entries[j].0.as_str()) {
            Some(i) => i == j,
            None => false,
        };
        r.push(is_first);
        j = j + 1;
    }
    r
}

/// `with_entry` adds no second entry for a key.
proof fn lemma_with_entry_unique(entries: Seq<(String, TomlDoc)>, key: String, value: TomlDoc)
    requires
        keys_unique(entries),
    ensures
        keys_unique(with_entry(entries, key, value)),
{
    lemma_find_key_from(entries, key@, 0);
    let e2 = with_entry(entries, key, value);
    assert forall|i: int, j: int| 0 <= i < j < e2.len() implies (#[trigger] e2[i]).0@ != (#[trigger] e2[j]).0@ by {
        if j < entries.len() {
            assert(e2[i].0 == entries[i].0);
            assert(e2[j].0 == entries[j].0);
        } else {
            assert(e2[i].0 == entries[i].0);
        }
    }
}

/// What the merge loop has built after the first `j` incoming entries: a
/// key first seen among them holds its merged value, every other key its
/// default.
pub open spec fn merge_progress(
    d0: Seq<(String, TomlDoc)>,
    i0: Seq<(String, TomlDoc)>,
    m: Seq<(String, TomlDoc)>,
    j: int,
    k: Seq<char>,
) -> bool {
    if find_key(i0, k) matches Some(p) && p < j {
        if entry(d0, k) is None {
            entry(m, k) == entry(i0, k)
        } else {
            &&& entry(m, k) is Some
            &&& merged(entry(d0, k)->0, entry(i0, k)->0, entry(m, k)->0)
        }
    } else {
        entry(m, k) == entry(d0, k)
    }
}

/// `incoming` laid over `defaults` (see `merged`). A key that occurs twice
/// in one table counts by its first entry, as every lookup here does.
pub fn merge_docs(defaults: TomlDoc, incoming: TomlDoc) -> (r: TomlDoc)
    ensures
        merged(defaults, incoming, r),
        (defaults matches TomlDoc::Table(dt) && incoming is Table && keys_unique(dt@))
            ==> (r matches TomlDoc::Table(rt) && keys_unique(rt@)),
    decreases defaults,
{
    match defaults {
        TomlDoc::Table(dt) => match incoming {
            TomlDoc::Table(it) => {
                let ghost d0 = dt@;
                let ghost i0 = it@;
                let first = first_occurrences(&it);
                let n = it.len();
                let mut m = dt;
                let mut rest = it;
                let mut j: usize = 0;
                proof {
                    assert forall|k: Seq<char>| #[trigger] merge_progress(d0, i0, m@, 0, k) by {
                        lemma_find_key_from(i0, k, 0);
                    }
                }
                while j < n
                    invariant
                        0 <= j <= n,
                        n == i0.len(),
                        first@.len() == n,
                        forall|q: int| 0 <= q < n ==> first@[q] == (find_key(i0, #[trigger] i0[q].0@) == Some(q)),
                        rest@ == i0.subrange(j as int, n as int),
                        defaults matches TomlDoc::Table(dd) && dd@ == d0,
                        forall|k: Seq<char>| #[trigger] merge_progress(d0, i0, m@, j as int, k),
                        keys_unique(d0) ==> keys_unique(m@),
                    decreases n - j,
                {
                    let ghost m_old = m@;
                    proof {
                        assert(rest@[0] == i0[j as int]);
                    }
                    let (k, v) = rest.remove(0);
                    proof {
                        assert(rest@ =~= i0.subrange(j + 1, n as int));
                        lemma_find_key_from(i0, k@, 0);
                    }
                    if first[j] {
                        proof {
                            assert(merge_progress(d0, i0, m_old, j as int, k@));
                            lemma_find_key_from(d0, k@, 0);
                        }
                        let ghost val: TomlDoc;
                        match find_entry(&m, k.as_str()) {
                            Some(idx) => {
                                let ghost q = find_key(d0, k@)->0;
                                let (name, existing) = m.remove(idx);
                                proof {
                                    assert(existing == d0[q].1);
                                    assert(decreases_to!(defaults => d0[q].1));
                                }
                                let merged_value = merge_docs(existing, v);
                                proof {
                                    val = merged_value;
                                }
                                m.insert(idx, (name, merged_value));
                                proof {
                                    assert(m@ =~= with_entry(m_old, k, val));
                                }
                            },
                            None => {
                                proof {
                                    val = v;
                                }
                                m.push((k, v));
                                proof {
                                    assert(m@ =~= with_entry(m_old, k, val));
                                }
                            },
                        }
                        proof {
                            assert forall|key: Seq<char>| #[trigger] merge_progress(d0, i0, m@, j + 1, key) by {
                                lemma_with_entry(m_old, k, val, key);
                                lemma_find_key_from(i0, key, 0);
                                assert(merge_progress(d0, i0, m_old, j as int, key));
                            }
                            if keys_unique(d0) {
                                lemma_with_entry_unique(m_old, k, val);
                            }
                        }
                    } else {
                        proof {
                            assert forall|key: Seq<char>| #[trigger] merge_progress(d0, i0, m@, j + 1, key) by {
                                lemma_find_key_from(i0, key, 0);
                                assert(merge_progress(d0, i0, m_old, j as int, key));
                            }
                        }
                    }
                    j = j + 1;
                }
                proof {
                    assert forall|k: Seq<char>| #[trigger] entry(i0, k) is None implies entry(m@, k) == entry(d0, k) by {
                        assert(merge_progress(d0, i0, m@, n as int, k));
                    }
                    assert forall|k: Seq<char>| entry(d0, k) is None && #[trigger] entry(i0, k) is Some implies entry(m@, k) == entry(i0, k) by {
                        assert(merge_progress(d0, i0, m@, n as int, k));
                        lemma_find_key_from(i0, k, 0);
                    }
                    assert forall|i: int|
                        0 <= i < d0.len() && find_key(d0, (#[trigger] d0[i]).0@) == Some(i)
                            && entry(i0, d0[i].0@) is Some implies {
                            &&& entry(m@, d0[i].0@) is Some
                            &&& merged(d0[i].1, entry(i0, d0[i].0@)->0, entry(m@, d0[i].0@)->0)
                        } by {
                        assert(merge_progress(d0, i0, m@, n as int, d0[i].0@));
                        lemma_find_key_from(i0, d0[i].0@, 0);
                    }
                }
                TomlDoc::Table(m)
            },
            other => other,
        },
        _ => incoming,
    }
}

/// The entries of the table under `key`, or none when that value is
/// missing or not a table (the table that `ensure_table` starts from).
pub open spec fn sub_entries(entries: Seq<(String, TomlDoc)>, key: Seq<char>) -> Seq<(String, TomlDoc)> {
    match as_table(entry(entries, key)) {
        Some(t) => t,
        None => Seq::empty(),
    }
}

/// Takes the value under `key` out of `entries`, leaving an empty table in
/// its place; returns the entries of the value when it was a table.
pub fn take_sub_entries(entries: &mut Vec<(String, TomlDoc)>, key: &str) -> (r: Vec<(String, TomlDoc)>)
    ensures
        r@ == sub_entries(old(entries)@, key@),
        final(entries)@.len() == old(entries)@.len(),
        forall|m: int|
            0 <= m < old(entries)@.len() ==> (#[trigger] final(entries)@[m]).0 == old(entries)@[m].0,
        forall|m: int|
            0 <= m < old(entries)@.len() && Some(m) != find_key(old(entries)@, key@) ==> final(entries)@[m]
                == old(entries)@[m],
{
    match find_entry(entries, key) {
        Some(i) => {
            let (name, value) = entries.remove(i);
            entries.insert(i, (name, TomlDoc::Table(Vec::new())));
            match value {
                TomlDoc::Table(t) => t,
                _ => Vec::new(),
            }
        },
        None => Vec::new(),
    }
}


/// The items of the array under `key`, or none when that value is missing
/// or not an array.
pub open spec fn sub_items(entries: Seq<(String, TomlDoc)>, key: Seq<char>) -> Seq<TomlDoc> {
    match as_array(entry(entries, key)) {
        Some(a) => a,
        None => Seq::empty(),
    }
}

/// Takes the value under `key` out of `entries`, leaving an empty table in
/// its place; returns the items of the value when it was an array.
pub fn take_sub_items(entries: &mut Vec<(String, TomlDoc)>, key: &str) -> (r: Vec<TomlDoc>)
    ensures
        r@ == sub_items(old(entries)@, key@),
        final(entries)@.len() == old(entries)@.len(),
        forall|m: int|
            0 <= m < old(entries)@.len() ==> (#[trigger] final(entries)@[m]).0 == old(entries)@[m].0,
        forall|m: int|
            0 <= m < old(entries)@.len() && Some(m) != find_key(old(entries)@, key@) ==> final(entries)@[m]
                == old(entries)@[m],
{
    match find_entry(entries, key) {
        Some(i) => {
            let (name, value) = entries.remove(i);
            entries.insert(i, (name, TomlDoc::Table(Vec::new())));
            match value {
                TomlDoc::Array(a) => a,
                _ => Vec::new(),
            }
        },
        None => Vec::new(),
    }
}

/// `new` and `old` give the same value for every key but `key`.
pub open spec fn agrees_except(new: Seq<(String, TomlDoc)>, old: Seq<(String, TomlDoc)>, key: Seq<char>) -> bool {
    forall|k: Seq<char>| k != key ==> #[trigger] entry(new, k) == entry(old, k)
}

/// `new` is `old` with the tables along `path` (created when missing or
/// not tables) edited so that, at the end of the path, `leaf(new_table,
/// old_table)` holds; everything off the path is unchanged.
pub open spec fn edited(
    new: Seq<(String, TomlDoc)>,
    old: Seq<(String, TomlDoc)>,
    path: Seq<Seq<char>>,
    leaf: spec_fn(Seq<(String, TomlDoc)>, Seq<(String, TomlDoc)>) -> bool,
) -> bool
    decreases path.len(),
{
    if path.len() == 0 {
        leaf(new, old)
    } else {
        &&& agrees_except(new, old, path[0])
        &&& match as_table(entry(new, path[0])) {
            Some(t) => edited(t, sub_entries(old, path[0]), path.drop_first(), leaf),
            None => false,
        }
    }
}

/// Putting a value back under `key` after `take_sub_entries` changes
/// nothing but that key.
pub proof fn lemma_put_back(
    old: Seq<(String, TomlDoc)>,
    taken: Seq<(String, TomlDoc)>,
    key: String,
    value: TomlDoc,
)
    requires
        taken.len() == old.len(),
        forall|m: int| 0 <= m < old.len() ==> (#[trigger] taken[m]).0 == old[m].0,
        forall|m: int| 0 <= m < old.len() && Some(m) != find_key(old, key@) ==> taken[m] == old[m],
    ensures
        agrees_except(with_entry(taken, key, value), old, key@),
        entry(with_entry(taken, key, value), key@) == Some(value),
{
    assert forall|k: Seq<char>| k != key@ implies #[trigger] entry(with_entry(taken, key, value), k) == entry(
        old,
        k,
    ) by {
        lemma_with_entry(taken, key, value, k);
        lemma_find_key_from(taken, k, 0);
        lemma_find_key_from(old, k, 0);
        lemma_find_key_from(old, key@, 0);
        match find_key(old, k) {
            Some(j) => {
                assert(taken[j].0 == old[j].0);
                match find_key(taken, k) {
                    Some(j2) => {
                        if j2 < j {
                            assert(taken[j2].0 == old[j2].0);
                        }
                        if j < j2 {
                            assert(taken[j].0 == old[j].0);
                        }
                        assert(j2 == j);
                        assert(old[j].0@ == k);
                        if find_key(old, key@) == Some(j) {
                            assert(old[j].0@ == key@);
                        }
                    },
                    None => {
                        assert(taken[j].0@ == k);
                    },
                }
            },
            None => {
                match find_key(taken, k) {
                    Some(j2) => {
                        assert(taken[j2].0 == old[j2].0);
                    },
                    None => {},
                }
            },
        }
    }
    lemma_with_entry(taken, key, value, key@);
}

/// `root` went through `take_sub_entries(root0, key)`.
pub open spec fn taken_from(root: Seq<(String, TomlDoc)>, root0: Seq<(String, TomlDoc)>, key: Seq<char>) -> bool {
    &&& root.len() == root0.len()
    &&& forall|m: int| 0 <= m < root0.len() ==> (#[trigger] root[m]).0 == root0[m].0
    &&& forall|m: int| 0 <= m < root0.len() && Some(m) != find_key(root0, key) ==> root[m] == root0[m]
}

/// `new` is `old` with the table `[a.b]` replaced by `second`, the tables
/// being created when missing and nothing else changed.
pub open spec fn replaced_at(
    new: Seq<(String, TomlDoc)>,
    old: Seq<(String, TomlDoc)>,
    a: Seq<char>,
    b: Seq<char>,
    second: Seq<(String, TomlDoc)>,
) -> bool {
    &&& agrees_except(new, old, a)
    &&& entry(new, a) matches Some(TomlDoc::Table(first)) && {
        &&& agrees_except(first@, sub_entries(old, a), b)
        &&& entry(first@, b) matches Some(TomlDoc::Table(t)) && t@ == second
    }
}

/// A replacement of `[a.b]` that meets `leaf` is an edit along `[a, b]`.
pub proof fn lemma_replaced_at_is_edit(
    new: Seq<(String, TomlDoc)>,
    old: Seq<(String, TomlDoc)>,
    a: Seq<char>,
    b: Seq<char>,
    second: Seq<(String, TomlDoc)>,
    leaf: spec_fn(Seq<(String, TomlDoc)>, Seq<(String, TomlDoc)>) -> bool,
)
    requires
        replaced_at(new, old, a, b, second),
        leaf(second, sub_entries(sub_entries(old, a), b)),
    ensures
        edited(new, old, seq![a, b], leaf),
{
    reveal_with_fuel(edited, 3);
    let path = seq![a, b];
    assert(path.drop_first() =~= seq![b]);
    assert(path.drop_first().drop_first() =~= Seq::<Seq<char>>::empty());
}

/// An edit that meets a stronger leaf condition meets a weaker one.
pub proof fn lemma_edited_weaken(
    new: Seq<(String, TomlDoc)>,
    old: Seq<(String, TomlDoc)>,
    path: Seq<Seq<char>>,
    strong: spec_fn(Seq<(String, TomlDoc)>, Seq<(String, TomlDoc)>) -> bool,
    weak: spec_fn(Seq<(String, TomlDoc)>, Seq<(String, TomlDoc)>) -> bool,
)
    requires
        edited(new, old, path, strong),
        forall|n: Seq<(String, TomlDoc)>, o: Seq<(String, TomlDoc)>| #[trigger] strong(n, o) ==> weak(n, o),
    ensures
        edited(new, old, path, weak),
    decreases path.len(),
{
    if path.len() > 0 {
        match as_table(entry(new, path[0])) {
            Some(t) => {
                lemma_edited_weaken(t, sub_entries(old, path[0]), path.drop_first(), strong, weak);
            },
            None => {},
        }
    }
}

/// Takes the table `[a.b]` out of `root` for editing: returns the outer
/// table (with `b` taken out) and the inner table's entries.
pub fn open_at(root: &mut Vec<(String, TomlDoc)>, a: &str, b: &str) -> (r: (Vec<(String, TomlDoc)>, Vec<(String, TomlDoc)>))
    ensures
        taken_from(final(root)@, old(root)@, a@),
        taken_from(r.0@, sub_entries(old(root)@, a@), b@),
        r.1@ == sub_entries(sub_entries(old(root)@, a@), b@),
{
    let mut first = take_sub_entries(root, a);
    let second = take_sub_entries(&mut first, b);
    (first, second)
}

/// Puts the tables taken out by `open_at` back, `second` being the edited
/// inner table.
pub fn close_at(
    root: Vec<(String, TomlDoc)>,
    first: Vec<(String, TomlDoc)>,
    second: Vec<(String, TomlDoc)>,
    a: &str,
    b: &str,
    Ghost(root0): Ghost<Seq<(String, TomlDoc)>>,
) -> (r: Vec<(String, TomlDoc)>)
    requires
        taken_from(root@, root0, a@),
        taken_from(first@, sub_entries(root0, a@), b@),
    ensures
        replaced_at(r@, root0, a@, b@, second@),
{
    let mut root = root;
    let mut first = first;
    let ghost first0 = sub_entries(root0, a@);
    let ghost taken_first = first@;
    let ghost taken_root = root@;
    let b_s = b.to_string();
    let ghost b_g = b_s;
    let ghost second_doc = TomlDoc::Table(second);
    set_entry(&mut first, b_s, TomlDoc::Table(second));
    proof {
        lemma_put_back(first0, taken_first, b_g, second_doc);
    }
    let a_s = a.to_string();
    let ghost a_g = a_s;
    let ghost first_doc = TomlDoc::Table(first);
    set_entry(&mut root, a_s, TomlDoc::Table(first));
    proof {
        lemma_put_back(root0, taken_root, a_g, first_doc);
    }
    root
}

// ---------------------------------------------------------------------------
// Float bit patterns
// ---------------------------------------------------------------------------

/// `2^52`, the weight of the lowest exponent bit.
pub open spec fn exponent_unit() -> int {
    0x10000000000000
}

/// `2^63`, the weight of the sign bit.
pub open spec fn sign_unit() -> int {
    0x8000000000000000
}

/// Whether the bits encode a NaN (all exponent bits set, mantissa not zero).
pub open spec fn float_is_nan(bits: u64) -> bool {
    ((bits as int) / exponent_unit()) % 2048 == 2047 && (bits as int) % exponent_unit() != 0
}

/// A key that orders the non-NaN floats as their values are ordered: the
/// magnitude bits, negated for negative numbers (both zeros get key 0).
pub open spec fn float_order_key(bits: u64) -> int {
    if bits >= sign_unit() {
        sign_unit() - bits
    } else {
        bits as int
    }
}

/// `a <= b` for floats given by their bits.
pub open spec fn float_le(a: u64, b: u64) -> bool {
    !float_is_nan(a) && !float_is_nan(b) && float_order_key(a) <= float_order_key(b)
}

/// `a < b` for floats given by their bits.
pub open spec fn float_lt(a: u64, b: u64) -> bool {
    !float_is_nan(a) && !float_is_nan(b) && float_order_key(a) < float_order_key(b)
}

/// Bits of `0.0`.
pub const FLOAT_ZERO: u64 = 0;

/// Bits of `0.5`.
pub const FLOAT_HALF: u64 = 0x3FE0000000000000;

/// Bits of `1.0`.
pub const FLOAT_ONE: u64 = 0x3FF0000000000000;

/// Bits of `2.0`.
pub const FLOAT_TWO: u64 = 0x4000000000000000;

/// Bits of `3.0`.
pub const FLOAT_THREE: u64 = 0x4008000000000000;

/// Whether the bits encode a NaN.
pub fn is_nan_bits(bits: u64) -> (r: bool)
    ensures
        r == float_is_nan(bits),
{
    (bits / 0x10000000000000) % 2048 == 2047 && bits % 0x10000000000000 != 0
}

/// `a <= b` for floats given by their bits.
pub fn float_le_bits(a: u64, b: u64) -> (r: bool)
    ensures
        r == float_le(a, b),
{
    if is_nan_bits(a) || is_nan_bits(b) {
        return false;
    }
    let a_neg = a >= 0x8000000000000000;
    let b_neg = b >= 0x8000000000000000;
    if a_neg && b_neg {
        a - 0x8000000000000000 >= b - 0x8000000000000000
    } else if a_neg {
        true
    } else if b_neg {
        a == 0 && b == 0x8000000000000000
    } else {
        a <= b
    }
}

/// `a < b` for floats given by their bits.
pub fn float_lt_bits(a: u64, b: u64) -> (r: bool)
    ensures
        r == float_lt(a, b),
{
    if is_nan_bits(a) || is_nan_bits(b) {
        return false;
    }
    let a_neg = a >= 0x8000000000000000;
    let b_neg = b >= 0x8000000000000000;
    if a_neg && b_neg {
        a - 0x8000000000000000 > b - 0x8000000000000000
    } else if a_neg {
        !(a == 0x8000000000000000 && b == 0)
    } else if b_neg {
        false
    } else {
        a < b
    }
}

// ---------------------------------------------------------------------------
// Numbers that may be written as integers
// ---------------------------------------------------------------------------

/// A TOML number read where a float is expected: an integer counts too.
#[derive(Clone, Copy, Debug, PartialEq, Eq, Structural)]
pub enum Number {
    Float(u64),
    Int(i64),
}

/// The number a value holds, reading an integer as a float would.
pub open spec fn as_number(v: Option<TomlDoc>) -> Option<Number> {
    match v {
        Some(TomlDoc::Float(b)) => Some(Number::Float(b)),
        Some(TomlDoc::Int(i)) => Some(Number::Int(i)),
        _ => None,
    }
}

/// The number under `key`, when it is a float or an integer.
pub fn get_number(entries: &Vec<(String, TomlDoc)>, key: &str) -> (r: Option<Number>)
    ensures
        r == as_number(entry(entries@, key@)),
{
    match find_entry(entries, key) {
        Some(i) => match &entries[i].1 {
            TomlDoc::Float(v) => Some(Number::Float(*v)),
            TomlDoc::Int(v) => Some(Number::Int(*v)),
            _ => None,
        },
        None => None,
    }
}

/// `0.0 <= n <= 1.0`. An integer `i` is compared as `i as f64`, which is
/// exact against these bounds.
pub open spec fn in_unit_interval(n: Number) -> bool {
    match n {
        Number::Float(b) => float_le(FLOAT_ZERO, b) && float_le(b, FLOAT_ONE),
        Number::Int(i) => 0 <= i <= 1,
    }
}

/// `n > 0.0`, comparing an integer as `i as f64`.
pub open spec fn is_positive(n: Number) -> bool {
    match n {
        Number::Float(b) => float_lt(FLOAT_ZERO, b),
        Number::Int(i) => i > 0,
    }
}

/// `0.5 <= n <= 2.0`, comparing an integer as `i as f64`.
pub open spec fn in_speed_range(n: Number) -> bool {
    match n {
        Number::Float(b) => float_le(FLOAT_HALF, b) && float_le(b, FLOAT_TWO),
        Number::Int(i) => 1 <= i <= 2,
    }
}

pub fn number_in_unit_interval(n: Number) -> (r: bool)
    ensures
        r == in_unit_interval(n),
{
    match n {
        Number::Float(b) => float_le_bits(FLOAT_ZERO, b) && float_le_bits(b, FLOAT_ONE),
        Number::Int(i) => 0 <= i && i <= 1,
    }
}

pub fn number_is_positive(n: Number) -> (r: bool)
    ensures
        r == is_positive(n),
{
    match n {
        Number::Float(b) => float_lt_bits(FLOAT_ZERO, b),
        Number::Int(i) => i > 0,
    }
}

pub fn number_in_speed_range(n: Number) -> (r: bool)
    ensures
        r == in_speed_range(n),
{
    match n {
        Number::Float(b) => float_le_bits(FLOAT_HALF, b) && float_le_bits(b, FLOAT_TWO),
        Number::Int(i) => 1 <= i && i <= 2,
    }
}

// ---------------------------------------------------------------------------
// Message text
// ---------------------------------------------------------------------------

/// Decimal digits of `n`.
pub open spec fn decimal(n: nat) -> Seq<char>
    decreases n,
{
    if n < 10 {
        seq![digit_char(n)]
    } else {
        decimal(n / 10) + seq![digit_char(n % 10)]
    }
}

/// The ASCII digit for `d < 10`.
pub open spec fn digit_char(d: nat) -> char {
    (('0' as u32) + d) as char
}

/// `n` written in decimal.
pub fn decimal_string(n: usize) -> (r: String)
    ensures
        r@ == decimal(n as nat),
    decreases n,
{
    let d: u32 = (n % 10) as u32;
    let c: char = char_for_digit(d);
    if n < 10 {
        let mut s = String::new();
        push_char(&mut s, c);
        assert(s@ =~= seq![c]);
        s
    } else {
        let mut s = decimal_string(n / 10);
        push_char(&mut s, c);
        s
    }
}

fn char_for_digit(d: u32) -> (c: char)
    requires
        d < 10,
    ensures
        c == digit_char(d as nat),
{
    match d {
        0 => '0',
        1 => '1',
        2 => '2',
        3 => '3',
        4 => '4',
        5 => '5',
        6 => '6',
        7 => '7',
        8 => '8',
        _ => '9',
    }
}

/// The concatenation of `a` and `b`.
pub fn concat2(a: &str, b: &str) -> (r: String)
    ensures
        r@ == a@ + b@,
{
    let mut s = String::new();
    append_str(&mut s, a);
    append_str(&mut s, b);
    assert(s@ =~= a@ + b@);
    s
}

/// The concatenation of `a`, `b` and `c`.
pub fn concat3(a: &str, b: &str, c: &str) -> (r: String)
    ensures
        r@ == a@ + b@ + c@,
{
    let mut s = String::new();
    append_str(&mut s, a);
    append_str(&mut s, b);
    append_str(&mut s, c);
    assert(s@ =~= a@ + b@ + c@);
    s
}

/// The concatenation of `a`, `b`, `c` and `d`.
pub fn concat4(a: &str, b: &str, c: &str, d: &str) -> (r: String)
    ensures
        r@ == a@ + b@ + c@ + d@,
{
    let mut s = String::new();
    append_str(&mut s, a);
    append_str(&mut s, b);
    append_str(&mut s, c);
    append_str(&mut s, d);
    assert(s@ =~= a@ + b@ + c@ + d@);
    s
}

/// The concatenation of five strings.
pub fn concat5(a: &str, b: &str, c: &str, d: &str, e: &str) -> (r: String)
    ensures
        r@ == a@ + b@ + c@ + d@ + e@,
{
    let mut s = String::new();
    append_str(&mut s, a);
    append_str(&mut s, b);
    append_str(&mut s, c);
    append_str(&mut s, d);
    append_str(&mut s, e);
    assert(s@ =~= a@ + b@ + c@ + d@ + e@);
    s
}

/// Whether `s` is blank (nothing is left after trimming whitespace).
pub fn is_blank(s: &str) -> (r: bool)
    ensures
        r == (trim(s@).len() == 0),
{
    let v = chars_of(s);
    let (a, b) = crate::text::trim_bounds(&v, 0, v.len());
    assert(v@.subrange(0, v@.len() as int) =~= v@);
    a == b
}

} // verus!
