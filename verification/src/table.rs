//! The entries of a `Map`: an `IndexMap` in insertion order, keyed by a plain form of
//! each key under which keys are equal exactly when they are SameValueZero.
use crate::builtins::maps::{lemma_same_value_zero_equiv, map_lookup, unique_keys};
use crate::value::{copy_chars, same_value, same_value_zero, JsValue};
use crate::number::JsNumber;
use indexmap::IndexMap;
use vstd::prelude::*;

verus! {

/// The plain form of a key: a tag and the fields that SameValueZero compares.
pub type EntryKey = (u8, u64, i64, Vec<char>);

/// An `EntryKey` with its text as a sequence.
pub type KeyView = (u8, u64, i64, Seq<char>);

/// The entries of one `Map`: each key's plain form, then the key and its value.
pub type EntryTable = IndexMap<EntryKey, (JsValue, JsValue)>;

#[verifier::external_type_specification]
#[verifier::external_body]
#[verifier::reject_recursive_types(K)]
#[verifier::reject_recursive_types(V)]
#[verifier::reject_recursive_types(S)]
pub struct ExIndexMap<K, V, S>(IndexMap<K, V, S>);

/// What an `IndexMap` holds, in its order, keys by their view.
pub uninterp spec fn index_entries(m: EntryTable) -> Seq<(KeyView, (JsValue, JsValue))>;

/// The view of a plain key.
pub open spec fn key_view(k: EntryKey) -> KeyView {
    (k.0, k.1, k.2, k.3@)
}

/// `IndexMap::new`: an empty map.
#[verifier::external_body]
fn index_new() -> (m: EntryTable)
    ensures
        index_entries(m) == Seq::<(KeyView, (JsValue, JsValue))>::empty(),
{
    IndexMap::new()
}

/// `IndexMap::len`: the number of entries.
#[verifier::external_body]
fn index_len(m: &EntryTable) -> (r: usize)
    ensures
        r == index_entries(*m).len(),
{
    m.len()
}

/// `IndexMap::get_index`: entry `i`'s key and value, `None` past the end.
#[verifier::external_body]
fn index_get(m: &EntryTable, i: usize) -> (r: Option<&(JsValue, JsValue)>)
    ensures
        i < index_entries(*m).len() ==> r == Some(&index_entries(*m)[i as int].1),
        i >= index_entries(*m).len() ==> r is None,
{
    m.get_index(i).map(|(_, v)| v)
}

/// `IndexMap::get_index_of`: the position of the entry whose key is `k`, if any.
#[verifier::external_body]
fn index_position(m: &EntryTable, k: &EntryKey) -> (r: Option<usize>)
    ensures
        r matches Some(i) ==> i < index_entries(*m).len() && index_entries(*m)[i as int].0 == key_view(*k),
        r is None ==> forall|i: int| 0 <= i < index_entries(*m).len() ==> #[trigger] index_entries(*m)[i].0 != key_view(*k),
{
    m.get_index_of(k)
}

/// `IndexMap::insert_full`: with an entry for `k`, replaces its value in place and gives
/// its position and old value; without one, appends the entry and gives its position.
#[verifier::external_body]
fn index_insert(m: &mut EntryTable, k: EntryKey, v: (JsValue, JsValue)) -> (r: (usize, Option<(JsValue, JsValue)>))
    ensures
        r.1 matches Some(w) ==> r.0 < index_entries(*old(m)).len() && index_entries(*old(m))[r.0 as int].0 == key_view(k)
            && w == index_entries(*old(m))[r.0 as int].1 && index_entries(*final(m)) == index_entries(*old(m)).update(
            r.0 as int,
            (key_view(k), v),
        ),
        r.1 is None ==> r.0 == index_entries(*old(m)).len() && index_entries(*final(m)) == index_entries(*old(m)).push(
            (key_view(k), v),
        ) && forall|i: int| 0 <= i < index_entries(*old(m)).len() ==> #[trigger] index_entries(*old(m))[i].0 != key_view(k),
{
    m.insert_full(k, v)
}

/// `IndexMap::shift_remove_full`: removes the entry whose key is `k`, keeping the order
/// of the others, and gives its position.
#[verifier::external_body]
fn index_remove(m: &mut EntryTable, k: &EntryKey) -> (r: Option<usize>)
    ensures
        r matches Some(i) ==> i < index_entries(*old(m)).len() && index_entries(*old(m))[i as int].0 == key_view(*k)
            && index_entries(*final(m)) == index_entries(*old(m)).remove(i as int),
        r is None ==> index_entries(*final(m)) == index_entries(*old(m)) && forall|i: int|
            0 <= i < index_entries(*old(m)).len() ==> #[trigger] index_entries(*old(m))[i].0 != key_view(*k),
{
    m.shift_remove_full(k).map(|(i, _, _)| i)
}

/// `IndexMap::clear`: removes every entry.
#[verifier::external_body]
fn index_clear(m: &mut EntryTable)
    ensures
        index_entries(*final(m)) == Seq::<(KeyView, (JsValue, JsValue))>::empty(),
{
    m.clear()
}

/// The plain form of a key: SameValueZero-equal keys, and only they, have equal forms.
pub open spec fn key_of(v: JsValue) -> KeyView {
    match v {
        JsValue::Undefined => (0, 0, 0, Seq::empty()),
        JsValue::Null => (1, 0, 0, Seq::empty()),
        JsValue::Boolean(b) => (2, if b { 1 } else { 0 }, 0, Seq::empty()),
        JsValue::Number(n) => match n {
            JsNumber::NaN => (3, 0, 0, Seq::empty()),
            JsNumber::Infinity { neg } => (4, if neg { 1 } else { 0 }, 0, Seq::empty()),
            JsNumber::Finite { neg, mant, exp } => if mant == 0 {
                (5, 0, exp as i64, Seq::empty())
            } else {
                (if neg { 6 } else { 7 }, mant, exp as i64, Seq::empty())
            },
        },
        JsValue::String(s) => (8, 0, 0, s@),
        JsValue::Object(id) => (9, id as u64, 0, Seq::empty()),
    }
}

/// Equal plain forms are exactly SameValueZero keys.
pub proof fn lemma_key_of(a: JsValue, b: JsValue)
    ensures
        (key_of(a) == key_of(b)) == same_value_zero(a, b),
{
}

/// The plain form of `v`, computed.
fn entry_key(v: &JsValue) -> (k: EntryKey)
    ensures
        key_view(k) == key_of(*v),
{
    match v {
        JsValue::Undefined => (0, 0, 0, Vec::new()),
        JsValue::Null => (1, 0, 0, Vec::new()),
        JsValue::Boolean(b) => (2, if *b { 1 } else { 0 }, 0, Vec::new()),
        JsValue::Number(n) => match *n {
            JsNumber::NaN => (3, 0, 0, Vec::new()),
            JsNumber::Infinity { neg } => (4, if neg { 1 } else { 0 }, 0, Vec::new()),
            JsNumber::Finite { neg, mant, exp } => if mant == 0 {
                (5, 0, exp as i64, Vec::new())
            } else {
                (if neg { 6 } else { 7 }, mant, exp as i64, Vec::new())
            },
        },
        JsValue::String(s) => (8, 0, 0, copy_chars(s)),
        JsValue::Object(id) => (9, *id as u64, 0, Vec::new()),
    }
}


/// The entries as (key, value) pairs, in order.
pub open spec fn table_view(m: EntryTable) -> Seq<(JsValue, JsValue)> {
    index_entries(m).map_values(|e: (KeyView, (JsValue, JsValue))| e.1)
}

/// Each entry is filed under the plain form of its key, and no two under the same one.
pub open spec fn table_wf(m: EntryTable) -> bool {
    &&& forall|i: int|
        0 <= i < index_entries(m).len() ==> #[trigger] index_entries(m)[i].0 == key_of(index_entries(m)[i].1.0)
    &&& forall|i: int, j: int|
        0 <= i < j < index_entries(m).len() ==> #[trigger] index_entries(m)[i].0 != #[trigger] index_entries(m)[j].0
}

/// A well-formed table holds no two SameValueZero keys.
pub proof fn lemma_table_unique(m: EntryTable)
    requires
        table_wf(m),
    ensures
        unique_keys(table_view(m)),
{
    let es = index_entries(m);
    assert forall|i: int, j: int| 0 <= i < j < table_view(m).len() implies !same_value_zero(
        #[trigger] table_view(m)[i].0,
        #[trigger] table_view(m)[j].0,
    ) by {
        lemma_key_of(es[i].1.0, es[j].1.0);
        assert(es[i].0 != es[j].0);
    }
}

/// The first entry whose key is SameValueZero to `key` gives the lookup.
pub proof fn lemma_lookup_at(es: Seq<(JsValue, JsValue)>, key: JsValue, i: int)
    requires
        0 <= i < es.len(),
        same_value_zero(es[i].0, key),
        forall|j: int| 0 <= j < i ==> !same_value_zero(#[trigger] es[j].0, key),
    ensures
        map_lookup(es, key) == Some(es[i].1),
    decreases i,
{
    if i > 0 {
        assert(!same_value_zero(es[0].0, key));
        assert forall|j: int| 0 <= j < i - 1 implies !same_value_zero(#[trigger] es.drop_first()[j].0, key) by {
            assert(es.drop_first()[j] == es[j + 1]);
        }
        lemma_lookup_at(es.drop_first(), key, i - 1);
    }
}

/// The position of the first entry whose key is SameValueZero to `key`, if any.
pub open spec fn key_position(es: Seq<(JsValue, JsValue)>, key: JsValue) -> Option<int>
    decreases es.len(),
{
    if es.len() == 0 {
        None
    } else if same_value_zero(es[0].0, key) {
        Some(0)
    } else {
        match key_position(es.drop_first(), key) {
            Some(i) => Some(i + 1),
            None => None,
        }
    }
}

/// The entries after `set(key, value)`: the entry of `key` takes the new key and value
/// in its place, or a new entry goes last (insertion order).
pub open spec fn put_entries(es: Seq<(JsValue, JsValue)>, key: JsValue, value: JsValue) -> Seq<(JsValue, JsValue)> {
    match key_position(es, key) {
        Some(i) => es.update(i, (key, value)),
        None => es.push((key, value)),
    }
}

/// `key_position` finds the first matching entry.
pub proof fn lemma_key_position(es: Seq<(JsValue, JsValue)>, key: JsValue, i: int)
    requires
        0 <= i <= es.len(),
        i < es.len() ==> same_value_zero(es[i].0, key),
        forall|j: int| 0 <= j < i ==> !same_value_zero(#[trigger] es[j].0, key),
    ensures
        key_position(es, key) == (if i < es.len() { Some(i) } else { None::<int> }),
    decreases i,
{
    if i > 0 {
        assert(!same_value_zero(es[0].0, key));
        assert forall|j: int| 0 <= j < i - 1 implies !same_value_zero(#[trigger] es.drop_first()[j].0, key) by {
            assert(es.drop_first()[j] == es[j + 1]);
        }
        lemma_key_position(es.drop_first(), key, i - 1);
    }
}

/// With no entry whose key is SameValueZero to `key`, the lookup finds nothing.
pub proof fn lemma_lookup_none(es: Seq<(JsValue, JsValue)>, key: JsValue)
    requires
        forall|j: int| 0 <= j < es.len() ==> !same_value_zero(#[trigger] es[j].0, key),
    ensures
        map_lookup(es, key) is None,
    decreases es.len(),
{
    if es.len() > 0 {
        assert(!same_value_zero(es[0].0, key));
        assert forall|j: int| 0 <= j < es.drop_first().len() implies !same_value_zero(#[trigger] es.drop_first()[j].0, key) by {
            assert(es.drop_first()[j] == es[j + 1]);
        }
        lemma_lookup_none(es.drop_first(), key);
    }
}

/// Two entry lists that differ only at `i`, where neither key matches `other`, look
/// `other` up alike.
pub proof fn lemma_lookup_same_but(es: Seq<(JsValue, JsValue)>, es2: Seq<(JsValue, JsValue)>, i: int, other: JsValue)
    requires
        es2.len() == es.len(),
        0 <= i < es.len(),
        forall|j: int| 0 <= j < es.len() && j != i ==> #[trigger] es2[j] == es[j],
        !same_value_zero(es[i].0, other),
        !same_value_zero(es2[i].0, other),
    ensures
        map_lookup(es2, other) == map_lookup(es, other),
    decreases es.len(),
{
    if i > 0 {
        assert(es2[0] == es[0]);
        assert forall|j: int| 0 <= j < es.len() - 1 && j != i - 1 implies #[trigger] es2.drop_first()[j]
            == es.drop_first()[j] by {
            assert(es2[j + 1] == es[j + 1]);
        }
        lemma_lookup_same_but(es.drop_first(), es2.drop_first(), i - 1, other);
    } else {
        assert(es2.drop_first() =~= es.drop_first()) by {
            assert forall|j: int| 0 <= j < es.len() - 1 implies #[trigger] es2.drop_first()[j] == es.drop_first()[j] by {
                assert(es2[j + 1] == es[j + 1]);
            }
        }
    }
}

/// Appending an entry for a key that no entry matches: the key finds it, other keys
/// find what they found before.
pub proof fn lemma_lookup_push(es: Seq<(JsValue, JsValue)>, key: JsValue, value: JsValue, other: JsValue)
    requires
        forall|j: int| 0 <= j < es.len() ==> !same_value_zero(#[trigger] es[j].0, key),
    ensures
        map_lookup(es.push((key, value)), key) == Some(value),
        !same_value_zero(key, other) ==> map_lookup(es.push((key, value)), other) == map_lookup(es, other),
    decreases es.len(),
{
    crate::laws::law_equality_reflexive(key);
    if es.len() > 0 {
        assert(es.push((key, value)).drop_first() =~= es.drop_first().push((key, value)));
        assert(!same_value_zero(es[0].0, key));
        assert forall|j: int| 0 <= j < es.drop_first().len() implies !same_value_zero(#[trigger] es.drop_first()[j].0, key) by {
            assert(es.drop_first()[j] == es[j + 1]);
        }
        lemma_lookup_push(es.drop_first(), key, value, other);
    } else {
        assert(es.push((key, value)).drop_first() =~= Seq::<(JsValue, JsValue)>::empty());
        assert(map_lookup(Seq::<(JsValue, JsValue)>::empty(), other) is None);
    }
}

/// A new empty table.
pub fn table_new() -> (m: EntryTable)
    ensures
        table_wf(m),
        table_view(m) == Seq::<(JsValue, JsValue)>::empty(),
{
    let m = index_new();
    assert(table_view(m) =~= Seq::<(JsValue, JsValue)>::empty());
    m
}

/// The number of entries.
pub fn table_len(m: &EntryTable) -> (r: usize)
    ensures
        r == table_view(*m).len(),
{
    index_len(m)
}

/// A copy of entry `i`.
pub fn table_entry(m: &EntryTable, i: usize) -> (r: (JsValue, JsValue))
    requires
        i < table_view(*m).len(),
    ensures
        same_value(r.0, table_view(*m)[i as int].0),
        same_value(r.1, table_view(*m)[i as int].1),
{
    match index_get(m, i) {
        Some(e) => (e.0.copy(), e.1.copy()),
        None => (JsValue::Undefined, JsValue::Undefined),
    }
}

/// The position of the entry whose key is SameValueZero to `key`.
pub fn table_find(m: &EntryTable, key: &JsValue) -> (r: Option<usize>)
    ensures
        table_wf(*m) ==> (r matches Some(i) ==> i < table_view(*m).len() && same_value_zero(
            table_view(*m)[i as int].0,
            *key,
        ) && map_lookup(table_view(*m), *key) == Some(table_view(*m)[i as int].1)),
        table_wf(*m) ==> (r is None ==> forall|j: int|
            0 <= j < table_view(*m).len() ==> !same_value_zero(#[trigger] table_view(*m)[j].0, *key)),
        table_wf(*m) ==> (r is None <==> map_lookup(table_view(*m), *key) is None),
        r matches Some(i) ==> i < table_view(*m).len(),
{
    let k = entry_key(key);
    let ghost es = index_entries(*m);
    let ghost view = table_view(*m);
    let r = index_position(m, &k);
    proof {
        if table_wf(*m) { match r {
            Some(i) => {
                lemma_key_of(view[i as int].0, *key);
                assert forall|j: int| 0 <= j < i implies !same_value_zero(#[trigger] view[j].0, *key) by {
                    lemma_key_of(view[j].0, *key);
                    assert(es[j].0 != es[i as int].0);
                }
                lemma_lookup_at(view, *key, i as int);
            },
            None => {
                assert forall|j: int| 0 <= j < view.len() implies !same_value_zero(#[trigger] view[j].0, *key) by {
                    lemma_key_of(view[j].0, *key);
                    assert(es[j].0 != key_view(k));
                }
                lemma_lookup_none(view, *key);
            },
        } }
    }
    r
}

/// Stores `value` under `key`: in place when an entry has a SameValueZero key (which
/// `key` then replaces), else at the end.
pub fn table_put(m: &mut EntryTable, key: JsValue, value: JsValue)
    ensures
        table_wf(*old(m)) ==> table_wf(*final(m)),
        table_wf(*old(m)) ==> map_lookup(table_view(*final(m)), key) == Some(value),
        table_wf(*old(m)) ==> forall|other: JsValue|
            !same_value_zero(key, other) ==> #[trigger] map_lookup(table_view(*final(m)), other) == map_lookup(
                table_view(*old(m)),
                other,
            ),
        table_wf(*old(m)) ==> (map_lookup(table_view(*old(m)), key) is Some ==> table_view(*final(m)).len()
            == table_view(*old(m)).len()),
        table_wf(*old(m)) ==> (map_lookup(table_view(*old(m)), key) is None ==> table_view(*final(m)).len()
            == table_view(*old(m)).len() + 1),
        table_wf(*old(m)) ==> table_view(*final(m)) == put_entries(table_view(*old(m)), key, value),
{
    let ghost es = index_entries(*m);
    let ghost view = table_view(*m);
    let ghost wf = table_wf(*m);
    let found = table_find(m, &key);
    let k = entry_key(&key);
    let ghost kv = key_view(k);
    let ghost kk = key;
    let ghost vv = value;
    let r = index_insert(m, k, (key, value));
    proof {
        let es2 = index_entries(*m);
        let view2 = table_view(*m);
        crate::laws::law_equality_reflexive(kk);
        if wf { match r.1 {
            Some(_) => {
                let i = r.0 as int;
                assert(es2 == es.update(i, (kv, (kk, vv))));
                assert(view2 =~= view.update(i, (kk, vv)));
                lemma_key_of(view[i].0, kk);
                assert forall|j: int| 0 <= j < i implies !same_value_zero(#[trigger] view2[j].0, kk) by {
                    lemma_key_of(view[j].0, kk);
                    assert(es[j].0 != es[i].0);
                }
                lemma_lookup_at(view2, kk, i);
                assert forall|j: int| 0 <= j < i implies !same_value_zero(#[trigger] view[j].0, kk) by {
                    lemma_key_of(view[j].0, kk);
                    assert(es[j].0 != es[i].0);
                }
                lemma_key_position(view, kk, i);
                assert forall|other: JsValue| !same_value_zero(kk, other) implies #[trigger] map_lookup(view2, other)
                    == map_lookup(view, other) by {
                    lemma_same_value_zero_equiv(view[i].0, kk, other);
                    lemma_same_value_zero_equiv(kk, view[i].0, view[i].0);
                    lemma_lookup_same_but(view, view2, i, other);
                }
                assert forall|a: int, b: int| 0 <= a < b < es2.len() implies #[trigger] es2[a].0 != #[trigger] es2[b].0 by {
                    assert(es[a].0 != es[b].0);
                }
                assert forall|a: int| 0 <= a < es2.len() implies #[trigger] es2[a].0 == key_of(es2[a].1.0) by {
                    if a != i {
                        assert(es2[a] == es[a]);
                    }
                }
            },
            None => {
                assert(view2 =~= view.push((kk, vv)));
                assert forall|j: int| 0 <= j < view.len() implies !same_value_zero(#[trigger] view[j].0, kk) by {
                    assert(es[j].0 != kv);
                    assert(es[j].0 == key_of(es[j].1.0));
                    lemma_key_of(view[j].0, kk);
                }
                assert forall|other: JsValue| !same_value_zero(kk, other) implies #[trigger] map_lookup(view2, other)
                    == map_lookup(view, other) by {
                    lemma_lookup_push(view, kk, vv, other);
                }
                lemma_lookup_push(view, kk, vv, kk);
                lemma_key_position(view, kk, view.len() as int);
                assert forall|a: int, b: int| 0 <= a < b < es2.len() implies #[trigger] es2[a].0 != #[trigger] es2[b].0 by {
                    if b < es.len() {
                        assert(es[a].0 != es[b].0);
                    }
                }
                assert forall|a: int| 0 <= a < es2.len() implies #[trigger] es2[a].0 == key_of(es2[a].1.0) by {
                    if a < es.len() {
                        assert(es2[a] == es[a]);
                    }
                }
            },
        } }
    }
}

/// Removing the entry at `i`, whose plain key is that of `key`, keeps a table
/// well-formed and leaves no entry for `key`.
proof fn lemma_table_remove(es: Seq<(KeyView, (JsValue, JsValue))>, i: int, key: JsValue)
    requires
        0 <= i < es.len(),
        es[i].0 == key_of(key),
        forall|a: int| 0 <= a < es.len() ==> #[trigger] es[a].0 == key_of(es[a].1.0),
        forall|a: int, b: int| 0 <= a < b < es.len() ==> #[trigger] es[a].0 != #[trigger] es[b].0,
    ensures
        forall|a: int| 0 <= a < es.remove(i).len() ==> #[trigger] es.remove(i)[a].0 == key_of(es.remove(i)[a].1.0),
        forall|a: int, b: int|
            0 <= a < b < es.remove(i).len() ==> #[trigger] es.remove(i)[a].0 != #[trigger] es.remove(i)[b].0,
        forall|j: int| 0 <= j < es.remove(i).len() ==> !same_value_zero(#[trigger] es.remove(i)[j].1.0, key),
{
    let es2 = es.remove(i);
    assert forall|a: int, b: int| 0 <= a < b < es2.len() implies #[trigger] es2[a].0 != #[trigger] es2[b].0 by {
        let a0 = if a < i { a } else { a + 1 };
        let b0 = if b < i { b } else { b + 1 };
        assert(es2[a] == es[a0] && es2[b] == es[b0]);
        assert(es[a0].0 != es[b0].0);
    }
    assert forall|a: int| 0 <= a < es2.len() implies #[trigger] es2[a].0 == key_of(es2[a].1.0) by {
        let a0 = if a < i { a } else { a + 1 };
        assert(es2[a] == es[a0]);
    }
    assert forall|j: int| 0 <= j < es2.len() implies !same_value_zero(#[trigger] es2[j].1.0, key) by {
        let j0 = if j < i { j } else { j + 1 };
        assert(es2[j] == es[j0]);
        assert(es[j0].0 != es[i].0);
        lemma_key_of(es2[j].1.0, key);
    }
}

/// Removes the entry whose key is SameValueZero to `key`; whether there was one.
pub fn table_remove(m: &mut EntryTable, key: &JsValue) -> (r: bool)
    ensures
        table_wf(*old(m)) ==> table_wf(*final(m)),
        table_wf(*old(m)) ==> r == map_lookup(table_view(*old(m)), *key) is Some,
        table_wf(*old(m)) ==> (r ==> table_view(*final(m)).len() == table_view(*old(m)).len() - 1),
        table_wf(*old(m)) ==> (!r ==> table_view(*final(m)) == table_view(*old(m))),
        table_wf(*old(m)) ==> map_lookup(table_view(*final(m)), *key) is None,
{
    let found = table_find(m, key);
    let k = entry_key(key);
    let ghost es = index_entries(*m);
    let ghost view = table_view(*m);
    let ghost wf = table_wf(*m);
    let r = index_remove(m, &k);
    proof {
        let view2 = table_view(*m);
        if wf { match r {
            Some(i) => {
                lemma_table_remove(es, i as int, *key);
                assert(view2 =~= view.remove(i as int));
                assert forall|j: int| 0 <= j < view2.len() implies !same_value_zero(#[trigger] view2[j].0, *key) by {
                    assert(view2[j] == es.remove(i as int)[j].1);
                }
                lemma_lookup_none(view2, *key);
                lemma_key_of(view[i as int].0, *key);
                assert(same_value_zero(view[i as int].0, *key));
                assert(found is Some);
            },
            None => {
                assert(view2 =~= view);
                assert forall|j: int| 0 <= j < view.len() implies !same_value_zero(#[trigger] view[j].0, *key) by {
                    lemma_key_of(view[j].0, *key);
                    assert(es[j].0 != key_view(k));
                }
                lemma_lookup_none(view, *key);
            },
        } }
    }
    r.is_some()
}

/// Removes every entry.
pub fn table_clear(m: &mut EntryTable)
    ensures
        table_wf(*final(m)),
        table_view(*final(m)) == Seq::<(JsValue, JsValue)>::empty(),
{
    index_clear(m);
    assert(table_view(*m) =~= Seq::<(JsValue, JsValue)>::empty());
}

/// Copies of the entries, in order.
pub fn table_copy(m: &EntryTable) -> (r: Vec<(JsValue, JsValue)>)
    ensures
        r@.len() == table_view(*m).len(),
        forall|i: int|
            0 <= i < r@.len() ==> same_value(#[trigger] r@[i].0, table_view(*m)[i].0) && same_value(
                r@[i].1,
                table_view(*m)[i].1,
            ),
{
    let n = table_len(m);
    let mut out: Vec<(JsValue, JsValue)> = Vec::new();
    let mut i: usize = 0;
    while i < n
        invariant
            i <= n,
            n == table_view(*m).len(),
            out@.len() == i,
            forall|j: int|
                0 <= j < i ==> same_value(#[trigger] out@[j].0, table_view(*m)[j].0) && same_value(
                    out@[j].1,
                    table_view(*m)[j].1,
                ),
        decreases n - i,
    {
        out.push(table_entry(m, i));
        i = i + 1;
    }
    out
}

} // verus!
