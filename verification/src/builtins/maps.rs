//! `Map`: entries kept in insertion order (in an `IndexMap`), keys compared by
//! SameValueZero.
use crate::builtins::helpers::{is_type_error, same_seq};
use crate::interpreter::{
    arg_at, copy_values, global_set, lemma_methods_added_push, lemma_texts_differ, methods_added, new_object,
    type_error, Interpreter,
};
use crate::table::{
    lemma_table_unique, table_clear, table_copy, table_entry, table_find, table_new, table_put, table_remove,
    table_view, table_wf,
};
use crate::number::chars_of;
use crate::value::{
    same_value, same_value_zero, same_value_zero_equals, JsError, JsValue, NativeId, ObjectKind,
};
use vstd::prelude::*;

verus! {

/// The value stored under the first key that is SameValueZero to `key`.
pub open spec fn map_lookup(es: Seq<(JsValue, JsValue)>, key: JsValue) -> Option<JsValue>
    decreases es.len(),
{
    if es.len() == 0 {
        None
    } else if same_value_zero(es[0].0, key) {
        Some(es[0].1)
    } else {
        map_lookup(es.drop_first(), key)
    }
}

/// The entries of `v` if it is a well-formed `Map` (as every map that `new Map`,
/// `Map.groupBy` and the map methods make is).
pub open spec fn map_data(interp: &Interpreter, v: JsValue) -> Option<Seq<(JsValue, JsValue)>> {
    match v {
        JsValue::Object(id) => if id < interp.heap@.len() {
            match interp.heap@[id as int].kind {
                ObjectKind::MapData(t) => if table_wf(t) {
                    Some(table_view(t))
                } else {
                    None
                },
                _ => None,
            }
        } else {
            None
        },
        _ => None,
    }
}

/// `v` is a `Map`.
pub open spec fn is_map(interp: &Interpreter, v: JsValue) -> bool {
    v matches JsValue::Object(id) && id < interp.heap@.len() && interp.heap@[id as int].kind is MapData
}

/// Argument `k`, `undefined` when absent.
pub open spec fn nth_arg(args: Seq<JsValue>, k: int) -> JsValue {
    if k < args.len() {
        args[k]
    } else {
        JsValue::Undefined
    }
}

/// The heap index of the `Map` that `this` is, or a `TypeError`.
fn this_map(interp: &Interpreter, this: &JsValue) -> (r: Result<usize, JsError>)
    ensures
        r matches Ok(id) ==> *this == JsValue::Object(id) && is_map(interp, *this),
        r is Ok <==> is_map(interp, *this),
        r is Err ==> is_type_error(r),
{
    match this {
        JsValue::Object(id) => {
            if *id < interp.heap.len() {
                if let ObjectKind::MapData(_) = &interp.heap[*id].kind {
                    return Ok(*id);
                }
            }
            Err(type_error("Map method called on non-Map"))
        },
        _ => Err(type_error("Map method called on non-object")),
    }
}

/// `m.get(key)`: the value stored under `key`, `undefined` without one.
pub fn map_get(interp: &mut Interpreter, this: JsValue, args: Vec<JsValue>) -> (r: Result<
    JsValue,
    JsError,
>)
    ensures
        *final(interp) == *old(interp),
        r is Err <==> !is_map(old(interp), this),
        r is Err ==> is_type_error(r),
        map_data(old(interp), this) matches Some(es) ==> (r matches Ok(v) && match map_lookup(es, nth_arg(args@, 0)) {
            Some(w) => same_value(v, w),
            None => v == JsValue::Undefined,
        }),
{
    let id = this_map(interp, &this)?;
    let undef = JsValue::Undefined;
    let key: &JsValue = if args.len() > 0 {
        &args[0]
    } else {
        &undef
    };
    if let ObjectKind::MapData(t) = &interp.heap[id].kind {
        match table_find(t, key) {
            Some(i) => {
                return Ok(table_entry(t, i).1);
            },
            None => {
                return Ok(JsValue::Undefined);
            },
        }
    }
    Ok(JsValue::Undefined)
}

/// `m.has(key)`: whether a value is stored under `key`.
pub fn map_has(interp: &mut Interpreter, this: JsValue, args: Vec<JsValue>) -> (r: Result<
    JsValue,
    JsError,
>)
    ensures
        *final(interp) == *old(interp),
        r is Err <==> !is_map(old(interp), this),
        r is Err ==> is_type_error(r),
        map_data(old(interp), this) matches Some(es) ==> r == Ok::<JsValue, JsError>(
            JsValue::Boolean(map_lookup(es, nth_arg(args@, 0)) is Some),
        ),
{
    let id = this_map(interp, &this)?;
    let undef = JsValue::Undefined;
    let key: &JsValue = if args.len() > 0 {
        &args[0]
    } else {
        &undef
    };
    if let ObjectKind::MapData(t) = &interp.heap[id].kind {
        return Ok(JsValue::Boolean(table_find(t, key).is_some()));
    }
    Ok(JsValue::Boolean(false))
}

/// No two keys are SameValueZero.
pub open spec fn unique_keys(es: Seq<(JsValue, JsValue)>) -> bool {
    forall|i: int, j: int| 0 <= i < j < es.len() ==> !same_value_zero(#[trigger] es[i].0, #[trigger] es[j].0)
}

/// SameValueZero is symmetric and transitive.
pub proof fn lemma_same_value_zero_equiv(a: JsValue, b: JsValue, c: JsValue)
    ensures
        same_value_zero(a, b) ==> same_value_zero(b, a),
        same_value_zero(a, b) && same_value_zero(b, c) ==> same_value_zero(a, c),
{
}

/// `m.set(key, value)`: stores `value` under `key` (in place when the key is present,
/// else at the end); returns the map.
pub fn map_set(interp: &mut Interpreter, this: JsValue, args: Vec<JsValue>) -> (r: Result<
    JsValue,
    JsError,
>)
    ensures
        r is Err <==> !is_map(old(interp), this),
        r is Err ==> is_type_error(r) && *final(interp) == *old(interp),
        r is Ok ==> r == Ok::<JsValue, JsError>(this),
        this matches JsValue::Object(id) ==> (r is Ok ==> final(interp).unchanged_but(old(interp), id as int)),
        map_data(old(interp), this) matches Some(es) ==> (map_data(final(interp), this) matches Some(es2)
            && map_lookup(es2, nth_arg(args@, 0)) == Some(nth_arg(args@, 1))
            && (forall|other: JsValue| !same_value_zero(nth_arg(args@, 0), other) ==> #[trigger] map_lookup(es2, other) == map_lookup(es, other))
            && (map_lookup(es, nth_arg(args@, 0)) is Some ==> es2.len() == es.len())
            && (map_lookup(es, nth_arg(args@, 0)) is None ==> es2.len() == es.len() + 1)
            && (unique_keys(es) ==> unique_keys(es2))
            && es2 == crate::table::put_entries(es, nth_arg(args@, 0), nth_arg(args@, 1))),
{
    let id = this_map(interp, &this)?;
    let ghost k = nth_arg(args@, 0);
    let ghost v = nth_arg(args@, 1);
    let mut args = args;
    let value = if args.len() > 1 {
        args.remove(1)
    } else {
        JsValue::Undefined
    };
    let key = if args.len() > 0 {
        args.remove(0)
    } else {
        JsValue::Undefined
    };
    let mut t = take_table(interp, id);
    let ghost t0 = t;
    table_put(&mut t, key, value);
    proof {
        if table_wf(t0) {
            lemma_table_unique(t);
        }
    }
    interp.heap[id].kind = ObjectKind::MapData(t);
    Ok(this)
}

/// Takes the table out of map `id`, leaving an empty one.
fn take_table(interp: &mut Interpreter, id: usize) -> (r: crate::table::EntryTable)
    requires
        is_map(old(interp), JsValue::Object(id)),
    ensures
        old(interp).heap@[id as int].kind == ObjectKind::MapData(r),
        final(interp).unchanged_but(old(interp), id as int),
        final(interp).heap@[id as int].props == old(interp).heap@[id as int].props,
        final(interp).heap@[id as int].proto == old(interp).heap@[id as int].proto,
{
    let mut k = ObjectKind::MapData(table_new());
    std::mem::swap(&mut interp.heap[id].kind, &mut k);
    match k {
        ObjectKind::MapData(t) => t,
        _ => table_new(),
    }
}

/// `m.delete(key)`: removes the entry of `key`; whether there was one.
pub fn map_delete(interp: &mut Interpreter, this: JsValue, args: Vec<JsValue>) -> (r: Result<
    JsValue,
    JsError,
>)
    ensures
        r is Err <==> !is_map(old(interp), this),
        r is Err ==> is_type_error(r) && *final(interp) == *old(interp),
        this matches JsValue::Object(id) ==> (r is Ok ==> final(interp).unchanged_but(old(interp), id as int)),
        map_data(old(interp), this) matches Some(es) ==> r == Ok::<JsValue, JsError>(
            JsValue::Boolean(map_lookup(es, nth_arg(args@, 0)) is Some),
        ),
        map_data(old(interp), this) matches Some(es) ==> (map_data(final(interp), this) matches Some(es2) && (map_lookup(es, nth_arg(args@, 0)) is Some
            ==> es2.len() == es.len() - 1) && (map_lookup(es, nth_arg(args@, 0)) is None ==> es2 == es)
            && (unique_keys(es) ==> unique_keys(es2) && map_lookup(es2, nth_arg(args@, 0)) is None)),
{
    let id = this_map(interp, &this)?;
    let undef = JsValue::Undefined;
    let key: &JsValue = if args.len() > 0 {
        &args[0]
    } else {
        &undef
    };
    let mut t = take_table(interp, id);
    let ghost t0 = t;
    let found = table_remove(&mut t, key);
    proof {
        if table_wf(t0) {
            lemma_table_unique(t);
        }
    }
    interp.heap[id].kind = ObjectKind::MapData(t);
    Ok(JsValue::Boolean(found))
}

/// `m.clear()`: removes every entry.
pub fn map_clear(interp: &mut Interpreter, this: JsValue, args: Vec<JsValue>) -> (r: Result<
    JsValue,
    JsError,
>)
    ensures
        r is Err <==> !is_map(old(interp), this),
        r is Err ==> is_type_error(r) && *final(interp) == *old(interp),
        r is Ok ==> r == Ok::<JsValue, JsError>(JsValue::Undefined) && map_data(final(interp), this) == Some(
            Seq::<(JsValue, JsValue)>::empty(),
        ),
        this matches JsValue::Object(id) ==> (r is Ok ==> final(interp).unchanged_but(old(interp), id as int)),
{
    let id = this_map(interp, &this)?;
    let mut t = take_table(interp, id);
    table_clear(&mut t);
    interp.heap[id].kind = ObjectKind::MapData(t);
    Ok(JsValue::Undefined)
}

/// A copy of the entries of map `id`.
fn entries_of(interp: &Interpreter, id: usize) -> (r: Vec<(JsValue, JsValue)>)
    requires
        is_map(interp, JsValue::Object(id)),
    ensures
        map_data(interp, JsValue::Object(id)) matches Some(es) ==> r@.len() == es.len() && forall|i: int|
            0 <= i < es.len() ==> same_value(#[trigger] r@[i].0, es[i].0) && same_value(r@[i].1, es[i].1),
{
    match &interp.heap[id].kind {
        ObjectKind::MapData(t) => table_copy(t),
        _ => Vec::new(),
    }
}

/// The keys of the entries.
pub open spec fn entry_keys(es: Seq<(JsValue, JsValue)>) -> Seq<JsValue> {
    es.map_values(|e: (JsValue, JsValue)| e.0)
}

/// The values of the entries.
pub open spec fn entry_values(es: Seq<(JsValue, JsValue)>) -> Seq<JsValue> {
    es.map_values(|e: (JsValue, JsValue)| e.1)
}

/// `m.keys()`: an array of the keys in insertion order.
pub fn map_keys(interp: &mut Interpreter, this: JsValue, args: Vec<JsValue>) -> (r: Result<
    JsValue,
    JsError,
>)
    ensures
        final(interp).grows(old(interp)),
        final(interp).same_state(old(interp)),
        r is Err <==> !is_map(old(interp), this),
        r is Err ==> is_type_error(r),
        map_data(old(interp), this) matches Some(es) ==> (r matches Ok(JsValue::Object(a)) && final(interp).array_at(a)
            matches Some(elems) && same_seq(elems, entry_keys(es))),
{
    let id = this_map(interp, &this)?;
    let es = entries_of(interp, id);
    let mut out: Vec<JsValue> = Vec::new();
    let mut i: usize = 0;
    while i < es.len()
        invariant
            i <= es@.len(),
            out@.len() == i,
            forall|j: int| 0 <= j < i ==> same_value(#[trigger] out@[j], es@[j].0),
        decreases es@.len() - i,
    {
        out.push(es[i].0.copy());
        i = i + 1;
    }
    Ok(JsValue::Object(interp.create_array(out)))
}

/// `m.values()`: an array of the values in insertion order.
pub fn map_values(interp: &mut Interpreter, this: JsValue, args: Vec<JsValue>) -> (r: Result<
    JsValue,
    JsError,
>)
    ensures
        final(interp).grows(old(interp)),
        final(interp).same_state(old(interp)),
        r is Err <==> !is_map(old(interp), this),
        r is Err ==> is_type_error(r),
        map_data(old(interp), this) matches Some(es) ==> (r matches Ok(JsValue::Object(a)) && final(interp).array_at(a)
            matches Some(elems) && same_seq(elems, entry_values(es))),
{
    let id = this_map(interp, &this)?;
    let es = entries_of(interp, id);
    let mut out: Vec<JsValue> = Vec::new();
    let mut i: usize = 0;
    while i < es.len()
        invariant
            i <= es@.len(),
            out@.len() == i,
            forall|j: int| 0 <= j < i ==> same_value(#[trigger] out@[j], es@[j].1),
        decreases es@.len() - i,
    {
        out.push(es[i].1.copy());
        i = i + 1;
    }
    proof {
        if map_data(old(interp), this) is Some {
            let ghost data = map_data(old(interp), this)->Some_0;
            assert forall|j: int| 0 <= j < data.len() implies same_value(#[trigger] out@[j], entry_values(data)[j]) by {
                assert(entry_values(data)[j] == data[j].1);
                assert(same_value(es@[j].0, data[j].0));
                assert(same_value(es@[j].1, data[j].1));
            }
        }
    }
    Ok(JsValue::Object(interp.create_array(out)))
}

/// `m.entries()`: an array of `[key, value]` arrays in insertion order.
pub fn map_entries(interp: &mut Interpreter, this: JsValue, args: Vec<JsValue>) -> (r: Result<
    JsValue,
    JsError,
>)
    ensures
        final(interp).grows(old(interp)),
        final(interp).same_state(old(interp)),
        r is Err <==> !is_map(old(interp), this),
        r is Err ==> is_type_error(r),
        map_data(old(interp), this) matches Some(es) ==> (r matches Ok(JsValue::Object(a)) && final(interp).array_at(a)
            matches Some(elems) && elems.len() == es.len()),
{
    let id = this_map(interp, &this)?;
    let es = entries_of(interp, id);
    let ghost start = *interp;
    let mut out: Vec<JsValue> = Vec::new();
    let mut i: usize = 0;
    while i < es.len()
        invariant
            i <= es@.len(),
            out@.len() == i,
            interp.grows(&start),
            interp.same_state(&start),
        decreases es@.len() - i,
    {
        let mut pair: Vec<JsValue> = Vec::new();
        pair.push(es[i].0.copy());
        pair.push(es[i].1.copy());
        let a = interp.create_array(pair);
        out.push(JsValue::Object(a));
        i = i + 1;
    }
    Ok(JsValue::Object(interp.create_array(out)))
}

/// `m.forEach(callback, thisArg)`: calls `callback(value, key, m)` for each entry present
/// when the call starts, in insertion order.
pub fn map_foreach(interp: &mut Interpreter, this: JsValue, args: Vec<JsValue>) -> (r: Result<
    JsValue,
    JsError,
>)
    ensures
        final(interp).spends(old(interp), r is Err) || *final(interp) == *old(interp),
        !is_map(old(interp), this) ==> is_type_error(r),
        r is Ok ==> r == Ok::<JsValue, JsError>(JsValue::Undefined),
    decreases old(interp).fuel,
{
    let id = this_map(interp, &this)?;
    let callback = arg_at(&args, 0);
    let this_arg = arg_at(&args, 1);
    let es = entries_of(interp, id);
    let mut i: usize = 0;
    while i < es.len()
        invariant
            i <= es@.len(),
            interp.spends(old(interp), false) || *interp == *old(interp),
            is_map(old(interp), this),
        decreases es@.len() - i,
    {
        interp.step()?;
        let mut call_args: Vec<JsValue> = Vec::new();
        call_args.push(es[i].1.copy());
        call_args.push(es[i].0.copy());
        call_args.push(this.copy());
        interp.call_function(callback.copy(), this_arg.copy(), call_args)?;
        i = i + 1;
    }
    Ok(JsValue::Undefined)
}

/// `new Map(entries)`: a map holding the `[key, value]` arrays of `entries` (later
/// pairs win).
pub fn map_constructor(interp: &mut Interpreter, this: JsValue, args: Vec<JsValue>) -> (r: Result<
    JsValue,
    JsError,
>)
    ensures
        final(interp).grows(old(interp)),
        final(interp).same_state(old(interp)),
        r matches Ok(v) && map_data(final(interp), v) matches Some(es) && unique_keys(es),
{
    let mut t = table_new();
    if let Some(items) = interp.array_elements(&arg_at(&args, 0)) {
        let mut i: usize = 0;
        while i < items.len()
            invariant
                i <= items@.len(),
                table_wf(t),
            decreases items@.len() - i,
        {
            if let Some(pair) = interp.array_elements(&items[i]) {
                table_put(&mut t, arg_at(&pair, 0), arg_at(&pair, 1));
            }
            i = i + 1;
        }
    }
    proof {
        lemma_table_unique(t);
    }
    let p = interp.map_prototype;
    let id = interp.allocate(new_object(ObjectKind::MapData(t), Some(p)));
    Ok(JsValue::Object(id))
}

/// `Map.groupBy(items, callback)`: a map from each key that `callback(item, index)`
/// returns (keys compared by SameValueZero, in order of first appearance) to the array of
/// the items that gave it, in order.
pub fn map_group_by(interp: &mut Interpreter, this: JsValue, args: Vec<JsValue>) -> (r: Result<
    JsValue,
    JsError,
>)
    ensures
        final(interp).spends(old(interp), r is Err) || final(interp).grows(old(interp)),
        !(nth_arg(args@, 0) is Object) ==> is_type_error(r) && *final(interp) == *old(interp),
        nth_arg(args@, 0) matches JsValue::Object(id) ==> (old(interp).array_at(id) is None ==> is_type_error(r)
            && *final(interp) == *old(interp)),
        r matches Ok(v) ==> (map_data(final(interp), v) matches Some(es) && unique_keys(es)),
    decreases old(interp).fuel,
{
    let items = match arg_at(&args, 0) {
        JsValue::Object(id) => match interp.array_elements(&JsValue::Object(id)) {
            Some(e) => e,
            None => {
                return Err(type_error("Map.groupBy requires an array-like object"));
            },
        },
        _ => {
            return Err(type_error("Map.groupBy requires an iterable"));
        },
    };
    let callback = arg_at(&args, 1);
    let mut keys: Vec<JsValue> = Vec::new();
    let mut lists: Vec<Vec<JsValue>> = Vec::new();
    let mut i: usize = 0;
    while i < items.len()
        invariant
            i <= items@.len(),
            keys@.len() == lists@.len(),
            forall|a: int, b: int| 0 <= a < b < keys@.len() ==> !same_value_zero(#[trigger] keys@[a], #[trigger] keys@[b]),
            interp.spends(old(interp), false) || *interp == *old(interp),
            nth_arg(args@, 0) matches JsValue::Object(id) && old(interp).array_at(id) is Some,
        decreases items@.len() - i,
    {
        interp.step()?;
        let mut call_args: Vec<JsValue> = Vec::new();
        call_args.push(items[i].copy());
        call_args.push(JsValue::from_usize(i));
        let key = interp.call_function(callback.copy(), JsValue::Undefined, call_args)?;
        let mut j: usize = 0;
        while j < keys.len()
            invariant
                j <= keys@.len(),
                forall|k: int| 0 <= k < j ==> !same_value_zero(#[trigger] keys@[k], key),
            decreases keys@.len() - j,
        {
            if same_value_zero_equals(&keys[j], &key) {
                break;
            }
            j = j + 1;
        }
        if j < keys.len() {
            let mut list = lists.remove(j);
            list.push(items[i].copy());
            lists.insert(j, list);
        } else {
            let ghost ks = keys@;
            keys.push(key);
            let mut list: Vec<JsValue> = Vec::new();
            list.push(items[i].copy());
            lists.push(list);
            proof {
                assert forall|a: int, b: int| 0 <= a < b < keys@.len() implies !same_value_zero(
                    #[trigger] keys@[a],
                    #[trigger] keys@[b],
                ) by {
                    if b == ks.len() {
                        assert(!same_value_zero(ks[a], keys@[b]));
                    } else {
                        assert(keys@[a] == ks[a] && keys@[b] == ks[b]);
                    }
                }
            }
        }
        i = i + 1;
    }
    let mut t = table_new();
    let mut k: usize = 0;
    while k < keys.len()
        invariant
            k <= keys@.len(),
            keys@.len() == lists@.len(),
            table_wf(t),
            interp.spends(old(interp), false) || interp.grows(old(interp)),
        decreases keys@.len() - k,
    {
        let arr = interp.create_array(copy_values(&lists[k]));
        table_put(&mut t, keys[k].copy(), JsValue::Object(arr));
        k = k + 1;
    }
    proof {
        lemma_table_unique(t);
    }
    let p = interp.map_prototype;
    let id = interp.allocate(new_object(ObjectKind::MapData(t), Some(p)));
    Ok(JsValue::Object(id))
}

/// Installs the methods of `Map.prototype`.
pub fn init_map_prototype(interp: &mut Interpreter)
    ensures
        final(interp).grows(old(interp)),
        final(interp).same_state(old(interp)),
        final(interp).heap@.len() == old(interp).heap@.len() + 9,
        forall|i: int| 0 <= i < old(interp).heap@.len() && i != old(interp).map_prototype ==> #[trigger] final(interp).heap@[i] == old(interp).heap@[i],
        old(interp).map_prototype < old(interp).heap@.len() ==> methods_added(
            old(interp).heap@[old(interp).map_prototype as int],
            final(interp).heap@[old(interp).map_prototype as int],
            map_method_names(),
            old(interp).heap@.len() as int,
        ),
{
    let p = interp.map_prototype;
    let ghost h0 = interp.heap@.len() as int;
    let ghost o0 = interp.heap@[p as int];
    interp.register_method(p, "get", NativeId::MapGet, 1);
    let ghost o1 = interp.heap@[p as int];
    interp.register_method(p, "set", NativeId::MapSet, 2);
    let ghost o2 = interp.heap@[p as int];
    interp.register_method(p, "has", NativeId::MapHas, 1);
    let ghost o3 = interp.heap@[p as int];
    interp.register_method(p, "delete", NativeId::MapDelete, 1);
    let ghost o4 = interp.heap@[p as int];
    interp.register_method(p, "clear", NativeId::MapClear, 0);
    let ghost o5 = interp.heap@[p as int];
    interp.register_method(p, "forEach", NativeId::MapForEach, 1);
    let ghost o6 = interp.heap@[p as int];
    interp.register_method(p, "keys", NativeId::MapKeys, 0);
    let ghost o7 = interp.heap@[p as int];
    interp.register_method(p, "values", NativeId::MapValues, 0);
    let ghost o8 = interp.heap@[p as int];
    interp.register_method(p, "entries", NativeId::MapEntries, 0);
    let ghost o9 = interp.heap@[p as int];
    proof {
        if p < h0 {
            reveal_strlit("get");
            reveal_strlit("set");
            reveal_strlit("has");
            reveal_strlit("delete");
            reveal_strlit("clear");
            reveal_strlit("forEach");
            reveal_strlit("keys");
            reveal_strlit("values");
            reveal_strlit("entries");
            let q1 = seq!["get"@];
            lemma_texts_differ("get"@, "set"@, 0);
            lemma_methods_added_push(o0, o1, o2, q1, "set"@, h0);
            let q2 = q1.push("set"@);
            lemma_texts_differ("get"@, "has"@, 0);
            lemma_texts_differ("set"@, "has"@, 0);
            lemma_methods_added_push(o0, o2, o3, q2, "has"@, h0);
            let q3 = q2.push("has"@);
            lemma_texts_differ("get"@, "delete"@, 0);
            lemma_texts_differ("set"@, "delete"@, 0);
            lemma_texts_differ("has"@, "delete"@, 0);
            lemma_methods_added_push(o0, o3, o4, q3, "delete"@, h0);
            let q4 = q3.push("delete"@);
            lemma_texts_differ("get"@, "clear"@, 0);
            lemma_texts_differ("set"@, "clear"@, 0);
            lemma_texts_differ("has"@, "clear"@, 0);
            lemma_texts_differ("delete"@, "clear"@, 0);
            lemma_methods_added_push(o0, o4, o5, q4, "clear"@, h0);
            let q5 = q4.push("clear"@);
            lemma_texts_differ("get"@, "forEach"@, 0);
            lemma_texts_differ("set"@, "forEach"@, 0);
            lemma_texts_differ("has"@, "forEach"@, 0);
            lemma_texts_differ("delete"@, "forEach"@, 0);
            lemma_texts_differ("clear"@, "forEach"@, 0);
            lemma_methods_added_push(o0, o5, o6, q5, "forEach"@, h0);
            let q6 = q5.push("forEach"@);
            lemma_texts_differ("get"@, "keys"@, 0);
            lemma_texts_differ("set"@, "keys"@, 0);
            lemma_texts_differ("has"@, "keys"@, 0);
            lemma_texts_differ("delete"@, "keys"@, 0);
            lemma_texts_differ("clear"@, "keys"@, 0);
            lemma_texts_differ("forEach"@, "keys"@, 0);
            lemma_methods_added_push(o0, o6, o7, q6, "keys"@, h0);
            let q7 = q6.push("keys"@);
            lemma_texts_differ("get"@, "values"@, 0);
            lemma_texts_differ("set"@, "values"@, 0);
            lemma_texts_differ("has"@, "values"@, 0);
            lemma_texts_differ("delete"@, "values"@, 0);
            lemma_texts_differ("clear"@, "values"@, 0);
            lemma_texts_differ("forEach"@, "values"@, 0);
            lemma_texts_differ("keys"@, "values"@, 0);
            lemma_methods_added_push(o0, o7, o8, q7, "values"@, h0);
            let q8 = q7.push("values"@);
            lemma_texts_differ("get"@, "entries"@, 0);
            lemma_texts_differ("set"@, "entries"@, 0);
            lemma_texts_differ("has"@, "entries"@, 0);
            lemma_texts_differ("delete"@, "entries"@, 0);
            lemma_texts_differ("clear"@, "entries"@, 0);
            lemma_texts_differ("forEach"@, "entries"@, 0);
            lemma_texts_differ("keys"@, "entries"@, 0);
            lemma_texts_differ("values"@, "entries"@, 0);
            lemma_methods_added_push(o0, o8, o9, q8, "entries"@, h0);
            let q9 = q8.push("entries"@);
            assert(q9 =~= map_method_names());
        }
    }
}

/// The methods that `init_map_prototype` installs on `Map.prototype`, in order.
pub open spec fn map_method_names() -> Seq<Seq<char>> {
    seq![
        "get"@,
        "set"@,
        "has"@,
        "delete"@,
        "clear"@,
        "forEach"@,
        "keys"@,
        "values"@,
    ]
    + seq![
        "entries"@,
    ]
}


/// Installs `Map.prototype` and the global `Map`.
pub fn init_map(interp: &mut Interpreter)
    ensures
        final(interp).heap@.len() == old(interp).heap@.len() + 11,
        final(interp).same_registers(old(interp)),
        final(interp).grows(old(interp)),
        final(interp).fuel == old(interp).fuel,
        global_set(
            old(interp).scopes@,
            final(interp).scopes@,
            "Map"@,
            JsValue::Object((old(interp).heap@.len() + 9) as usize),
        ),
{
    init_map_prototype(interp);
    let f = interp.create_native(NativeId::MapCtor, "Map", 0);
    let p = interp.map_prototype;
    interp.register_method(f, "groupBy", NativeId::MapGroupBy, 2);
    interp.put_own(f, chars_of("prototype"), JsValue::Object(p), false);
    interp.put_own(p, chars_of("constructor"), JsValue::Object(f), false);
    interp.define_global("Map", JsValue::Object(f));
}

} // verus!
