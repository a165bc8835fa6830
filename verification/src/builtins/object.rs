//! `Object`: its static functions and the methods of `Object.prototype`.
use crate::builtins::helpers::{is_type_error, same_seq};
use crate::interpreter::{
    arg_at, find_prop, lemma_methods_added_push, lemma_texts_differ, lookup_prop, methods_added, new_object,
    type_error, Interpreter,
};
use crate::number::{chars_of, u64_to_dec};
use crate::value::{copy_chars, same_value, JsError, JsValue, NativeId, ObjectKind, Property, PropertyKey};
use vstd::prelude::*;

verus! {

/// The keys of the enumerable properties, in order.
pub open spec fn enumerable_keys(props: Seq<Property>) -> Seq<Seq<char>>
    decreases props.len(),
{
    if props.len() == 0 {
        Seq::empty()
    } else {
        let rest = enumerable_keys(props.drop_last());
        if props.last().enumerable {
            rest.push(props.last().key@)
        } else {
            rest
        }
    }
}

/// The values of the enumerable properties, in order.
pub open spec fn enumerable_values(props: Seq<Property>) -> Seq<JsValue>
    decreases props.len(),
{
    if props.len() == 0 {
        Seq::empty()
    } else {
        let rest = enumerable_values(props.drop_last());
        if props.last().enumerable {
            rest.push(props.last().value)
        } else {
            rest
        }
    }
}

/// The keys of all own properties, in order.
pub open spec fn all_keys(props: Seq<Property>) -> Seq<Seq<char>> {
    props.map_values(|p: Property| p.key@)
}

/// `elems` are strings holding exactly `keys`.
pub open spec fn holds_texts(elems: Seq<JsValue>, keys: Seq<Seq<char>>) -> bool {
    &&& elems.len() == keys.len()
    &&& forall|i: int| 0 <= i < keys.len() ==> (#[trigger] elems[i] matches JsValue::String(t) && t@ == keys[i])
}

/// The object `v` names, if it names one that is not an array or a string wrapper.
pub open spec fn plain_object(interp: &Interpreter, v: JsValue) -> Option<int> {
    match v {
        JsValue::Object(id) => if id < interp.heap@.len() && !(interp.heap@[id as int].kind is Array)
            && !(interp.heap@[id as int].kind is StringBox) {
            Some(id as int)
        } else {
            None
        },
        _ => None,
    }
}

/// The heap index of argument `k` if it is an object of the heap.
fn object_arg(interp: &Interpreter, args: &Vec<JsValue>, k: usize) -> (r: Option<usize>)
    ensures
        r matches Some(id) ==> k < args@.len() && args@[k as int] == JsValue::Object(id) && id
            < interp.heap@.len(),
        r is None ==> !(k < args@.len() && (args@[k as int] matches JsValue::Object(id) && id
            < interp.heap@.len())),
{
    if k < args.len() {
        if let JsValue::Object(id) = args[k] {
            if id < interp.heap.len() {
                return Some(id);
            }
        }
    }
    None
}

/// The keys of the enumerable properties as string values.
fn enumerable_key_values(props: &Vec<Property>) -> (r: Vec<JsValue>)
    ensures
        holds_texts(r@, enumerable_keys(props@)),
{
    let mut out: Vec<JsValue> = Vec::new();
    let mut i: usize = 0;
    while i < props.len()
        invariant
            i <= props@.len(),
            holds_texts(out@, enumerable_keys(props@.take(i as int))),
        decreases props@.len() - i,
    {
        proof {
            assert(props@.take(i + 1).drop_last() =~= props@.take(i as int));
        }
        if props[i].enumerable {
            out.push(JsValue::String(copy_chars(&props[i].key)));
        }
        i = i + 1;
    }
    assert(props@.take(props@.len() as int) =~= props@);
    out
}

/// The values of the enumerable properties.
fn enumerable_value_list(props: &Vec<Property>) -> (r: Vec<JsValue>)
    ensures
        same_seq(r@, enumerable_values(props@)),
{
    let mut out: Vec<JsValue> = Vec::new();
    let mut i: usize = 0;
    while i < props.len()
        invariant
            i <= props@.len(),
            same_seq(out@, enumerable_values(props@.take(i as int))),
        decreases props@.len() - i,
    {
        proof {
            assert(props@.take(i + 1).drop_last() =~= props@.take(i as int));
        }
        if props[i].enumerable {
            out.push(props[i].value.copy());
        }
        i = i + 1;
    }
    assert(props@.take(props@.len() as int) =~= props@);
    out
}

/// The index keys `"0"`, `"1"`, ... below `n`.
fn index_keys(n: usize) -> (r: Vec<JsValue>)
    ensures
        r@.len() == n,
{
    let mut out: Vec<JsValue> = Vec::new();
    let mut i: usize = 0;
    while i < n
        invariant
            i <= n,
            out@.len() == i,
        decreases n - i,
    {
        out.push(JsValue::String(u64_to_dec(i as u64)));
        i = i + 1;
    }
    out
}

/// The own enumerable keys of `v` as string values: array indices first, then the
/// enumerable properties.
fn own_key_values(interp: &Interpreter, id: usize) -> (r: Vec<JsValue>)
    requires
        id < interp.heap@.len(),
    ensures
        !(interp.heap@[id as int].kind is Array) && !(interp.heap@[id as int].kind is StringBox)
            ==> holds_texts(r@, enumerable_keys(interp.heap@[id as int].props@)),
{
    let mut out = match &interp.heap[id].kind {
        ObjectKind::Array(elems) => index_keys(elems.len()),
        ObjectKind::StringBox(s) => index_keys(s.len()),
        _ => Vec::new(),
    };
    let mut keys = enumerable_key_values(&interp.heap[id].props);
    out.append(&mut keys);
    out
}

/// `Object(value)`: objects as they are; a new object for `null` and `undefined`;
/// a wrapper for other primitives.
pub fn object_constructor(interp: &mut Interpreter, this: JsValue, args: Vec<JsValue>) -> (r: Result<
    JsValue,
    JsError,
>)
    ensures
        final(interp).grows(old(interp)),
        final(interp).same_state(old(interp)),
        r matches Ok(JsValue::Object(_)),
        (args@.len() > 0 && args@[0] is Object) ==> (r == Ok::<JsValue, JsError>(args@[0]) && *final(interp) == *old(interp)),
        (args@.len() == 0 || args@[0] is Undefined || args@[0] is Null) ==> (r matches Ok(JsValue::Object(id))
            && id == old(interp).heap@.len() && final(interp).heap@[id as int].kind is Ordinary
            && final(interp).heap@[id as int].props@.len() == 0),
{
    let v = arg_at(&args, 0);
    match v {
        JsValue::Object(_) => Ok(v),
        JsValue::Undefined | JsValue::Null => Ok(JsValue::Object(interp.create_object())),
        JsValue::Boolean(b) => {
            let p = interp.boolean_prototype;
            Ok(JsValue::Object(interp.allocate(new_object(ObjectKind::BooleanBox(b), Some(p)))))
        },
        JsValue::Number(n) => {
            let p = interp.number_prototype;
            Ok(JsValue::Object(interp.allocate(new_object(ObjectKind::NumberBox(n), Some(p)))))
        },
        JsValue::String(s) => {
            let p = interp.string_prototype;
            Ok(JsValue::Object(interp.allocate(new_object(ObjectKind::StringBox(s), Some(p)))))
        },
    }
}

/// `Object.keys(o)`: the own enumerable keys; `TypeError` for `null` and `undefined`.
pub fn object_keys(interp: &mut Interpreter, this: JsValue, args: Vec<JsValue>) -> (r: Result<
    JsValue,
    JsError,
>)
    ensures
        final(interp).grows(old(interp)),
        final(interp).same_state(old(interp)),
        r is Err <==> (args@.len() == 0 || args@[0] is Undefined || args@[0] is Null),
        r is Err ==> is_type_error(r),
        plain_object(old(interp), arg_value(args@)) matches Some(id) ==> (r matches Ok(JsValue::Object(a))
            && final(interp).array_at(a) matches Some(elems) && holds_texts(
            elems,
            enumerable_keys(old(interp).heap@[id].props@),
        )),
{
    let v = arg_at(&args, 0);
    let keys = match v {
        JsValue::Undefined | JsValue::Null => {
            return Err(type_error("Cannot convert undefined or null to object"));
        },
        JsValue::Object(id) => if id < interp.heap.len() {
            own_key_values(interp, id)
        } else {
            Vec::new()
        },
        JsValue::String(s) => index_keys(s.len()),
        _ => Vec::new(),
    };
    Ok(JsValue::Object(interp.create_array(keys)))
}

/// Argument 0, `undefined` when absent.
pub open spec fn arg_value(args: Seq<JsValue>) -> JsValue {
    if args.len() > 0 {
        args[0]
    } else {
        JsValue::Undefined
    }
}

/// Replacing the first property named `key` by one with the same key changes the lookup
/// of `key` only.
pub proof fn lemma_lookup_replace(props: Seq<Property>, i: int, p: Property)
    requires
        0 <= i < props.len(),
        props[i].key@ == p.key@,
        forall|j: int| 0 <= j < i ==> props[j].key@ != p.key@,
    ensures
        lookup_prop(props.update(i, p), p.key@) == Some(p.value),
        forall|k: Seq<char>| k != p.key@ ==> #[trigger] lookup_prop(props.update(i, p), k) == lookup_prop(props, k),
    decreases props.len(),
{
    let q = props.update(i, p);
    if i > 0 {
        assert(q.drop_first() =~= props.drop_first().update(i - 1, p));
        lemma_lookup_replace(props.drop_first(), i - 1, p);
        assert forall|k: Seq<char>| k != p.key@ implies #[trigger] lookup_prop(q, k) == lookup_prop(props, k) by {
            assert(lookup_prop(q.drop_first(), k) == lookup_prop(props.drop_first(), k));
        }
    } else {
        assert(q.drop_first() =~= props.drop_first());
        assert forall|k: Seq<char>| k != p.key@ implies #[trigger] lookup_prop(q, k) == lookup_prop(props, k) by {
            assert(lookup_prop(q.drop_first(), k) == lookup_prop(props.drop_first(), k));
        }
    }
}

/// The first property of `props` named `key`, with its attributes.
pub open spec fn prop_entry(props: Seq<Property>, key: Seq<char>) -> Option<Property>
    decreases props.len(),
{
    if props.len() == 0 {
        None
    } else if props[0].key@ == key {
        Some(props[0])
    } else {
        prop_entry(props.drop_first(), key)
    }
}

/// The first property named `key` is the one at `i` when no earlier one has that name.
proof fn lemma_prop_entry_at(props: Seq<Property>, i: int, key: Seq<char>)
    requires
        0 <= i < props.len(),
        props[i].key@ == key,
        forall|j: int| 0 <= j < i ==> props[j].key@ != key,
    ensures
        prop_entry(props, key) == Some(props[i]),
    decreases i,
{
    if i > 0 {
        let rest = props.drop_first();
        assert(props[0].key@ != key);
        assert(rest[i - 1] == props[i]);
        assert forall|j: int| 0 <= j < i - 1 implies rest[j].key@ != key by {
            assert(rest[j] == props[j + 1]);
        }
        lemma_prop_entry_at(rest, i - 1, key);
    }
}

/// Creates or replaces own property `key` of `obj` with the value and attributes given.
fn define_own(
    interp: &mut Interpreter,
    obj: usize,
    key: Vec<char>,
    value: JsValue,
    writable: bool,
    enumerable: bool,
    configurable: bool,
)
    requires
        obj < old(interp).heap@.len(),
    ensures
        final(interp).heap@.len() == old(interp).heap@.len(),
        forall|i: int| 0 <= i < old(interp).heap@.len() && i != obj ==> final(interp).heap@[i] == old(interp).heap@[i],
        final(interp).heap@[obj as int].kind == old(interp).heap@[obj as int].kind,
        final(interp).heap@[obj as int].proto == old(interp).heap@[obj as int].proto,
        final(interp).heap@[obj as int].extensible == old(interp).heap@[obj as int].extensible,
        lookup_prop(final(interp).heap@[obj as int].props@, key@) == Some(value),
        forall|k: Seq<char>| k != key@ ==> #[trigger] lookup_prop(final(interp).heap@[obj as int].props@, k)
            == lookup_prop(old(interp).heap@[obj as int].props@, k),
        final(interp).same_state(old(interp)),
        prop_entry(final(interp).heap@[obj as int].props@, key@) matches Some(q) && q.value == value
            && q.writable == writable && q.enumerable == enumerable && q.configurable == configurable,
{
    let ghost ps = interp.heap@[obj as int].props@;
    let ghost k = key@;
    let p = Property { key, value, writable, enumerable, configurable };
    match find_prop(&interp.heap[obj].props, p.key.as_slice()) {
        Some(i) => {
            interp.heap[obj].props.set(i, p);
            proof {
                lemma_lookup_replace(ps, i as int, p);
                let qs = ps.update(i as int, p);
                assert forall|j: int| 0 <= j < i implies qs[j].key@ != k by {
                    assert(qs[j] == ps[j]);
                }
                lemma_prop_entry_at(qs, i as int, k);
            }
        },
        None => {
            interp.heap[obj].props.push(p);
            proof {
                crate::interpreter::lemma_lookup_push(ps, p);
                let qs = ps.push(p);
                assert forall|j: int| 0 <= j < ps.len() implies qs[j].key@ != k by {
                    assert(qs[j] == ps[j]);
                }
                lemma_prop_entry_at(qs, ps.len() as int, k);
            }
        },
    }
}

/// A property key as the name it is stored under.
fn key_text(key: PropertyKey) -> (r: Vec<char>)
    ensures
        key matches PropertyKey::Name(n) ==> r@ == n@,
{
    match key {
        PropertyKey::Index(i) => u64_to_dec(i as u64),
        PropertyKey::Name(n) => n,
    }
}

/// `Object.values(o)`: the values of the own enumerable properties; `TypeError` for
/// non-objects.
pub fn object_values(interp: &mut Interpreter, this: JsValue, args: Vec<JsValue>) -> (r: Result<
    JsValue,
    JsError,
>)
    ensures
        final(interp).grows(old(interp)),
        final(interp).same_state(old(interp)),
        r is Err <==> !(arg_value(args@) is Object),
        r is Err ==> is_type_error(r),
        plain_object(old(interp), arg_value(args@)) matches Some(id) ==> (r matches Ok(JsValue::Object(a))
            && final(interp).array_at(a) matches Some(elems) && same_seq(
            elems,
            enumerable_values(old(interp).heap@[id].props@),
        )),
{
    let id = match arg_at(&args, 0) {
        JsValue::Object(id) => id,
        _ => {
            return Err(type_error("Object.values requires an object"));
        },
    };
    let mut out: Vec<JsValue> = Vec::new();
    if id < interp.heap.len() {
        match &interp.heap[id].kind {
            ObjectKind::Array(elems) => {
                out = crate::interpreter::copy_values(elems);
            },
            _ => {},
        }
        let mut vals = enumerable_value_list(&interp.heap[id].props);
        out.append(&mut vals);
    }
    Ok(JsValue::Object(interp.create_array(out)))
}

/// `Object.entries(o)`: `[key, value]` pairs of the own enumerable properties;
/// `TypeError` for non-objects.
pub fn object_entries(interp: &mut Interpreter, this: JsValue, args: Vec<JsValue>) -> (r: Result<
    JsValue,
    JsError,
>)
    ensures
        final(interp).grows(old(interp)),
        final(interp).same_state(old(interp)),
        r is Err <==> !(arg_value(args@) is Object),
        r is Err ==> is_type_error(r),
        plain_object(old(interp), arg_value(args@)) matches Some(id) ==> (r matches Ok(JsValue::Object(a))
            && final(interp).array_at(a) matches Some(elems) && elems.len() == enumerable_keys(
            old(interp).heap@[id].props@,
        ).len()),
{
    let id = match arg_at(&args, 0) {
        JsValue::Object(id) => id,
        _ => {
            return Err(type_error("Object.entries requires an object"));
        },
    };
    if id >= interp.heap.len() {
        return Ok(JsValue::Object(interp.create_array(Vec::new())));
    }
    let keys = own_key_values(interp, id);
    let mut vals: Vec<JsValue> = Vec::new();
    match &interp.heap[id].kind {
        ObjectKind::Array(elems) => {
            vals = crate::interpreter::copy_values(elems);
        },
        ObjectKind::StringBox(s) => {
            let mut j: usize = 0;
            while j < s.len()
                invariant
                    j <= s@.len(),
                decreases s@.len() - j,
            {
                let mut c: Vec<char> = Vec::new();
                c.push(s[j]);
                vals.push(JsValue::String(c));
                j = j + 1;
            }
        },
        _ => {},
    }
    let mut rest = enumerable_value_list(&interp.heap[id].props);
    vals.append(&mut rest);
    let ghost h0 = interp.heap@.len();
    let ghost start = *interp;
    let mut pairs: Vec<JsValue> = Vec::new();
    let mut i: usize = 0;
    while i < keys.len()
        invariant
            i <= keys@.len(),
            pairs@.len() == i,
            interp.grows(&start),
            interp.same_state(&start),
            h0 == start.heap@.len(),
            forall|j: int| 0 <= j < h0 ==> interp.heap@[j] == start.heap@[j],
        decreases keys@.len() - i,
    {
        let mut pair: Vec<JsValue> = Vec::new();
        pair.push(keys[i].copy());
        if i < vals.len() {
            pair.push(vals[i].copy());
        } else {
            pair.push(JsValue::Undefined);
        }
        let a = interp.create_array(pair);
        pairs.push(JsValue::Object(a));
        i = i + 1;
    }
    Ok(JsValue::Object(interp.create_array(pairs)))
}

/// The name a property argument stands for: a string as it is, other values by their key.
fn prop_name(interp: &Interpreter, v: &JsValue) -> (r: Vec<char>)
    ensures
        *v matches JsValue::String(t) ==> r@ == t@,
{
    match v {
        JsValue::String(t) => copy_chars(t),
        _ => key_text(interp.key_of_primitive(v)),
    }
}

/// Object `id` has an own property named by `key`: array elements and string
/// characters count too.
fn has_own_named(interp: &Interpreter, id: usize, key: &JsValue) -> (b: bool)
    requires
        id < interp.heap@.len(),
    ensures
        (!(interp.heap@[id as int].kind is Array) && !(interp.heap@[id as int].kind is StringBox))
            ==> (*key matches JsValue::String(t) ==> b == (lookup_prop(interp.heap@[id as int].props@, t@) is Some)),
{
    match &interp.heap[id].kind {
        ObjectKind::Array(_) | ObjectKind::StringBox(_) => {
            let k = interp.key_of_primitive(key);
            interp.has_own_property(id, &k)
        },
        _ => {
            let name = prop_name(interp, key);
            find_prop(&interp.heap[id].props, name.as_slice()).is_some()
        },
    }
}

/// `Object.assign(target, ...sources)`: copies the own enumerable properties of each
/// source object onto the target; `TypeError` when the target is not an object.
pub fn object_assign(interp: &mut Interpreter, this: JsValue, args: Vec<JsValue>) -> (r: Result<
    JsValue,
    JsError,
>)
    ensures
        final(interp).heap@.len() == old(interp).heap@.len(),
        final(interp).scopes@ == old(interp).scopes@,
        final(interp).fuel == old(interp).fuel,
        r is Err <==> !(arg_value(args@) is Object),
        r is Err ==> is_type_error(r),
        r is Ok ==> r == Ok::<JsValue, JsError>(args@[0]),
{
    let target = match arg_at(&args, 0) {
        JsValue::Object(id) => id,
        _ => {
            return Err(type_error("Object.assign requires an object target"));
        },
    };
    let mut k: usize = 1;
    while k < args.len()
        invariant
            1 <= k <= args@.len(),
            interp.heap@.len() == old(interp).heap@.len(),
            interp.scopes@ == old(interp).scopes@,
            interp.fuel == old(interp).fuel,
        decreases args@.len() - k,
    {
        if let JsValue::Object(src) = args[k] {
            if src < interp.heap.len() {
                let mut pairs: Vec<(Vec<char>, JsValue)> = Vec::new();
                let n = interp.heap[src].props.len();
                let mut i: usize = 0;
                while i < n
                    invariant
                        i <= n,
                        src < interp.heap@.len(),
                        n == interp.heap@[src as int].props@.len(),
                    decreases n - i,
                {
                    if interp.heap[src].props[i].enumerable {
                        pairs.push(
                            (copy_chars(&interp.heap[src].props[i].key), interp.heap[src].props[i].value.copy()),
                        );
                    }
                    i = i + 1;
                }
                let mut j: usize = 0;
                while j < pairs.len()
                    invariant
                        j <= pairs@.len(),
                        interp.heap@.len() == old(interp).heap@.len(),
                        interp.scopes@ == old(interp).scopes@,
                        interp.fuel == old(interp).fuel,
                    decreases pairs@.len() - j,
                {
                    let key = copy_chars(&pairs[j].0);
                    let value = pairs[j].1.copy();
                    interp.set_property(target, PropertyKey::Name(key), value);
                    j = j + 1;
                }
            }
        }
        k = k + 1;
    }
    Ok(JsValue::Object(target))
}

/// `Object.fromEntries(array)`: an object with a property for each `[key, value]` pair;
/// `TypeError` when the argument is not an array.
/// Entry `e` is a key-value pair array whose key is a string: the key text and the
/// value (undefined when the pair has one element).
pub open spec fn string_entry(interp: &Interpreter, e: JsValue) -> Option<(Seq<char>, JsValue)> {
    match crate::builtins::helpers::array_value(interp, e) {
        Some(pair) => if pair.len() > 0 && pair[0] is String {
            Some((pair[0]->String_0@, if pair.len() > 1 { pair[1] } else { JsValue::Undefined }))
        } else {
            None
        },
        None => None,
    }
}

/// The value that the last entry with key `k` among `es` gives, if any.
pub open spec fn entries_value(interp: &Interpreter, es: Seq<JsValue>, k: Seq<char>) -> Option<JsValue>
    decreases es.len(),
{
    if es.len() == 0 {
        None
    } else {
        match string_entry(interp, es.last()) {
            Some((key, v)) => if key == k {
                Some(v)
            } else {
                entries_value(interp, es.drop_last(), k)
            },
            None => entries_value(interp, es.drop_last(), k),
        }
    }
}

/// Two optional values agree: both absent, or both present and the same value.
pub open spec fn same_option(a: Option<JsValue>, b: Option<JsValue>) -> bool {
    match (a, b) {
        (Some(x), Some(y)) => same_value(x, y),
        (None, None) => true,
        _ => false,
    }
}

pub fn object_from_entries(interp: &mut Interpreter, this: JsValue, args: Vec<JsValue>) -> (r: Result<
    JsValue,
    JsError,
>)
    ensures
        final(interp).grows(old(interp)),
        final(interp).same_state(old(interp)),
        r is Err <==> !(crate::builtins::helpers::array_value(old(interp), arg_value(args@)) is Some),
        r is Err ==> is_type_error(r),
        r matches Ok(v) ==> (v matches JsValue::Object(id) && id == old(interp).heap@.len()
            && final(interp).heap@[id as int].kind is Ordinary && final(interp).heap@[id as int].proto
            == Some(old(interp).object_prototype)),
        match crate::builtins::helpers::array_value(old(interp), arg_value(args@)) {
            Some(es) => (forall|i: int| 0 <= i < es.len() ==> #[trigger] string_entry(old(interp), es[i]) is Some)
                ==> (r matches Ok(JsValue::Object(id)) && forall|k: Seq<char>|
                #[trigger] same_option(
                    lookup_prop(final(interp).heap@[id as int].props@, k),
                    entries_value(old(interp), es, k),
                )),
            None => r is Err,
        },
{
    let src = match arg_at(&args, 0) {
        JsValue::Object(id) => id,
        _ => {
            return Err(type_error("Object.fromEntries requires an iterable"));
        },
    };
    let entries = match interp.array_elements(&JsValue::Object(src)) {
        Some(e) => e,
        None => {
            return Err(type_error("Object.fromEntries requires an array-like"));
        },
    };
    let ghost es = entries@;
    let ghost a = crate::builtins::helpers::array_value(old(interp), JsValue::Object(src))->0;
    let ghost all_pairs = forall|j: int| 0 <= j < a.len() ==> #[trigger] string_entry(old(interp), a[j]) is Some;
    proof {
        if all_pairs {
            assert forall|j: int| 0 <= j < es.len() implies es[j] == a[j] by {
                assert(string_entry(old(interp), a[j]) is Some);
            }
            assert(es =~= a);
        }
    }
    let result = interp.create_object();
    let ghost mid = *interp;
    let mut i: usize = 0;
    proof {
        assert(es.subrange(0, 0) =~= Seq::<JsValue>::empty());
    }
    while i < entries.len()
        invariant
            i <= entries@.len(),
            es == entries@,
            result == old(interp).heap@.len(),
            mid.heap@.len() == old(interp).heap@.len() + 1,
            forall|j: int| 0 <= j < old(interp).heap@.len() ==> mid.heap@[j] == old(interp).heap@[j],
            crate::builtins::helpers::array_value(old(interp), JsValue::Object(src)) matches Some(a) && a.len()
                == es.len() && forall|j: int| 0 <= j < es.len() ==> same_value(#[trigger] es[j], a[j]),
            a == crate::builtins::helpers::array_value(old(interp), JsValue::Object(src))->0,
            all_pairs == (forall|j: int| 0 <= j < a.len() ==> #[trigger] string_entry(old(interp), a[j]) is Some),
            all_pairs ==> es == a,
            all_pairs ==> forall|k: Seq<char>|
                #[trigger] same_option(
                    lookup_prop(interp.heap@[result as int].props@, k),
                    entries_value(old(interp), es.subrange(0, i as int), k),
                ),
            result < interp.heap@.len(),
            interp.heap@.len() == mid.heap@.len(),
            interp.heap@[result as int].kind is Ordinary,
            interp.heap@[result as int].proto == mid.heap@[result as int].proto,
            forall|j: int| 0 <= j < mid.heap@.len() && j != result ==> interp.heap@[j] == mid.heap@[j],
            interp.same_state(&mid),
        decreases entries@.len() - i,
    {
        let ghost before = interp.heap@[result as int].props@;
        proof {
            assert(es.subrange(0, i + 1).drop_last() =~= es.subrange(0, i as int));
            assert(es.subrange(0, i + 1).last() == es[i as int]);
        }
        proof {
            if all_pairs {
                assert(string_entry(old(interp), a[i as int]) is Some);
                assert(es[i as int] == a[i as int]);
                assert(crate::builtins::helpers::array_value(old(interp), es[i as int]) is Some);
                assert(es[i as int] is Object);
                let pid = es[i as int]->Object_0;
                assert(pid < old(interp).heap@.len());
                assert(mid.heap@[pid as int] == old(interp).heap@[pid as int]);
                assert(interp.heap@[pid as int] == mid.heap@[pid as int]);
            }
        }
        if let Some(pair) = interp.array_elements(&entries[i]) {
            let key_v = arg_at(&pair, 0);
            let value = arg_at(&pair, 1);
            let key = prop_name(interp, &key_v);
            interp.put_own(result, key, value, true);
            proof {
                if all_pairs {
                    let (t, v) = string_entry(old(interp), es[i as int])->0;
                    assert(key@ == t);
                    assert(same_value(value, v));
                    assert forall|k: Seq<char>| #[trigger] same_option(
                        lookup_prop(interp.heap@[result as int].props@, k),
                        entries_value(old(interp), es.subrange(0, i + 1), k),
                    ) by {
                        if k != key@ {
                            assert(same_option(
                                lookup_prop(before, k),
                                entries_value(old(interp), es.subrange(0, i as int), k),
                            ));
                        }
                    }
                }
            }
        }
        i = i + 1;
    }
    proof {
        assert(es.subrange(0, es.len() as int) =~= es);
    }
    Ok(JsValue::Object(result))
}

/// `Object.hasOwn(o, key)`: `o` has an own property `key` (`false` for non-objects).
pub fn object_has_own(interp: &mut Interpreter, this: JsValue, args: Vec<JsValue>) -> (r: Result<
    JsValue,
    JsError,
>)
    ensures
        *final(interp) == *old(interp),
        r matches Ok(JsValue::Boolean(_)),
        !(arg_value(args@) is Object) ==> r == Ok::<JsValue, JsError>(JsValue::Boolean(false)),
        plain_object(old(interp), arg_value(args@)) matches Some(id) ==> (args@.len() > 1 ==> (args@[1] matches JsValue::String(t)
            ==> r == Ok::<JsValue, JsError>(JsValue::Boolean(lookup_prop(old(interp).heap@[id].props@, t@) is Some)))),
{
    let id = match arg_at(&args, 0) {
        JsValue::Object(id) => id,
        _ => {
            return Ok(JsValue::Boolean(false));
        },
    };
    if id >= interp.heap.len() {
        return Ok(JsValue::Boolean(false));
    }
    let key = arg_at(&args, 1);
    Ok(JsValue::Boolean(has_own_named(interp, id, &key)))
}

/// `o.hasOwnProperty(key)`: `this` has an own property `key` (`false` for non-objects).
pub fn object_has_own_property(interp: &mut Interpreter, this: JsValue, args: Vec<JsValue>) -> (r:
    Result<JsValue, JsError>)
    ensures
        *final(interp) == *old(interp),
        r matches Ok(JsValue::Boolean(_)),
        !(this is Object) ==> r == Ok::<JsValue, JsError>(JsValue::Boolean(false)),
        plain_object(old(interp), this) matches Some(id) ==> (args@.len() > 0 ==> (args@[0] matches JsValue::String(t)
            ==> r == Ok::<JsValue, JsError>(JsValue::Boolean(lookup_prop(old(interp).heap@[id].props@, t@) is Some)))),
{
    let id = match this {
        JsValue::Object(id) => id,
        _ => {
            return Ok(JsValue::Boolean(false));
        },
    };
    if id >= interp.heap.len() {
        return Ok(JsValue::Boolean(false));
    }
    let key = arg_at(&args, 0);
    Ok(JsValue::Boolean(has_own_named(interp, id, &key)))
}

/// The value, writability, enumerability and configurability a descriptor object gives
/// (flags default to `false`, the value to `undefined`).
fn descriptor_fields(interp: &Interpreter, d: usize) -> (r: (JsValue, bool, bool, bool))
    ensures
        d < interp.heap@.len() ==> (match lookup_prop(interp.heap@[d as int].props@, "value"@) {
            Some(v) => same_value(r.0, v),
            None => r.0 == JsValue::Undefined,
        }),
        d < interp.heap@.len() && lookup_prop(interp.heap@[d as int].props@, "writable"@) is None ==> !r.1,
        d < interp.heap@.len() && lookup_prop(interp.heap@[d as int].props@, "enumerable"@) is None ==> !r.2,
        d < interp.heap@.len() && lookup_prop(interp.heap@[d as int].props@, "configurable"@) is None ==> !r.3,
{
    let value = match interp.get_own(d, chars_of("value").as_slice()) {
        Some(v) => v,
        None => JsValue::Undefined,
    };
    let writable = match interp.get_own(d, chars_of("writable").as_slice()) {
        Some(v) => v.to_boolean(),
        None => false,
    };
    let enumerable = match interp.get_own(d, chars_of("enumerable").as_slice()) {
        Some(v) => v.to_boolean(),
        None => false,
    };
    let configurable = match interp.get_own(d, chars_of("configurable").as_slice()) {
        Some(v) => v.to_boolean(),
        None => false,
    };
    (value, writable, enumerable, configurable)
}

/// Defines on `target` a property for each own property of `props` whose value is a
/// descriptor object.
fn define_from(interp: &mut Interpreter, target: usize, props: usize)
    requires
        target < old(interp).heap@.len(),
    ensures
        final(interp).heap@.len() == old(interp).heap@.len(),
        forall|i: int| 0 <= i < old(interp).heap@.len() && i != target ==> final(interp).heap@[i] == old(interp).heap@[i],
        final(interp).heap@[target as int].kind == old(interp).heap@[target as int].kind,
        final(interp).heap@[target as int].proto == old(interp).heap@[target as int].proto,
        final(interp).same_state(old(interp)),
{
    if props >= interp.heap.len() {
        return;
    }
    let mut pairs: Vec<(Vec<char>, usize)> = Vec::new();
    let n = interp.heap[props].props.len();
    let mut i: usize = 0;
    while i < n
        invariant
            i <= n,
            props < interp.heap@.len(),
            n == interp.heap@[props as int].props@.len(),
        decreases n - i,
    {
        if let JsValue::Object(d) = interp.heap[props].props[i].value {
            pairs.push((copy_chars(&interp.heap[props].props[i].key), d));
        }
        i = i + 1;
    }
    let mut j: usize = 0;
    while j < pairs.len()
        invariant
            j <= pairs@.len(),
            target < interp.heap@.len(),
            interp.heap@.len() == old(interp).heap@.len(),
            forall|i: int| 0 <= i < old(interp).heap@.len() && i != target ==> interp.heap@[i] == old(interp).heap@[i],
            interp.heap@[target as int].kind == old(interp).heap@[target as int].kind,
            interp.heap@[target as int].proto == old(interp).heap@[target as int].proto,
            interp.same_state(old(interp)),
        decreases pairs@.len() - j,
    {
        let (value, w, e, c) = descriptor_fields(interp, pairs[j].1);
        let key = copy_chars(&pairs[j].0);
        define_own(interp, target, key, value, w, e, c);
        j = j + 1;
    }
}

/// `Object.create(proto, props)`: a new object with prototype `proto` (an object or
/// `null`, else `TypeError`) and the properties the descriptors in `props` give.
pub fn object_create(interp: &mut Interpreter, this: JsValue, args: Vec<JsValue>) -> (r: Result<
    JsValue,
    JsError,
>)
    ensures
        final(interp).grows(old(interp)),
        final(interp).same_state(old(interp)),
        !(arg_value(args@) is Object || arg_value(args@) is Null) ==> is_type_error(r),
        r matches Ok(v) ==> (v matches JsValue::Object(id) && id == old(interp).heap@.len()
            && final(interp).heap@[id as int].kind is Ordinary && final(interp).heap@[id as int].proto
            == (match arg_value(args@) {
            JsValue::Object(p) => Some(p),
            _ => None,
        })),
        ((arg_value(args@) is Object || arg_value(args@) is Null) && (args@.len() < 2 || args@[1] is Undefined))
            ==> (r is Ok && (r matches Ok(JsValue::Object(id)) && final(interp).heap@[id as int].props@.len() == 0)),
{
    let proto: Option<usize> = match arg_at(&args, 0) {
        JsValue::Object(p) => Some(p),
        JsValue::Null => None,
        _ => {
            return Err(type_error("Object prototype may only be an Object or null"));
        },
    };
    let props = arg_at(&args, 1);
    let props_id: Option<usize> = match props {
        JsValue::Undefined => None,
        JsValue::Object(p) => Some(p),
        _ => {
            return Err(type_error("Property descriptors must be an object"));
        },
    };
    let result = interp.allocate(new_object(ObjectKind::Ordinary, proto));
    if let Some(p) = props_id {
        define_from(interp, result, p);
    }
    Ok(JsValue::Object(result))
}

/// `Object.defineProperty(o, key, descriptor)`: defines one own property; `TypeError`
/// unless `o` and the descriptor are objects.
pub fn object_define_property(interp: &mut Interpreter, this: JsValue, args: Vec<JsValue>) -> (r:
    Result<JsValue, JsError>)
    ensures
        final(interp).heap@.len() == old(interp).heap@.len(),
        final(interp).same_state(old(interp)),
        r is Err <==> !(arg_value(args@) is Object && args@.len() > 2 && args@[2] is Object),
        r is Err ==> is_type_error(r),
        r is Ok ==> r == Ok::<JsValue, JsError>(args@[0]),
        r is Ok ==> (args@[0] matches JsValue::Object(id) ==> (args@[1] matches JsValue::String(key) ==> (
        args@[2] matches JsValue::Object(d) ==> ((id < old(interp).heap@.len() && d < old(interp).heap@.len()
            && d != id) ==> (lookup_prop(final(interp).heap@[id as int].props@, key@) matches Some(v)
            && (match lookup_prop(old(interp).heap@[d as int].props@, "value"@) {
                Some(w) => same_value(v, w),
                None => v == JsValue::Undefined,
            }) && (prop_entry(final(interp).heap@[id as int].props@, key@) matches Some(q)
            && (lookup_prop(old(interp).heap@[d as int].props@, "writable"@) is None ==> !q.writable)
            && (lookup_prop(old(interp).heap@[d as int].props@, "enumerable"@) is None ==> !q.enumerable)
            && (lookup_prop(old(interp).heap@[d as int].props@, "configurable"@) is None ==> !q.configurable))))))),
{
    let id = match arg_at(&args, 0) {
        JsValue::Object(id) => id,
        _ => {
            return Err(type_error("Object.defineProperty requires an object"));
        },
    };
    let d = match arg_at(&args, 2) {
        JsValue::Object(d) => d,
        _ => {
            return Err(type_error("Property descriptor must be an object"));
        },
    };
    if id < interp.heap.len() {
        let key_v = arg_at(&args, 1);
        let key = prop_name(interp, &key_v);
        let (value, w, e, c) = descriptor_fields(interp, d);
        define_own(interp, id, key, value, w, e, c);
    }
    Ok(JsValue::Object(id))
}

/// `Object.defineProperties(o, props)`: defines a property for each descriptor in `props`;
/// `TypeError` unless both are objects.
pub fn object_define_properties(interp: &mut Interpreter, this: JsValue, args: Vec<JsValue>) -> (r:
    Result<JsValue, JsError>)
    ensures
        final(interp).heap@.len() == old(interp).heap@.len(),
        final(interp).same_state(old(interp)),
        r is Err <==> !(arg_value(args@) is Object && args@.len() > 1 && args@[1] is Object),
        r is Err ==> is_type_error(r),
        r is Ok ==> r == Ok::<JsValue, JsError>(args@[0]),
{
    let id = match arg_at(&args, 0) {
        JsValue::Object(id) => id,
        _ => {
            return Err(type_error("Object.defineProperties requires an object"));
        },
    };
    let p = match arg_at(&args, 1) {
        JsValue::Object(p) => p,
        _ => {
            return Err(type_error("Property descriptors must be an object"));
        },
    };
    if id < interp.heap.len() {
        define_from(interp, id, p);
    }
    Ok(JsValue::Object(id))
}

/// The properties keep their keys and values.
pub open spec fn same_entries(a: Seq<Property>, b: Seq<Property>) -> bool {
    &&& a.len() == b.len()
    &&& forall|i: int| 0 <= i < a.len() ==> #[trigger] a[i].key == b[i].key && a[i].value == b[i].value
}

/// Clears the writability (when `writable_too`) and configurability of every own property
/// of `id` and makes it non-extensible.
fn lock_properties(interp: &mut Interpreter, id: usize, writable_too: bool)
    requires
        id < old(interp).heap@.len(),
    ensures
        final(interp).heap@.len() == old(interp).heap@.len(),
        forall|i: int| 0 <= i < old(interp).heap@.len() && i != id ==> final(interp).heap@[i] == old(interp).heap@[i],
        final(interp).same_state(old(interp)),
        final(interp).heap@[id as int].kind == old(interp).heap@[id as int].kind,
        final(interp).heap@[id as int].proto == old(interp).heap@[id as int].proto,
        final(interp).heap@[id as int].frozen == old(interp).heap@[id as int].frozen,
        final(interp).heap@[id as int].sealed == old(interp).heap@[id as int].sealed,
        !final(interp).heap@[id as int].extensible,
        same_entries(final(interp).heap@[id as int].props@, old(interp).heap@[id as int].props@),
        forall|i: int| 0 <= i < final(interp).heap@[id as int].props@.len() ==> !(#[trigger] final(interp).heap@[id as int].props@[i]).configurable
            && (writable_too ==> !final(interp).heap@[id as int].props@[i].writable),
{
    interp.heap[id].extensible = false;
    let n = interp.heap[id].props.len();
    let mut i: usize = 0;
    while i < n
        invariant
            i <= n,
            id < interp.heap@.len(),
            n == interp.heap@[id as int].props@.len(),
            interp.heap@.len() == old(interp).heap@.len(),
            forall|j: int| 0 <= j < old(interp).heap@.len() && j != id ==> interp.heap@[j] == old(interp).heap@[j],
            interp.same_state(old(interp)),
            interp.heap@[id as int].kind == old(interp).heap@[id as int].kind,
            interp.heap@[id as int].proto == old(interp).heap@[id as int].proto,
            interp.heap@[id as int].frozen == old(interp).heap@[id as int].frozen,
            interp.heap@[id as int].sealed == old(interp).heap@[id as int].sealed,
            !interp.heap@[id as int].extensible,
            same_entries(interp.heap@[id as int].props@, old(interp).heap@[id as int].props@),
            forall|j: int| 0 <= j < i ==> !(#[trigger] interp.heap@[id as int].props@[j]).configurable
                && (writable_too ==> !interp.heap@[id as int].props@[j].writable),
        decreases n - i,
    {
        interp.heap[id].props[i].configurable = false;
        if writable_too {
            interp.heap[id].props[i].writable = false;
        }
        i = i + 1;
    }
}

/// `Object.freeze(o)`: marks `o` frozen, non-extensible, with every property read-only and
/// non-configurable; returns `o` (other values unchanged).
pub fn object_freeze(interp: &mut Interpreter, this: JsValue, args: Vec<JsValue>) -> (r: Result<
    JsValue,
    JsError,
>)
    ensures
        final(interp).heap@.len() == old(interp).heap@.len(),
        final(interp).same_state(old(interp)),
        same_value(r->Ok_0, arg_value(args@)) && r is Ok,
        arg_value(args@) matches JsValue::Object(id) ==> (id < old(interp).heap@.len() ==> (
            final(interp).heap@[id as int].frozen && !final(interp).heap@[id as int].extensible
            && same_entries(final(interp).heap@[id as int].props@, old(interp).heap@[id as int].props@)
            && forall|i: int| 0 <= i < final(interp).heap@[id as int].props@.len() ==> !(#[trigger] final(interp).heap@[id as int].props@[i]).writable
                && !final(interp).heap@[id as int].props@[i].configurable)),
{
    let v = arg_at(&args, 0);
    if let JsValue::Object(id) = v {
        if id < interp.heap.len() {
            interp.heap[id].frozen = true;
            lock_properties(interp, id, true);
        }
    }
    Ok(v)
}

/// `Object.seal(o)`: marks `o` sealed, non-extensible, with every property
/// non-configurable; returns `o`.
pub fn object_seal(interp: &mut Interpreter, this: JsValue, args: Vec<JsValue>) -> (r: Result<
    JsValue,
    JsError,
>)
    ensures
        final(interp).heap@.len() == old(interp).heap@.len(),
        final(interp).same_state(old(interp)),
        same_value(r->Ok_0, arg_value(args@)) && r is Ok,
        arg_value(args@) matches JsValue::Object(id) ==> (id < old(interp).heap@.len() ==> (
            final(interp).heap@[id as int].sealed && !final(interp).heap@[id as int].extensible
            && same_entries(final(interp).heap@[id as int].props@, old(interp).heap@[id as int].props@)
            && forall|i: int| 0 <= i < final(interp).heap@[id as int].props@.len() ==> !(#[trigger] final(interp).heap@[id as int].props@[i]).configurable)),
{
    let v = arg_at(&args, 0);
    if let JsValue::Object(id) = v {
        if id < interp.heap.len() {
            interp.heap[id].sealed = true;
            lock_properties(interp, id, false);
        }
    }
    Ok(v)
}

/// `Object.preventExtensions(o)`: makes `o` non-extensible; returns `o`.
pub fn object_prevent_extensions(interp: &mut Interpreter, this: JsValue, args: Vec<JsValue>) -> (r:
    Result<JsValue, JsError>)
    ensures
        final(interp).heap@.len() == old(interp).heap@.len(),
        final(interp).same_state(old(interp)),
        same_value(r->Ok_0, arg_value(args@)) && r is Ok,
        arg_value(args@) matches JsValue::Object(id) ==> (id < old(interp).heap@.len() ==> (
            !final(interp).heap@[id as int].extensible && final(interp).heap@[id as int].props
            == old(interp).heap@[id as int].props)),
{
    let v = arg_at(&args, 0);
    if let JsValue::Object(id) = v {
        if id < interp.heap.len() {
            interp.heap[id].extensible = false;
        }
    }
    Ok(v)
}

/// The flag of object `v` that `pick` selects: 0 frozen, 1 sealed, 2 extensible.
pub open spec fn object_flag(interp: &Interpreter, v: JsValue, pick: int) -> Option<bool> {
    match v {
        JsValue::Object(id) => if id < interp.heap@.len() {
            Some(if pick == 0 {
                interp.heap@[id as int].frozen
            } else if pick == 1 {
                interp.heap@[id as int].sealed
            } else {
                interp.heap@[id as int].extensible
            })
        } else {
            None
        },
        _ => None,
    }
}

/// `Object.isFrozen(o)`: whether `Object.freeze` was applied; `true` for non-objects.
pub fn object_is_frozen(interp: &mut Interpreter, this: JsValue, args: Vec<JsValue>) -> (r: Result<
    JsValue,
    JsError,
>)
    ensures
        *final(interp) == *old(interp),
        r == Ok::<JsValue, JsError>(JsValue::Boolean(match object_flag(old(interp), arg_value(args@), 0) {
            Some(b) => b,
            None => !(arg_value(args@) is Object),
        })),
{
    match arg_at(&args, 0) {
        JsValue::Object(id) => Ok(JsValue::Boolean(id < interp.heap.len() && interp.heap[id].frozen)),
        _ => Ok(JsValue::Boolean(true)),
    }
}

/// `Object.isSealed(o)`: whether `Object.seal` was applied; `true` for non-objects.
pub fn object_is_sealed(interp: &mut Interpreter, this: JsValue, args: Vec<JsValue>) -> (r: Result<
    JsValue,
    JsError,
>)
    ensures
        *final(interp) == *old(interp),
        r == Ok::<JsValue, JsError>(JsValue::Boolean(match object_flag(old(interp), arg_value(args@), 1) {
            Some(b) => b,
            None => !(arg_value(args@) is Object),
        })),
{
    match arg_at(&args, 0) {
        JsValue::Object(id) => Ok(JsValue::Boolean(id < interp.heap.len() && interp.heap[id].sealed)),
        _ => Ok(JsValue::Boolean(true)),
    }
}

/// `Object.isExtensible(o)`: whether properties can be added; `false` for non-objects.
pub fn object_is_extensible(interp: &mut Interpreter, this: JsValue, args: Vec<JsValue>) -> (r: Result<
    JsValue,
    JsError,
>)
    ensures
        *final(interp) == *old(interp),
        r == Ok::<JsValue, JsError>(JsValue::Boolean(match object_flag(old(interp), arg_value(args@), 2) {
            Some(b) => b,
            None => false,
        })),
{
    match arg_at(&args, 0) {
        JsValue::Object(id) => Ok(JsValue::Boolean(id < interp.heap.len() && interp.heap[id].extensible)),
        _ => Ok(JsValue::Boolean(false)),
    }
}

/// `target` is on the prototype chain of `start` within `fuel` links.
pub open spec fn on_proto_chain(interp: &Interpreter, start: int, target: int, fuel: nat) -> bool
    decreases fuel,
{
    if fuel == 0 || start < 0 || start >= interp.heap@.len() {
        false
    } else {
        match interp.heap@[start].proto {
            Some(p) => p == target || on_proto_chain(interp, p as int, target, (fuel - 1) as nat),
            None => false,
        }
    }
}

/// `p.isPrototypeOf(o)`: `this` is on the prototype chain of `o` (at most as many links
/// as there are objects).
pub fn object_is_prototype_of(interp: &mut Interpreter, this: JsValue, args: Vec<JsValue>) -> (r: Result<
    JsValue,
    JsError,
>)
    ensures
        *final(interp) == *old(interp),
        r == Ok::<JsValue, JsError>(JsValue::Boolean(
            this matches JsValue::Object(p) && arg_value(args@) matches JsValue::Object(o) && on_proto_chain(
                old(interp),
                o as int,
                p as int,
                old(interp).heap@.len() as nat,
            ),
        )),
{
    let p = match this {
        JsValue::Object(p) => p,
        _ => {
            return Ok(JsValue::Boolean(false));
        },
    };
    let o = match arg_at(&args, 0) {
        JsValue::Object(o) => o,
        _ => {
            return Ok(JsValue::Boolean(false));
        },
    };
    let n = interp.heap.len();
    let mut cur = o;
    let mut fuel: usize = n;
    while fuel > 0
        invariant
            n == interp.heap@.len(),
            fuel <= n,
            *interp == *old(interp),
            this == JsValue::Object(p),
            arg_value(args@) == JsValue::Object(o),
            on_proto_chain(interp, o as int, p as int, n as nat) == on_proto_chain(interp, cur as int, p as int, fuel as nat),
        decreases fuel,
    {
        if cur >= interp.heap.len() {
            return Ok(JsValue::Boolean(false));
        }
        match interp.heap[cur].proto {
            Some(q) => {
                if q == p {
                    return Ok(JsValue::Boolean(true));
                }
                cur = q;
            },
            None => {
                return Ok(JsValue::Boolean(false));
            },
        }
        fuel = fuel - 1;
    }
    Ok(JsValue::Boolean(false))
}

/// The tag `Object.prototype.toString` shows for a value.
pub open spec fn to_string_tag(interp: &Interpreter, v: JsValue) -> Seq<char> {
    match v {
        JsValue::Undefined => "Undefined"@,
        JsValue::Null => "Null"@,
        JsValue::Boolean(_) => "Boolean"@,
        JsValue::Number(_) => "Number"@,
        JsValue::String(_) => "String"@,
        JsValue::Object(id) => if id < interp.heap@.len() {
            match interp.heap@[id as int].kind {
                ObjectKind::Array(_) => "Array"@,
                ObjectKind::Function(_) => "Function"@,
                ObjectKind::MapData(_) => "Map"@,
                ObjectKind::BooleanBox(_) => "Boolean"@,
                ObjectKind::NumberBox(_) => "Number"@,
                ObjectKind::StringBox(_) => "String"@,
                ObjectKind::DateValue(_) => "Date"@,
                ObjectKind::PromiseData(..) => "Promise"@,
                _ => "Object"@,
            }
        } else {
            "Object"@
        },
    }
}

/// `o.toString()`: `"[object Tag]"` with the tag of the value's kind.
pub fn object_to_string(interp: &mut Interpreter, this: JsValue, args: Vec<JsValue>) -> (r: Result<
    JsValue,
    JsError,
>)
    ensures
        *final(interp) == *old(interp),
        r matches Ok(JsValue::String(t)) && t@ == "[object "@ + to_string_tag(old(interp), this) + "]"@,
{
    let tag = match this {
        JsValue::Undefined => "Undefined",
        JsValue::Null => "Null",
        JsValue::Boolean(_) => "Boolean",
        JsValue::Number(_) => "Number",
        JsValue::String(_) => "String",
        JsValue::Object(id) => if id < interp.heap.len() {
            match &interp.heap[id].kind {
                ObjectKind::Array(_) => "Array",
                ObjectKind::Function(_) => "Function",
                ObjectKind::MapData(_) => "Map",
                ObjectKind::BooleanBox(_) => "Boolean",
                ObjectKind::NumberBox(_) => "Number",
                ObjectKind::StringBox(_) => "String",
                ObjectKind::DateValue(_) => "Date",
                ObjectKind::PromiseData(..) => "Promise",
                _ => "Object",
            }
        } else {
            "Object"
        },
    };
    let mut out = chars_of("[object ");
    let t = chars_of(tag);
    crate::number::append_chars(&mut out, t.as_slice());
    out.push(']');
    proof {
        reveal_strlit("[object ");
        reveal_strlit("]");
        reveal_strlit("Undefined");
        reveal_strlit("Null");
        reveal_strlit("Boolean");
        reveal_strlit("Number");
        reveal_strlit("String");
        reveal_strlit("Array");
        reveal_strlit("Function");
        reveal_strlit("Map");
        reveal_strlit("Object");
        reveal_strlit("Date");
        reveal_strlit("Promise");
        assert(out@ =~= "[object "@ + to_string_tag(old(interp), this) + "]"@);
    }
    Ok(JsValue::String(out))
}

/// `o.toLocaleString()`: the same text as `toString`.
pub fn object_to_locale_string(interp: &mut Interpreter, this: JsValue, args: Vec<JsValue>) -> (r:
    Result<JsValue, JsError>)
    ensures
        *final(interp) == *old(interp),
        r matches Ok(JsValue::String(t)) && t@ == "[object "@ + to_string_tag(old(interp), this) + "]"@,
{
    object_to_string(interp, this, args)
}

/// `o.valueOf()`: `this` itself.
pub fn object_value_of(interp: &mut Interpreter, this: JsValue, args: Vec<JsValue>) -> (r: Result<
    JsValue,
    JsError,
>)
    ensures
        *final(interp) == *old(interp),
        r == Ok::<JsValue, JsError>(this),
{
    Ok(this)
}

/// A descriptor object for property `i` of object `id`.
fn descriptor_of(interp: &mut Interpreter, id: usize, i: usize) -> (d: usize)
    requires
        id < old(interp).heap@.len(),
        i < old(interp).heap@[id as int].props@.len(),
    ensures
        d == old(interp).heap@.len(),
        final(interp).heap@.len() == old(interp).heap@.len() + 1,
        forall|j: int| 0 <= j < old(interp).heap@.len() ==> final(interp).heap@[j] == old(interp).heap@[j],
        final(interp).same_state(old(interp)),
        lookup_prop(final(interp).heap@[d as int].props@, "value"@) matches Some(v) && same_value(
            v,
            old(interp).heap@[id as int].props@[i as int].value,
        ),
{
    let value = interp.heap[id].props[i].value.copy();
    let w = interp.heap[id].props[i].writable;
    let e = interp.heap[id].props[i].enumerable;
    let c = interp.heap[id].props[i].configurable;
    let d = interp.create_object();
    interp.put_own(d, chars_of("value"), value, true);
    interp.put_own(d, chars_of("writable"), JsValue::Boolean(w), true);
    interp.put_own(d, chars_of("enumerable"), JsValue::Boolean(e), true);
    interp.put_own(d, chars_of("configurable"), JsValue::Boolean(c), true);
    proof {
        reveal_strlit("value");
        reveal_strlit("writable");
        reveal_strlit("enumerable");
        reveal_strlit("configurable");
        assert("writable"@[0] != "value"@[0]);
        assert("enumerable"@[0] != "value"@[0]);
        assert("configurable"@[0] != "value"@[0]);
    }
    d
}

/// `Object.getOwnPropertyDescriptor(o, key)`: `{value, writable, enumerable,
/// configurable}` of an own property, `undefined` without one; `TypeError` for `null` and
/// `undefined`.
pub fn object_get_own_property_descriptor(interp: &mut Interpreter, this: JsValue, args: Vec<JsValue>)
    -> (r: Result<JsValue, JsError>)
    ensures
        final(interp).grows(old(interp)),
        final(interp).same_state(old(interp)),
        r is Err <==> (arg_value(args@) is Undefined || arg_value(args@) is Null),
        r is Err ==> is_type_error(r),
        plain_object(old(interp), arg_value(args@)) matches Some(id) ==> (args@.len() > 1 ==> (args@[1] matches JsValue::String(t)
            ==> (lookup_prop(old(interp).heap@[id].props@, t@) matches Some(v) ==> (r matches Ok(JsValue::Object(d))
            && lookup_prop(final(interp).heap@[d as int].props@, "value"@) matches Some(w) && same_value(w, v))))),
        plain_object(old(interp), arg_value(args@)) matches Some(id) ==> (args@.len() > 1 ==> (args@[1] matches JsValue::String(t)
            ==> (lookup_prop(old(interp).heap@[id].props@, t@) is None ==> r == Ok::<JsValue, JsError>(JsValue::Undefined)))),
{
    let id = match arg_at(&args, 0) {
        JsValue::Undefined | JsValue::Null => {
            return Err(type_error("Cannot convert undefined or null to object"));
        },
        JsValue::Object(id) => id,
        _ => {
            return Ok(JsValue::Undefined);
        },
    };
    if id >= interp.heap.len() {
        return Ok(JsValue::Undefined);
    }
    let key_v = arg_at(&args, 1);
    let key = prop_name(interp, &key_v);
    match find_prop(&interp.heap[id].props, key.as_slice()) {
        Some(i) => Ok(JsValue::Object(descriptor_of(interp, id, i))),
        None => Ok(JsValue::Undefined),
    }
}

/// `Object.getOwnPropertyDescriptors(o)`: an object mapping each own property to its
/// descriptor; `TypeError` for `null` and `undefined`.
pub fn object_get_own_property_descriptors(interp: &mut Interpreter, this: JsValue, args: Vec<JsValue>)
    -> (r: Result<JsValue, JsError>)
    ensures
        final(interp).grows(old(interp)),
        final(interp).same_state(old(interp)),
        r is Err <==> (arg_value(args@) is Undefined || arg_value(args@) is Null),
        r is Err ==> is_type_error(r),
        r matches Ok(v) ==> v is Object,
{
    let id = match arg_at(&args, 0) {
        JsValue::Undefined | JsValue::Null => {
            return Err(type_error("Cannot convert undefined or null to object"));
        },
        JsValue::Object(id) => id,
        _ => {
            return Ok(JsValue::Object(interp.create_object()));
        },
    };
    let result = interp.create_object();
    if id >= result {
        return Ok(JsValue::Object(result));
    }
    let n = interp.heap[id].props.len();
    let ghost start = *interp;
    let mut i: usize = 0;
    while i < n
        invariant
            i <= n,
            id < result < interp.heap@.len(),
            n == interp.heap@[id as int].props@.len(),
            interp.heap@[id as int] == start.heap@[id as int],
            start.heap@.len() <= interp.heap@.len(),
            interp.grows(&start),
            interp.same_state(&start),
        decreases n - i,
    {
        let key = copy_chars(&interp.heap[id].props[i].key);
        let d = descriptor_of(interp, id, i);
        interp.put_own(result, key, JsValue::Object(d), true);
        i = i + 1;
    }
    Ok(JsValue::Object(result))
}

/// The keys of all own properties as string values.
fn all_key_values(props: &Vec<Property>) -> (r: Vec<JsValue>)
    ensures
        holds_texts(r@, all_keys(props@)),
{
    let mut out: Vec<JsValue> = Vec::new();
    let mut i: usize = 0;
    while i < props.len()
        invariant
            i <= props@.len(),
            out@.len() == i,
            forall|j: int| 0 <= j < i ==> (#[trigger] out@[j] matches JsValue::String(t) && t@ == props@[j].key@),
        decreases props@.len() - i,
    {
        out.push(JsValue::String(copy_chars(&props[i].key)));
        i = i + 1;
    }
    out
}

/// `Object.getOwnPropertyNames(o)`: the keys of all own properties, enumerable or not;
/// `TypeError` for `null` and `undefined`.
pub fn object_get_own_property_names(interp: &mut Interpreter, this: JsValue, args: Vec<JsValue>) -> (r:
    Result<JsValue, JsError>)
    ensures
        final(interp).grows(old(interp)),
        final(interp).same_state(old(interp)),
        r is Err <==> (arg_value(args@) is Undefined || arg_value(args@) is Null),
        r is Err ==> is_type_error(r),
        arg_value(args@) matches JsValue::Object(id) ==> (id < old(interp).heap@.len() ==> (r matches Ok(JsValue::Object(a))
            && final(interp).array_at(a) matches Some(elems) && holds_texts(elems, all_keys(old(interp).heap@[id as int].props@)))),
{
    let names = match arg_at(&args, 0) {
        JsValue::Undefined | JsValue::Null => {
            return Err(type_error("Cannot convert undefined or null to object"));
        },
        JsValue::Object(id) => if id < interp.heap.len() {
            all_key_values(&interp.heap[id].props)
        } else {
            Vec::new()
        },
        _ => Vec::new(),
    };
    Ok(JsValue::Object(interp.create_array(names)))
}

/// `Object.getOwnPropertySymbols(o)`: always empty, as there are no symbol keys;
/// `TypeError` for `null` and `undefined`.
pub fn object_get_own_property_symbols(interp: &mut Interpreter, this: JsValue, args: Vec<JsValue>)
    -> (r: Result<JsValue, JsError>)
    ensures
        final(interp).grows(old(interp)),
        final(interp).same_state(old(interp)),
        r is Err <==> (arg_value(args@) is Undefined || arg_value(args@) is Null),
        r is Err ==> is_type_error(r),
        r matches Ok(JsValue::Object(a)) ==> final(interp).array_at(a) == Some(Seq::<JsValue>::empty()),
{
    match arg_at(&args, 0) {
        JsValue::Undefined | JsValue::Null => {
            return Err(type_error("Cannot convert undefined or null to object"));
        },
        _ => {},
    }
    Ok(JsValue::Object(interp.create_array(Vec::new())))
}

/// `Object.getPrototypeOf(o)`: the prototype of `o` or `null`; `TypeError` for
/// non-objects.
pub fn object_get_prototype_of(interp: &mut Interpreter, this: JsValue, args: Vec<JsValue>) -> (r: Result<
    JsValue,
    JsError,
>)
    ensures
        *final(interp) == *old(interp),
        r is Err <==> !(arg_value(args@) is Object),
        r is Err ==> is_type_error(r),
        arg_value(args@) matches JsValue::Object(id) ==> (id < old(interp).heap@.len() ==> r == Ok::<JsValue, JsError>(
            match old(interp).heap@[id as int].proto {
                Some(p) => JsValue::Object(p),
                None => JsValue::Null,
            },
        )),
{
    let id = match arg_at(&args, 0) {
        JsValue::Object(id) => id,
        _ => {
            return Err(type_error("Object.getPrototypeOf requires an object"));
        },
    };
    if id >= interp.heap.len() {
        return Ok(JsValue::Null);
    }
    match interp.heap[id].proto {
        Some(p) => Ok(JsValue::Object(p)),
        None => Ok(JsValue::Null),
    }
}

/// `Object.setPrototypeOf(o, proto)`: sets the prototype of `o` to an object or `null`;
/// `TypeError` for a non-object `o` or another `proto`.
pub fn object_set_prototype_of(interp: &mut Interpreter, this: JsValue, args: Vec<JsValue>) -> (r: Result<
    JsValue,
    JsError,
>)
    ensures
        final(interp).heap@.len() == old(interp).heap@.len(),
        final(interp).same_state(old(interp)),
        r is Err <==> !(arg_value(args@) is Object && args@.len() > 1 && (args@[1] is Object || args@[1] is Null)),
        r is Err ==> is_type_error(r),
        r is Ok ==> r == Ok::<JsValue, JsError>(args@[0]),
        r is Ok ==> (args@[0] matches JsValue::Object(id) ==> (id < old(interp).heap@.len() ==> (
            final(interp).heap@[id as int].proto == (match args@[1] {
                JsValue::Object(p) => Some(p),
                _ => None,
            }) && final(interp).unchanged_but(old(interp), id as int)))),
{
    let id = match arg_at(&args, 0) {
        JsValue::Object(id) => id,
        _ => {
            return Err(type_error("Object.setPrototypeOf requires an object"));
        },
    };
    let proto: Option<usize> = match arg_at(&args, 1) {
        JsValue::Object(p) => Some(p),
        JsValue::Null => None,
        _ => {
            return Err(type_error("Object prototype may only be an Object or null"));
        },
    };
    if id < interp.heap.len() {
        interp.heap[id].proto = proto;
    }
    Ok(JsValue::Object(id))
}

/// SameValue: `===` except that NaN equals NaN and the two zeros differ.
pub open spec fn same_value_spec(a: JsValue, b: JsValue) -> bool {
    match (a, b) {
        (JsValue::Number(x), JsValue::Number(y)) => (x is NaN && y is NaN) || x == y,
        _ => crate::value::strict_eq(a, b),
    }
}

/// `Object.is(a, b)`: SameValue.
pub fn object_is(interp: &mut Interpreter, this: JsValue, args: Vec<JsValue>) -> (r: Result<
    JsValue,
    JsError,
>)
    ensures
        *final(interp) == *old(interp),
        r == Ok::<JsValue, JsError>(JsValue::Boolean(same_value_spec(
            arg_value(args@),
            if args@.len() > 1 { args@[1] } else { JsValue::Undefined },
        ))),
{
    let a = arg_at(&args, 0);
    let b = arg_at(&args, 1);
    match (&a, &b) {
        (JsValue::Number(x), JsValue::Number(y)) => Ok(JsValue::Boolean((x.is_nan() && y.is_nan()) || *x == *y)),
        _ => Ok(JsValue::Boolean(crate::value::strict_equals(&a, &b))),
    }
}

/// Installs the methods of `Object.prototype`.
pub fn init_object_prototype(interp: &mut Interpreter)
    ensures
        final(interp).grows(old(interp)),
        final(interp).same_state(old(interp)),
        final(interp).heap@.len() == old(interp).heap@.len() + 5,
        forall|i: int| 0 <= i < old(interp).heap@.len() && i != old(interp).object_prototype ==> #[trigger] final(interp).heap@[i] == old(interp).heap@[i],
        old(interp).object_prototype < old(interp).heap@.len() ==> methods_added(
            old(interp).heap@[old(interp).object_prototype as int],
            final(interp).heap@[old(interp).object_prototype as int],
            object_method_names(),
            old(interp).heap@.len() as int,
        ),
{
    let p = interp.object_prototype;
    let ghost h0 = interp.heap@.len() as int;
    let ghost o0 = interp.heap@[p as int];
    interp.register_method(p, "hasOwnProperty", NativeId::ObjectHasOwnProperty, 1);
    let ghost o1 = interp.heap@[p as int];
    interp.register_method(p, "isPrototypeOf", NativeId::ObjectIsPrototypeOf, 1);
    let ghost o2 = interp.heap@[p as int];
    interp.register_method(p, "toString", NativeId::ObjectToString, 0);
    let ghost o3 = interp.heap@[p as int];
    interp.register_method(p, "toLocaleString", NativeId::ObjectToLocaleString, 0);
    let ghost o4 = interp.heap@[p as int];
    interp.register_method(p, "valueOf", NativeId::ObjectValueOf, 0);
    let ghost o5 = interp.heap@[p as int];
    proof {
        if p < h0 {
            reveal_strlit("hasOwnProperty");
            reveal_strlit("isPrototypeOf");
            reveal_strlit("toString");
            reveal_strlit("toLocaleString");
            reveal_strlit("valueOf");
            let q1 = seq!["hasOwnProperty"@];
            lemma_texts_differ("hasOwnProperty"@, "isPrototypeOf"@, 0);
            lemma_methods_added_push(o0, o1, o2, q1, "isPrototypeOf"@, h0);
            let q2 = q1.push("isPrototypeOf"@);
            lemma_texts_differ("hasOwnProperty"@, "toString"@, 0);
            lemma_texts_differ("isPrototypeOf"@, "toString"@, 0);
            lemma_methods_added_push(o0, o2, o3, q2, "toString"@, h0);
            let q3 = q2.push("toString"@);
            lemma_texts_differ("hasOwnProperty"@, "toLocaleString"@, 0);
            lemma_texts_differ("isPrototypeOf"@, "toLocaleString"@, 0);
            lemma_texts_differ("toString"@, "toLocaleString"@, 0);
            lemma_methods_added_push(o0, o3, o4, q3, "toLocaleString"@, h0);
            let q4 = q3.push("toLocaleString"@);
            lemma_texts_differ("hasOwnProperty"@, "valueOf"@, 0);
            lemma_texts_differ("isPrototypeOf"@, "valueOf"@, 0);
            lemma_texts_differ("toString"@, "valueOf"@, 0);
            lemma_texts_differ("toLocaleString"@, "valueOf"@, 0);
            lemma_methods_added_push(o0, o4, o5, q4, "valueOf"@, h0);
            let q5 = q4.push("valueOf"@);
            assert(q5 =~= object_method_names());
        }
    }
}

/// The methods that `init_object_prototype` installs on `Object.prototype`, in order.
pub open spec fn object_method_names() -> Seq<Seq<char>> {
    seq![
        "hasOwnProperty"@,
        "isPrototypeOf"@,
        "toString"@,
        "toLocaleString"@,
        "valueOf"@,
    ]
}


/// The `Object` function with its static functions, linked with `Object.prototype`.
pub fn create_object_constructor(interp: &mut Interpreter) -> (f: usize)
    ensures
        final(interp).scopes@ == old(interp).scopes@,
        f < final(interp).heap@.len(),
        final(interp).grows(old(interp)),
        final(interp).same_registers(old(interp)),
{
    let f = interp.create_native(NativeId::ObjectCtor, "Object", 1);
    interp.register_method(f, "keys", NativeId::ObjectKeys, 1);
    interp.register_method(f, "values", NativeId::ObjectValues, 1);
    interp.register_method(f, "entries", NativeId::ObjectEntries, 1);
    interp.register_method(f, "assign", NativeId::ObjectAssign, 2);
    interp.register_method(f, "fromEntries", NativeId::ObjectFromEntries, 1);
    interp.register_method(f, "create", NativeId::ObjectCreate, 1);
    interp.register_method(f, "hasOwn", NativeId::ObjectHasOwn, 2);
    interp.register_method(f, "freeze", NativeId::ObjectFreeze, 1);
    interp.register_method(f, "isFrozen", NativeId::ObjectIsFrozen, 1);
    interp.register_method(f, "seal", NativeId::ObjectSeal, 1);
    interp.register_method(f, "isSealed", NativeId::ObjectIsSealed, 1);
    interp.register_method(f, "preventExtensions", NativeId::ObjectPreventExtensions, 1);
    interp.register_method(f, "isExtensible", NativeId::ObjectIsExtensible, 1);
    interp.register_method(f, "is", NativeId::ObjectIs, 2);
    interp.register_method(f, "getOwnPropertyDescriptor", NativeId::ObjectGetOwnPropertyDescriptor, 2);
    interp.register_method(f, "getOwnPropertyNames", NativeId::ObjectGetOwnPropertyNames, 1);
    interp.register_method(f, "getOwnPropertySymbols", NativeId::ObjectGetOwnPropertySymbols, 1);
    interp.register_method(f, "getOwnPropertyDescriptors", NativeId::ObjectGetOwnPropertyDescriptors, 1);
    interp.register_method(f, "defineProperty", NativeId::ObjectDefineProperty, 3);
    interp.register_method(f, "defineProperties", NativeId::ObjectDefineProperties, 2);
    interp.register_method(f, "getPrototypeOf", NativeId::ObjectGetPrototypeOf, 1);
    interp.register_method(f, "setPrototypeOf", NativeId::ObjectSetPrototypeOf, 2);
    let p = interp.object_prototype;
    interp.put_own(f, chars_of("prototype"), JsValue::Object(p), false);
    interp.put_own(p, chars_of("constructor"), JsValue::Object(f), false);
    f
}

} // verus!
