//! `JSON`: documents are read and written by serde_json; the library turns them into
//! runtime values and back.
use crate::builtins::helpers::{is_type_error, plain_text};
use crate::builtins::string::repeated;
use crate::builtins::maps::nth_arg;
use crate::builtins::global::primitives_only;
use crate::interpreter::{arg_at, global_set, lookup_prop, new_object, type_error, Interpreter};
use crate::number::{
    append_chars, chars_of, digits_value, int_to_dec, is_digit_text, spec_int, string_to_number, u64_to_dec, JsNumber,
};
use crate::value::{
    copy_chars, same_value, ErrorKind, JsError, JsObject, JsValue, NativeId, ObjectKind, Property,
};
use vstd::prelude::*;

verus! {

/// A JSON document as plain values.
pub enum JsonValue {
    Null,
    Bool(bool),
    /// A number, in the text that serde_json writes for it.
    Number(Vec<char>),
    String(Vec<char>),
    Array(Vec<JsonValue>),
    /// The members, in the order serde_json keeps them.
    Object(Vec<(Vec<char>, JsonValue)>),
}

#[verifier::external_type_specification]
#[verifier::external_body]
pub struct ExSerdeJsonValue(serde_json::Value);

/// The document that serde_json reads from `text`; `None` where it refuses the text.
pub uninterp spec fn json_reading(text: Seq<char>) -> Option<JsonValue>;

/// The compact text that serde_json writes for `v`.
pub uninterp spec fn json_text(v: JsonValue) -> Seq<char>;

/// The text that serde_json's pretty printer writes for `v` (two spaces per level).
pub uninterp spec fn json_pretty_text(v: JsonValue) -> Seq<char>;

/// A serde_json value as plain values (arrays and members one for one, numbers as the
/// text serde_json writes for them).
#[verifier::external_body]
fn from_serde(v: &serde_json::Value) -> JsonValue {
    match v {
        serde_json::Value::Null => JsonValue::Null,
        serde_json::Value::Bool(b) => JsonValue::Bool(*b),
        serde_json::Value::Number(n) => JsonValue::Number(n.to_string().chars().collect()),
        serde_json::Value::String(s) => JsonValue::String(s.chars().collect()),
        serde_json::Value::Array(a) => JsonValue::Array(a.iter().map(from_serde).collect()),
        serde_json::Value::Object(m) => JsonValue::Object(
            m.iter().map(|(k, x)| (k.chars().collect(), from_serde(x))).collect(),
        ),
    }
}

/// Plain values as a serde_json value (a number's text read by serde_json, members
/// inserted in order).
#[verifier::external_body]
fn to_serde(v: &JsonValue) -> serde_json::Value {
    match v {
        JsonValue::Null => serde_json::Value::Null,
        JsonValue::Bool(b) => serde_json::Value::Bool(*b),
        JsonValue::Number(t) => serde_json::from_str(&t.iter().collect::<String>()).unwrap_or(
            serde_json::Value::Null,
        ),
        JsonValue::String(s) => serde_json::Value::String(s.iter().collect()),
        JsonValue::Array(a) => serde_json::Value::Array(a.iter().map(to_serde).collect()),
        JsonValue::Object(m) => serde_json::Value::Object(
            m.iter().map(|(k, x)| (k.iter().collect(), to_serde(x))).collect(),
        ),
    }
}

/// `serde_json::from_str`: the document in `text`, or serde_json's message when it
/// refuses the text. Claimed: success exactly where `json_reading` has a document, and
/// then that document.
#[verifier::external_body]
fn read_json(text: &Vec<char>) -> (r: Result<JsonValue, Vec<char>>)
    ensures
        r is Ok <==> json_reading(text@) is Some,
        r matches Ok(v) ==> json_reading(text@) == Some(v),
{
    match serde_json::from_str::<serde_json::Value>(&text.iter().collect::<String>()) {
        Ok(v) => Ok(from_serde(&v)),
        Err(e) => Err(e.to_string().chars().collect()),
    }
}

/// `serde_json::to_string`: the compact text of `v`. Claimed: it is `json_text(v)`.
#[verifier::external_body]
fn write_json(v: &JsonValue) -> (r: Vec<char>)
    ensures
        r@ == json_text(*v),
{
    serde_json::to_string(&to_serde(v)).unwrap_or_default().chars().collect()
}

/// `serde_json::to_string_pretty`: the indented text of `v`. Claimed: it is
/// `json_pretty_text(v)`.
#[verifier::external_body]
fn write_json_pretty(v: &JsonValue) -> (r: Vec<char>)
    ensures
        r@ == json_pretty_text(*v),
{
    serde_json::to_string_pretty(&to_serde(v)).unwrap_or_default().chars().collect()
}


/// No member after `k` (and before `upto`) has member `k`'s key.
pub open spec fn key_not_repeated(members: Seq<(Vec<char>, JsonValue)>, k: int, upto: int) -> bool {
    forall|j: int| k < j < upto ==> (#[trigger] members[j]).0@ != members[k].0@
}

/// `js` is the runtime value that `jv` reads as: primitives one for one (a number as its
/// text converts to a number), arrays as arrays of the elements, objects as ordinary
/// objects whose own properties are the members (the last of equal keys wins).
pub open spec fn reads_as(interp: &Interpreter, js: JsValue, jv: JsonValue) -> bool
    decreases jv,
{
    match jv {
        JsonValue::Null => js == JsValue::Null,
        JsonValue::Bool(b) => js == JsValue::Boolean(b),
        JsonValue::Number(t) => js matches JsValue::Number(n) && n.wf() && (is_digit_text(t@) ==> n == spec_int(
            digits_value(t@) as int,
        )),
        JsonValue::String(s) => js matches JsValue::String(u) && u@ == s@,
        JsonValue::Array(items) => js matches JsValue::Object(id) && interp.array_at(id) matches Some(es)
            && es.len() == items@.len() && forall|i: int|
            0 <= i < es.len() ==> reads_as(interp, #[trigger] es[i], items@[i]),
        JsonValue::Object(members) => js matches JsValue::Object(id) && id < interp.heap@.len()
            && interp.heap@[id as int].kind == ObjectKind::Ordinary && forall|i: int|
            0 <= i < members@.len() && key_not_repeated(members@, i, members@.len() as int) ==> (lookup_prop(
                interp.heap@[id as int].props@,
                (#[trigger] members@[i]).0@,
            ) matches Some(w) && reads_as(interp, w, members@[i].1)),
    }
}

/// What a value reads as stays so while the heap only grows.
pub proof fn lemma_reads_as_grow(a: &Interpreter, b: &Interpreter, js: JsValue, jv: JsonValue)
    requires
        reads_as(a, js, jv),
        a.heap@.len() <= b.heap@.len(),
        forall|i: int| 0 <= i < a.heap@.len() ==> #[trigger] b.heap@[i] == a.heap@[i],
    ensures
        reads_as(b, js, jv),
    decreases jv,
{
    match jv {
        JsonValue::Array(items) => {
            if let JsValue::Object(id) = js {
                let es = a.array_at(id)->0;
                assert(b.heap@[id as int] == a.heap@[id as int]);
                assert forall|i: int| 0 <= i < es.len() implies reads_as(b, #[trigger] es[i], items@[i]) by {
                    lemma_reads_as_grow(a, b, es[i], items@[i]);
                }
            }
        },
        JsonValue::Object(members) => {
            if let JsValue::Object(id) = js {
                assert(b.heap@[id as int] == a.heap@[id as int]);
                assert forall|i: int|
                    0 <= i < members@.len() && key_not_repeated(members@, i, members@.len() as int) implies (
                    lookup_prop(b.heap@[id as int].props@, (#[trigger] members@[i]).0@) matches Some(w)
                        && reads_as(b, w, members@[i].1)) by {
                    let w = lookup_prop(a.heap@[id as int].props@, members@[i].0@)->0;
                    lemma_reads_as_grow(a, b, w, members@[i].1);
                }
            }
        },
        _ => {},
    }
}

/// A copy of a value reads as the same document.
pub proof fn lemma_reads_as_same(interp: &Interpreter, a: JsValue, b: JsValue, jv: JsonValue)
    requires
        same_value(a, b),
        reads_as(interp, b, jv),
    ensures
        reads_as(interp, a, jv),
{
}

/// The runtime value of a JSON document: arrays and ordinary objects built on the heap.
pub fn json_to_js_value_with_interp(interp: &mut Interpreter, jv: &JsonValue) -> (r: Result<JsValue, crate::value::JsError>)
    ensures
        final(interp).heap@.len() >= old(interp).heap@.len(),
        forall|i: int| 0 <= i < old(interp).heap@.len() ==> #[trigger] final(interp).heap@[i] == old(interp).heap@[i],
        final(interp).same_state(old(interp)),
        r matches Ok(v) && reads_as(final(interp), v, *jv),
    decreases jv,
{
    match jv {
        JsonValue::Null => Ok(JsValue::Null),
        JsonValue::Bool(b) => Ok(JsValue::Boolean(*b)),
        JsonValue::Number(t) => Ok(JsValue::Number(string_to_number(t.as_slice()))),
        JsonValue::String(s) => Ok(JsValue::String(crate::value::copy_chars(s))),
        JsonValue::Array(items) => {
            let mut elems: Vec<JsValue> = Vec::new();
            let mut i: usize = 0;
            while i < items.len()
                invariant
                    *jv == JsonValue::Array(*items),
                    i <= items@.len(),
                    elems@.len() == i,
                    interp.heap@.len() >= old(interp).heap@.len(),
                    forall|k: int| 0 <= k < old(interp).heap@.len() ==> #[trigger] interp.heap@[k] == old(interp).heap@[k],
                    interp.same_state(old(interp)),
                    forall|k: int| 0 <= k < i ==> reads_as(interp, #[trigger] elems@[k], items@[k]),
                decreases items@.len() - i,
            {
                let ghost before = *interp;
                proof {
                    assert(decreases_to!(*jv => (*jv)->Array_0));
                    assert(decreases_to!(*items => items@));
                    assert(decreases_to!(items@ => items@[i as int]));
                }
                let v = json_to_js_value_with_interp(interp, &items[i])?;
                proof {
                    assert forall|k: int| 0 <= k < i implies reads_as(interp, #[trigger] elems@[k], items@[k]) by {
                        lemma_reads_as_grow(&before, interp, elems@[k], items@[k]);
                    }
                }
                elems.push(v);
                i = i + 1;
            }
            let ghost before = *interp;
            let ghost es = elems@;
            let id = interp.create_array(elems);
            proof {
                assert forall|k: int| 0 <= k < es.len() implies reads_as(interp, #[trigger] es[k], items@[k]) by {
                    lemma_reads_as_grow(&before, interp, es[k], items@[k]);
                }
            }
            Ok(JsValue::Object(id))
        },
        JsonValue::Object(members) => {
            let mut vals: Vec<JsValue> = Vec::new();
            let mut i: usize = 0;
            while i < members.len()
                invariant
                    *jv == JsonValue::Object(*members),
                    i <= members@.len(),
                    vals@.len() == i,
                    interp.heap@.len() >= old(interp).heap@.len(),
                    forall|k: int| 0 <= k < old(interp).heap@.len() ==> #[trigger] interp.heap@[k] == old(interp).heap@[k],
                    interp.same_state(old(interp)),
                    forall|k: int| 0 <= k < i ==> reads_as(interp, #[trigger] vals@[k], members@[k].1),
                decreases members@.len() - i,
            {
                let ghost before = *interp;
                proof {
                    assert(decreases_to!(*jv => (*jv)->Object_0));
                    assert(decreases_to!(*members => members@));
                    assert(decreases_to!(members@ => members@[i as int]));
                    assert(decreases_to!(members@[i as int] => members@[i as int].1));
                }
                let v = json_to_js_value_with_interp(interp, &members[i].1)?;
                proof {
                    assert forall|k: int| 0 <= k < i implies reads_as(interp, #[trigger] vals@[k], members@[k].1) by {
                        lemma_reads_as_grow(&before, interp, vals@[k], members@[k].1);
                    }
                }
                vals.push(v);
                i = i + 1;
            }
            let ghost base = *interp;
            let o = interp.create_object();
            let mut i: usize = 0;
            while i < members.len()
                invariant
                    i <= members@.len(),
                    vals@.len() == members@.len(),
                    o == base.heap@.len(),
                    interp.heap@.len() == base.heap@.len() + 1,
                    forall|k: int| 0 <= k < base.heap@.len() ==> #[trigger] interp.heap@[k] == base.heap@[k],
                    base.heap@.len() >= old(interp).heap@.len(),
                    forall|k: int| 0 <= k < old(interp).heap@.len() ==> #[trigger] base.heap@[k] == old(interp).heap@[k],
                    interp.same_state(old(interp)),
                    interp.heap@[o as int].kind == ObjectKind::Ordinary,
                    forall|k: int| 0 <= k < members@.len() ==> reads_as(&base, #[trigger] vals@[k], members@[k].1),
                    forall|k: int|
                        0 <= k < i && key_not_repeated(members@, k, i as int) ==> (lookup_prop(
                            interp.heap@[o as int].props@,
                            (#[trigger] members@[k]).0@,
                        ) matches Some(w) && same_value(w, vals@[k])),
                decreases members@.len() - i,
            {
                let key = crate::value::copy_chars(&members[i].0);
                interp.put_own(o, key, vals[i].copy(), true);
                i = i + 1;
            }
            proof {
                assert forall|k: int|
                    0 <= k < members@.len() && key_not_repeated(members@, k, members@.len() as int) implies (lookup_prop(
                    interp.heap@[o as int].props@,
                    (#[trigger] members@[k]).0@,
                ) matches Some(w) && reads_as(interp, w, members@[k].1)) by {
                    lemma_reads_as_grow(&base, interp, vals@[k], members@[k].1);
                    let w = lookup_prop(interp.heap@[o as int].props@, members@[k].0@)->0;
                    lemma_reads_as_same(interp, w, vals@[k], members@[k].1);
                }
            }
            Ok(JsValue::Object(o))
        },
    }
}


/// The ISO text that chrono writes for the time `ms` milliseconds after the epoch
/// (`%Y-%m-%dT%H:%M:%S%.3fZ`; the epoch itself where chrono has no such time).
pub uninterp spec fn chrono_iso_text(ms: i64) -> Seq<char>;

/// `chrono::DateTime::from_timestamp_millis` and `format`: the ISO text of a time.
/// Claimed: it is `chrono_iso_text(ms)`.
#[verifier::external_body]
fn chrono_iso(ms: i64) -> (r: Vec<char>)
    ensures
        r@ == chrono_iso_text(ms),
{
    chrono::DateTime::from_timestamp_millis(ms).unwrap_or(chrono::DateTime::UNIX_EPOCH).format(
        "%Y-%m-%dT%H:%M:%S%.3fZ",
    ).to_string().chars().collect()
}

/// The text of a finite number as a JSON number: integers below 10^17 in decimal digits,
/// other numbers in the runtime's own notation.
fn number_text(n: &JsNumber) -> (r: Vec<char>)
    requires
        n.wf(),
        *n is Finite,
    ensures
        n.is_small_int() ==> r@ == int_to_dec(n.int_value()),
{
    match *n {
        JsNumber::Finite { neg, mant, exp } => if exp > 0 {
            let mut t: Vec<char> = Vec::new();
            if neg {
                t.push('-');
            }
            append_chars(&mut t, u64_to_dec(mant).as_slice());
            t.push('e');
            append_chars(&mut t, u64_to_dec(exp as u64).as_slice());
            t
        } else {
            n.to_js_string()
        },
        _ => n.to_js_string(),
    }
}

/// The document for a value that is not an object.
pub open spec fn primitive_json(v: JsValue, jv: JsonValue) -> bool {
    match v {
        JsValue::Undefined => jv == JsonValue::Null,
        JsValue::Null => jv == JsonValue::Null,
        JsValue::Boolean(b) => jv == JsonValue::Bool(b),
        JsValue::String(s) => jv matches JsonValue::String(t) && t@ == s@,
        JsValue::Number(n) => match n {
            JsNumber::Finite { .. } => n.wf() ==> (jv matches JsonValue::Number(t) && (n.is_small_int()
                ==> t@ == int_to_dec(n.int_value()))),
            _ => jv == JsonValue::Null,
        },
        JsValue::Object(_) => true,
    }
}

/// What `JSON.stringify` makes of the contents of one object.
enum Plan {
    Value(JsonValue),
    Items(Vec<JsValue>),
    Members(Vec<(Vec<char>, JsValue)>),
}

/// The properties that `JSON.stringify` writes: the enumerable ones whose value is not
/// `undefined`, in order.
pub open spec fn json_props(ps: Seq<Property>) -> Seq<Property>
    decreases ps.len(),
{
    if ps.len() == 0 {
        ps
    } else {
        let rest = json_props(ps.drop_last());
        if ps.last().enumerable && !(ps.last().value is Undefined) {
            rest.push(ps.last())
        } else {
            rest
        }
    }
}

/// `ms` are copies of the keys and values of `ps`.
pub open spec fn copies_props(ms: Seq<(Vec<char>, JsValue)>, ps: Seq<Property>) -> bool {
    &&& ms.len() == ps.len()
    &&& forall|i: int| 0 <= i < ms.len() ==> (#[trigger] ms[i]).0@ == ps[i].key@ && same_value(ms[i].1, ps[i].value)
}

/// The enumerable own properties of `props` whose value is not `undefined`.
fn json_members(props: &Vec<Property>) -> (r: Vec<(Vec<char>, JsValue)>)
    ensures
        copies_props(r@, json_props(props@)),
{
    let mut out: Vec<(Vec<char>, JsValue)> = Vec::new();
    let mut i: usize = 0;
    assert(props@.take(0) =~= Seq::<Property>::empty());
    while i < props.len()
        invariant
            i <= props@.len(),
            copies_props(out@, json_props(props@.take(i as int))),
        decreases props@.len() - i,
    {
        proof {
            assert(props@.take(i + 1).drop_last() =~= props@.take(i as int));
            assert(props@.take(i + 1).last() == props@[i as int]);
        }
        if props[i].enumerable {
            match props[i].value {
                JsValue::Undefined => {},
                _ => out.push((copy_chars(&props[i].key), props[i].value.copy())),
            }
        }
        i = i + 1;
    }
    assert(props@.take(props@.len() as int) =~= props@);
    out
}

/// The milliseconds of a date as `JSON.stringify` hands them to chrono, where the runtime
/// states them: zero for an invalid date, the time itself for an integral one.
pub open spec fn date_millis(x: JsNumber) -> Option<i64> {
    match x {
        JsNumber::NaN => Some(0),
        JsNumber::Finite { .. } => if x.wf() && x.is_small_int() && -9007199254740992 <= x.int_value()
            <= 9007199254740992 {
            Some(x.int_value() as i64)
        } else {
            None
        },
        _ => None,
    }
}

/// `jv` is the JSON document that `JSON.stringify` makes of `v` on `heap`, for a value
/// whose objects nest at most `n` deep (see `js_value_to_json`).
pub open spec fn json_for(heap: Seq<JsObject>, v: JsValue, jv: JsonValue, n: nat) -> bool
    decreases n,
{
    match v {
        JsValue::Object(id) => if id >= heap.len() {
            jv == JsonValue::Null
        } else if n == 0 {
            false
        } else {
            match heap[id as int].kind {
                ObjectKind::Array(es) => jv matches JsonValue::Array(items) && items@.len() == es@.len() && forall|i: int|
                    0 <= i < es@.len() ==> json_for(heap, #[trigger] es@[i], items@[i], (n - 1) as nat),
                ObjectKind::Ordinary => jv matches JsonValue::Object(ms) && ms@.len() == json_props(
                    heap[id as int].props@,
                ).len() && forall|i: int|
                    0 <= i < ms@.len() ==> (#[trigger] ms@[i]).0@ == json_props(heap[id as int].props@)[i].key@
                        && json_for(heap, json_props(heap[id as int].props@)[i].value, ms@[i].1, (n - 1) as nat),
                ObjectKind::Error(_) => jv matches JsonValue::Object(ms) && ms@.len() == json_props(
                    heap[id as int].props@,
                ).len() && forall|i: int|
                    0 <= i < ms@.len() ==> (#[trigger] ms@[i]).0@ == json_props(heap[id as int].props@)[i].key@
                        && json_for(heap, json_props(heap[id as int].props@)[i].value, ms@[i].1, (n - 1) as nat),
                ObjectKind::BooleanBox(b) => jv == JsonValue::Bool(b),
                ObjectKind::NumberBox(x) => primitive_json(JsValue::Number(x), jv) && (x is Finite && x.wf()
                    || jv == JsonValue::Null),
                ObjectKind::StringBox(t) => jv matches JsonValue::String(u) && u@ == t@,
                ObjectKind::DateValue(x) => jv matches JsonValue::String(u) && (date_millis(x) matches Some(ms)
                    ==> u@ == chrono_iso_text(ms)),
                ObjectKind::RawJson(text) => match json_reading(text@) {
                    Some(d) => jv == d,
                    None => jv == JsonValue::Null,
                },
                _ => jv == JsonValue::Null,
            }
        },
        _ => primitive_json(v, jv),
    }
}

/// A deeper bound keeps the relation.
pub proof fn lemma_json_for_deeper(heap: Seq<JsObject>, v: JsValue, jv: JsonValue, n: nat, m: nat)
    requires
        json_for(heap, v, jv, n),
        n <= m,
    ensures
        json_for(heap, v, jv, m),
    decreases n,
{
    if let JsValue::Object(id) = v {
        if id < heap.len() && n > 0 {
            match heap[id as int].kind {
                ObjectKind::Array(es) => {
                    let items = jv->Array_0;
                    assert forall|i: int| 0 <= i < es@.len() implies json_for(heap, #[trigger] es@[i], items@[i], (m - 1) as nat) by {
                        lemma_json_for_deeper(heap, es@[i], items@[i], (n - 1) as nat, (m - 1) as nat);
                    }
                },
                ObjectKind::Ordinary => {
                    let ms = jv->Object_0;
                    let ps = json_props(heap[id as int].props@);
                    assert forall|i: int| 0 <= i < ms@.len() implies (#[trigger] ms@[i]).0@ == ps[i].key@ && json_for(heap, ps[i].value, ms@[i].1, (m - 1) as nat) by {
                        lemma_json_for_deeper(heap, ps[i].value, ms@[i].1, (n - 1) as nat, (m - 1) as nat);
                    }
                },
                ObjectKind::Error(_) => {
                    let ms = jv->Object_0;
                    let ps = json_props(heap[id as int].props@);
                    assert forall|i: int| 0 <= i < ms@.len() implies (#[trigger] ms@[i]).0@ == ps[i].key@ && json_for(heap, ps[i].value, ms@[i].1, (m - 1) as nat) by {
                        lemma_json_for_deeper(heap, ps[i].value, ms@[i].1, (n - 1) as nat, (m - 1) as nat);
                    }
                },
                _ => {},
            }
        }
    }
}

/// A copy of a value makes the same document.
pub proof fn lemma_json_for_copy(heap: Seq<JsObject>, a: JsValue, b: JsValue, jv: JsonValue, n: nat)
    requires
        same_value(a, b),
        json_for(heap, a, jv, n),
    ensures
        json_for(heap, b, jv, n),
{
}

/// What `JSON.stringify` makes of heap object `id`, before its parts are converted.
fn object_plan(interp: &Interpreter, id: usize) -> (r: Plan)
    requires
        id < interp.heap@.len(),
    ensures
        interp.heap@[id as int].kind matches ObjectKind::Array(es) ==> (r matches Plan::Items(items)
            && items@.len() == es@.len() && forall|i: int| 0 <= i < es@.len() ==> same_value(#[trigger] items@[i], es@[i])),
        interp.heap@[id as int].kind is Ordinary || interp.heap@[id as int].kind is Error ==> (r matches Plan::Members(
            ms,
        ) && copies_props(ms@, json_props(interp.heap@[id as int].props@))),
        !(interp.heap@[id as int].kind is Array || interp.heap@[id as int].kind is Ordinary
            || interp.heap@[id as int].kind is Error) ==> (r matches Plan::Value(jv) && json_for(
            interp.heap@,
            JsValue::Object(id),
            jv,
            1,
        )),
{
    match &interp.heap[id].kind {
        ObjectKind::Array(elems) => Plan::Items(crate::interpreter::copy_values(elems)),
        ObjectKind::Ordinary => Plan::Members(json_members(&interp.heap[id].props)),
        ObjectKind::Error(_) => Plan::Members(json_members(&interp.heap[id].props)),
        ObjectKind::BooleanBox(b) => Plan::Value(JsonValue::Bool(*b)),
        ObjectKind::NumberBox(n) => if n.is_finite() && n.check_wf() {
            Plan::Value(JsonValue::Number(number_text(n)))
        } else {
            Plan::Value(JsonValue::Null)
        },
        ObjectKind::StringBox(s) => Plan::Value(JsonValue::String(copy_chars(s))),
        ObjectKind::DateValue(n) => {
            let ms: i64 = if n.check_wf() {
                n.to_integer_clamped()
            } else {
                0
            };
            Plan::Value(JsonValue::String(chrono_iso(ms)))
        },
        ObjectKind::RawJson(text) => match read_json(text) {
            Ok(v) => Plan::Value(v),
            Err(_) => Plan::Value(JsonValue::Null),
        },
        _ => Plan::Value(JsonValue::Null),
    }
}

/// `value` as a JSON document; `visited` holds the objects being converted, to find
/// structures that contain themselves.
fn to_json_visiting(interp: &mut Interpreter, value: &JsValue, visited: &mut Vec<usize>) -> (r: Result<
    JsonValue,
    JsError,
>)
    ensures
        final(interp).spends(old(interp), r is Err) || *final(interp) == *old(interp),
        final(interp).heap@ == old(interp).heap@,
        r is Ok ==> final(visited)@ == old(visited)@,
        !(*value is Object) ==> *final(interp) == *old(interp) && (r matches Ok(jv) && primitive_json(*value, jv)),
        *value matches JsValue::Object(id) ==> (old(visited)@.contains(id) ==> is_type_error(r)),
        r matches Ok(jv) ==> exists|n: nat| json_for(old(interp).heap@, *value, jv, n),
        (*value is Object && !old(visited)@.contains(value->Object_0) && old(interp).array_at(value->Object_0) is Some
            && primitives_only(old(interp).array_at(value->Object_0).unwrap()) && old(interp).fuel > 1
            + old(interp).array_at(value->Object_0).unwrap().len()) ==> r is Ok,
    decreases old(interp).fuel,
{
    let ghost h = interp.heap@;
    let id = match value {
        JsValue::Undefined => {
            assert(json_for(h, *value, JsonValue::Null, 0));
            return Ok(JsonValue::Null);
        },
        JsValue::Null => {
            assert(json_for(h, *value, JsonValue::Null, 0));
            return Ok(JsonValue::Null);
        },
        JsValue::Boolean(b) => {
            assert(json_for(h, *value, JsonValue::Bool(*b), 0));
            return Ok(JsonValue::Bool(*b));
        },
        JsValue::String(s) => {
            let jv = JsonValue::String(copy_chars(s));
            assert(json_for(h, *value, jv, 0));
            return Ok(jv);
        },
        JsValue::Number(n) => {
            if n.is_finite() && n.check_wf() {
                let jv = JsonValue::Number(number_text(n));
                assert(json_for(h, *value, jv, 0));
                return Ok(jv);
            }
            assert(json_for(h, *value, JsonValue::Null, 0));
            return Ok(JsonValue::Null);
        },
        JsValue::Object(id) => *id,
    };
    let mut k: usize = 0;
    while k < visited.len()
        invariant
            k <= visited@.len(),
            forall|j: int| 0 <= j < k ==> visited@[j] != id,
            *value == JsValue::Object(id),
            *interp == *old(interp),
            visited@ == old(visited)@,
        decreases visited@.len() - k,
    {
        if visited[k] == id {
            return Err(type_error("Converting circular structure to JSON"));
        }
        k = k + 1;
    }
    assert(!old(visited)@.contains(id));
    if id >= interp.heap.len() {
        assert(json_for(h, *value, JsonValue::Null, 0));
        return Ok(JsonValue::Null);
    }
    let ghost ap = old(interp).array_at(id) is Some && primitives_only(old(interp).array_at(id).unwrap())
        && old(interp).fuel > 1 + old(interp).array_at(id).unwrap().len();
    interp.step()?;
    let plan = object_plan(interp, id);
    visited.push(id);
    let ghost inner = visited@;
    let ghost mut depth: nat = 0;
    let result = match plan {
        Plan::Value(v) => {
            proof {
                depth = 1;
            }
            v
        },
        Plan::Items(items) => {
            proof {
                if ap {
                    let es = old(interp).array_at(id).unwrap();
                    assert forall|k: int| 0 <= k < items@.len() implies !(#[trigger] items@[k] is Object) by {
                        assert(!(es[k] is Object));
                    }
                }
            }
            let mut out: Vec<JsonValue> = Vec::new();
            let mut i: usize = 0;
            while i < items.len()
                invariant
                    i <= items@.len(),
                    out@.len() == i,
                    visited@ == inner,
                    *value == JsValue::Object(id),
                    !old(visited)@.contains(id),
                    interp.spends(old(interp), false),
                    interp.heap@ == old(interp).heap@,
                    h == old(interp).heap@,
                    forall|k: int| 0 <= k < i ==> json_for(h, #[trigger] items@[k], out@[k], depth),
                    ap == (old(interp).array_at(id) is Some && primitives_only(old(interp).array_at(id).unwrap())
                        && old(interp).fuel > 1 + old(interp).array_at(id).unwrap().len()),
                    ap ==> items@.len() == old(interp).array_at(id).unwrap().len() && interp.fuel + 1 + i >= old(interp).fuel
                        && forall|k: int| 0 <= k < items@.len() ==> !(#[trigger] items@[k] is Object),
                decreases items@.len() - i,
            {
                interp.step()?;
                let v = to_json_visiting(interp, &items[i], visited)?;
                proof {
                    let nc = choose|n: nat| json_for(h, items@[i as int], v, n);
                    let d2: nat = if nc > depth { nc } else { depth };
                    assert forall|k: int| 0 <= k < i implies json_for(h, #[trigger] items@[k], out@[k], d2) by {
                        lemma_json_for_deeper(h, items@[k], out@[k], depth, d2);
                    }
                    lemma_json_for_deeper(h, items@[i as int], v, nc, d2);
                    depth = d2;
                }
                out.push(v);
                i = i + 1;
            }
            proof {
                let es = h[id as int].kind->Array_0;
                assert forall|k: int| 0 <= k < es@.len() implies json_for(h, #[trigger] es@[k], out@[k], depth) by {
                    lemma_json_for_copy(h, items@[k], es@[k], out@[k], depth);
                }
                depth = depth + 1;
            }
            JsonValue::Array(out)
        },
        Plan::Members(members) => {
            assert(old(interp).array_at(id) is None);
            let mut out: Vec<(Vec<char>, JsonValue)> = Vec::new();
            let mut i: usize = 0;
            while i < members.len()
                invariant
                    i <= members@.len(),
                    out@.len() == i,
                    visited@ == inner,
                    *value == JsValue::Object(id),
                    !old(visited)@.contains(id),
                    interp.spends(old(interp), false),
                    interp.heap@ == old(interp).heap@,
                    h == old(interp).heap@,
                    forall|k: int|
                        0 <= k < i ==> (#[trigger] out@[k]).0@ == members@[k].0@ && json_for(
                            h,
                            members@[k].1,
                            out@[k].1,
                            depth,
                        ),
                    old(interp).array_at(id) is None,
                decreases members@.len() - i,
            {
                interp.step()?;
                let v = to_json_visiting(interp, &members[i].1, visited)?;
                let key = copy_chars(&members[i].0);
                proof {
                    let nc = choose|n: nat| json_for(h, members@[i as int].1, v, n);
                    let d2: nat = if nc > depth { nc } else { depth };
                    assert forall|k: int| 0 <= k < i implies (#[trigger] out@[k]).0@ == members@[k].0@ && json_for(
                        h,
                        members@[k].1,
                        out@[k].1,
                        d2,
                    ) by {
                        lemma_json_for_deeper(h, members@[k].1, out@[k].1, depth, d2);
                    }
                    lemma_json_for_deeper(h, members@[i as int].1, v, nc, d2);
                    depth = d2;
                }
                out.push((key, v));
                i = i + 1;
            }
            proof {
                let ps = json_props(h[id as int].props@);
                assert forall|k: int| 0 <= k < out@.len() implies (#[trigger] out@[k]).0@ == ps[k].key@ && json_for(
                    h,
                    ps[k].value,
                    out@[k].1,
                    depth,
                ) by {
                    assert(members@[k].0@ == ps[k].key@);
                    lemma_json_for_copy(h, members@[k].1, ps[k].value, out@[k].1, depth);
                }
                depth = depth + 1;
            }
            JsonValue::Object(out)
        },
    };
    visited.pop();
    proof {
        assert(visited@ =~= old(visited)@);
        assert(json_for(h, *value, result, depth));
    }
    Ok(result)
}

/// The JSON document for a runtime value, as `JSON.stringify` sees it: `undefined`,
/// functions, maps, promises and non-finite numbers as null, wrappers as their primitive,
/// dates as chrono's ISO text, arrays element by element, other objects by their
/// enumerable own properties whose value is not `undefined`. A structure that contains
/// itself is a `TypeError`.
pub fn js_value_to_json(interp: &mut Interpreter, value: &JsValue) -> (r: Result<JsonValue, JsError>)
    ensures
        final(interp).spends(old(interp), r is Err) || *final(interp) == *old(interp),
        final(interp).heap@ == old(interp).heap@,
        !(*value is Object) ==> *final(interp) == *old(interp) && (r matches Ok(jv) && primitive_json(*value, jv)),
        r matches Ok(jv) ==> exists|n: nat| json_for(old(interp).heap@, *value, jv, n),
        (*value is Object && old(interp).array_at(value->Object_0) is Some && primitives_only(
            old(interp).array_at(value->Object_0).unwrap(),
        ) && old(interp).fuel > 1 + old(interp).array_at(value->Object_0).unwrap().len()) ==> r is Ok,
    decreases old(interp).fuel,
{
    let mut visited: Vec<usize> = Vec::new();
    to_json_visiting(interp, value, &mut visited)
}


/// The end of the line that starts at `i`: the next line break, or the end of `s`.
pub open spec fn line_end(s: Seq<char>, i: int) -> int
    decreases s.len() - i,
{
    if i >= s.len() {
        s.len() as int
    } else if s[i] == '\n' {
        i
    } else {
        line_end(s, i + 1)
    }
}

/// The end of the run of spaces that starts at `i` (and stops at `e`).
pub open spec fn space_end(s: Seq<char>, i: int, e: int) -> int
    decreases e - i,
{
    if i >= e || s[i] != ' ' {
        i
    } else {
        space_end(s, i + 1, e)
    }
}

pub proof fn lemma_line_end(s: Seq<char>, i: int)
    requires
        0 <= i <= s.len(),
    ensures
        i <= line_end(s, i) <= s.len(),
    decreases s.len() - i,
{
    if i < s.len() && s[i] != '\n' {
        lemma_line_end(s, i + 1);
    }
}

/// The lines of `s` from position `i` on, each with its leading spaces replaced by `ind`
/// once per two spaces: how `JSON.stringify` turns serde_json's two-space indentation
/// into the indentation it was asked for.
pub open spec fn reindented_from(s: Seq<char>, i: int, ind: Seq<char>) -> Seq<char>
    decreases s.len() - i,
{
    if i < 0 || i > s.len() {
        Seq::empty()
    } else {
        let e = line_end(s, i);
        let k = space_end(s, i, e);
        let line = repeated(ind, ((k - i) / 2) as nat) + s.subrange(k, e);
        if e < s.len() {
            proof {
                lemma_line_end(s, i);
            }
            line + seq!['\n'] + reindented_from(s, e + 1, ind)
        } else {
            line
        }
    }
}

/// `s` with its indentation rewritten as `reindented_from` says.
pub fn reindent(s: &Vec<char>, ind: &Vec<char>) -> (r: Vec<char>)
    ensures
        r@ == reindented_from(s@, 0, ind@),
{
    let n = s.len();
    let mut out: Vec<char> = Vec::new();
    let mut i: usize = 0;
    loop
        invariant_except_break
            i <= n,
            n == s@.len(),
            reindented_from(s@, 0, ind@) == out@ + reindented_from(s@, i as int, ind@),
        ensures
            out@ == reindented_from(s@, 0, ind@),
        decreases n - i,
    {
        let mut e: usize = i;
        while e < n && s[e] != '\n'
            invariant
                i <= e <= n,
                n == s@.len(),
                line_end(s@, i as int) == line_end(s@, e as int),
            decreases n - e,
        {
            e = e + 1;
        }
        let mut k: usize = i;
        while k < e && s[k] == ' '
            invariant
                i <= k <= e,
                e <= n,
                n == s@.len(),
                space_end(s@, i as int, e as int) == space_end(s@, k as int, e as int),
            decreases e - k,
        {
            k = k + 1;
        }
        let ghost before = out@;
        let level: usize = (k - i) / 2;
        let mut j: usize = 0;
        while j < level
            invariant
                j <= level,
                out@ == before + repeated(ind@, j as nat),
            decreases level - j,
        {
            append_chars(&mut out, ind.as_slice());
            j = j + 1;
        }
        let mut m: usize = k;
        while m < e
            invariant
                k <= m <= e,
                e <= n,
                n == s@.len(),
                out@ == before + repeated(ind@, level as nat) + s@.subrange(k as int, m as int),
            decreases e - m,
        {
            out.push(s[m]);
            proof {
                assert(s@.subrange(k as int, m + 1) =~= s@.subrange(k as int, m as int).push(s@[m as int]));
            }
            m = m + 1;
        }
        let ghost line = repeated(ind@, level as nat) + s@.subrange(k as int, e as int);
        assert(out@ =~= before + line);
        if e >= n {
            break;
        }
        out.push('\n');
        proof {
            assert(reindented_from(s@, i as int, ind@) == line + seq!['\n'] + reindented_from(s@, e + 1, ind@));
            assert(out@ =~= before + line + seq!['\n']);
            assert(before + reindented_from(s@, i as int, ind@) =~= out@ + reindented_from(s@, e + 1, ind@));
        }
        i = e + 1;
    }
    out
}


/// `m` with its last `d` decimal digits dropped.
pub open spec fn drop_digits(m: nat, d: nat) -> nat
    decreases d,
{
    if d == 0 {
        m
    } else {
        drop_digits(m / 10, (d - 1) as nat)
    }
}

/// The indentation width that a number asks for: its integer part, at most ten; `None`
/// unless the number is greater than zero.
pub open spec fn indent_width(n: JsNumber) -> Option<int> {
    match n {
        JsNumber::Infinity { neg } => if neg {
            None
        } else {
            Some(10)
        },
        JsNumber::Finite { neg, mant, exp } => if neg || mant == 0 {
            None
        } else if exp > 0 {
            Some(10)
        } else {
            let q = drop_digits(mant as nat, (-exp) as nat);
            Some(if q >= 10 { 10 } else { q as int })
        },
        JsNumber::NaN => None,
    }
}

/// The text `JSON.stringify` writes for the document `jv` with the `indent` argument:
/// compact; or serde_json's pretty text with each two-space step of indentation replaced
/// by the requested number of spaces (at most ten) or by the requested text (its first
/// ten characters).
pub open spec fn stringified(jv: JsonValue, indent: JsValue) -> Seq<char> {
    match indent {
        JsValue::Number(n) => match indent_width(n) {
            Some(w) => if w == 2 {
                json_pretty_text(jv)
            } else {
                reindented_from(json_pretty_text(jv), 0, repeated(seq![' '], w as nat))
            },
            None => json_text(jv),
        },
        JsValue::String(s) => if s@.len() > 0 {
            reindented_from(json_pretty_text(jv), 0, if s@.len() <= 10 { s@ } else { s@.take(10) })
        } else {
            json_text(jv)
        },
        _ => json_text(jv),
    }
}

/// The width `indent_width` gives, computed.
fn width_of(n: &JsNumber) -> (r: Option<usize>)
    ensures
        r matches Some(w) ==> indent_width(*n) == Some(w as int),
        r is None <==> indent_width(*n) is None,
{
    match *n {
        JsNumber::Infinity { neg } => if neg {
            None
        } else {
            Some(10)
        },
        JsNumber::Finite { neg, mant, exp } => if neg || mant == 0 {
            None
        } else if exp > 0 {
            Some(10)
        } else {
            let d: u64 = if exp < 0 { (0 - (exp as i64)) as u64 } else { 0 };
            assert(d == -exp);
            let mut q: u64 = mant;
            let mut k: u64 = 0;
            while k < d
                invariant
                    k <= d,
                    drop_digits(mant as nat, d as nat) == drop_digits(q as nat, (d - k) as nat),
                decreases d - k,
            {
                q = q / 10;
                k = k + 1;
            }
            if q >= 10 {
                Some(10)
            } else {
                Some(q as usize)
            }
        },
        JsNumber::NaN => None,
    }
}

/// The text of the document `jv` as `JSON.stringify` writes it for the `indent`
/// argument (see `stringified`).
pub fn json_text_for(jv: &JsonValue, indent: &JsValue) -> (r: Vec<char>)
    ensures
        r@ == stringified(*jv, *indent),
{
    match indent {
        JsValue::Number(n) => match width_of(n) {
            Some(w) => {
                let pretty = write_json_pretty(jv);
                if w == 2 {
                    pretty
                } else {
                    let mut ind: Vec<char> = Vec::new();
                    let mut k: usize = 0;
                    while k < w
                        invariant
                            k <= w,
                            ind@ == repeated(seq![' '], k as nat),
                        decreases w - k,
                    {
                        ind.push(' ');
                        proof {
                            assert(ind@ =~= repeated(seq![' '], k as nat) + seq![' ']);
                        }
                        k = k + 1;
                    }
                    reindent(&pretty, &ind)
                }
            },
            None => write_json(jv),
        },
        JsValue::String(s) => if s.len() > 0 {
            let pretty = write_json_pretty(jv);
            let mut ind: Vec<char> = Vec::new();
            let mut k: usize = 0;
            while k < s.len() && k < 10
                invariant
                    k <= s@.len(),
                    k <= 10,
                    ind@ == s@.take(k as int),
                decreases s@.len() - k,
            {
                ind.push(s[k]);
                proof {
                    assert(ind@ =~= s@.take(k + 1));
                }
                k = k + 1;
            }
            proof {
                if s@.len() <= 10 {
                    assert(ind@ =~= s@);
                }
            }
            reindent(&pretty, &ind)
        } else {
            write_json(jv)
        },
        _ => write_json(jv),
    }
}


/// `JSON.stringify(value, replacer, indent)`: the JSON text of `value` (the replacer is
/// not used; see `json_text_for` for `indent`).
pub fn json_stringify(interp: &mut Interpreter, this: JsValue, args: Vec<JsValue>) -> (r: Result<
    JsValue,
    JsError,
>)
    ensures
        final(interp).spends(old(interp), r is Err) || *final(interp) == *old(interp),
        final(interp).heap@ == old(interp).heap@,
        !(nth_arg(args@, 0) is Object) ==> (r matches Ok(JsValue::String(t)) && exists|jv: JsonValue|
            primitive_json(nth_arg(args@, 0), jv) && t@ == stringified(jv, nth_arg(args@, 2))),
        r matches Ok(v) ==> (v matches JsValue::String(t) && exists|jv: JsonValue, n: nat|
            json_for(old(interp).heap@, nth_arg(args@, 0), jv, n) && t@ == stringified(jv, nth_arg(args@, 2))),
        (nth_arg(args@, 0) is Object && old(interp).array_at(nth_arg(args@, 0)->Object_0) is Some && primitives_only(
            old(interp).array_at(nth_arg(args@, 0)->Object_0).unwrap(),
        ) && old(interp).fuel > 1 + old(interp).array_at(nth_arg(args@, 0)->Object_0).unwrap().len()) ==> r is Ok,
    decreases old(interp).fuel,
{
    let value = arg_at(&args, 0);
    let indent = arg_at(&args, 2);
    let jv = js_value_to_json(interp, &value)?;
    let text = json_text_for(&jv, &indent);
    proof {
        if !(nth_arg(args@, 0) is Object) {
            assert(primitive_json(nth_arg(args@, 0), jv));
        }
        let n = choose|n: nat| json_for(old(interp).heap@, value, jv, n);
        lemma_json_for_copy(old(interp).heap@, value, nth_arg(args@, 0), jv, n);
    }
    Ok(JsValue::String(text))
}

/// A `SyntaxError` whose message is `prefix` followed by `detail`.
fn syntax_error(prefix: &str, detail: &Vec<char>) -> (e: JsError)
    ensures
        e matches JsError::Raised(k, _) && k == ErrorKind::SyntaxError,
{
    let mut msg = chars_of(prefix);
    append_chars(&mut msg, detail.as_slice());
    JsError::Raised(ErrorKind::SyntaxError, msg)
}

/// `JSON.parse(text)`: the value of the JSON document in `text` (converted to a string
/// first); a `SyntaxError` where serde_json refuses the text.
pub fn json_parse(interp: &mut Interpreter, this: JsValue, args: Vec<JsValue>) -> (r: Result<
    JsValue,
    JsError,
>)
    ensures
        final(interp).spends(old(interp), r is Err) || final(interp).grows(old(interp)),
        plain_text(nth_arg(args@, 0)) matches Some(t) ==> ((nth_arg(args@, 0) is String || old(interp).fuel > 1)
            ==> (json_reading(t) is None ==> (r matches Err(JsError::Raised(k, _)) && k == ErrorKind::SyntaxError))),
        plain_text(nth_arg(args@, 0)) matches Some(t) ==> ((nth_arg(args@, 0) is String || old(interp).fuel > 1)
            ==> (json_reading(t) matches Some(jv) ==> (r matches Ok(v) && reads_as(final(interp), v, jv)))),
    decreases old(interp).fuel,
{
    let text = match arg_at(&args, 0) {
        JsValue::String(t) => t,
        other => {
            interp.step()?;
            interp.to_js_string(&other)?
        },
    };
    match read_json(&text) {
        Ok(jv) => json_to_js_value_with_interp(interp, &jv),
        Err(msg) => Err(syntax_error("JSON parse error: ", &msg)),
    }
}

/// `v` is an object without a prototype made by `JSON.rawJSON` from the text `t`.
pub open spec fn raw_json_of(interp: &Interpreter, v: JsValue, t: Seq<char>) -> bool {
    &&& v matches JsValue::Object(id)
    &&& id < interp.heap@.len()
    &&& interp.heap@[id as int].kind matches ObjectKind::RawJson(u)
    &&& u@ == t
    &&& interp.heap@[id as int].proto is None
}

/// `JSON.rawJSON(text)`: an object, without a prototype, that `JSON.stringify` writes as
/// the document in `text`. `text` must be a string holding a JSON document.
pub fn json_raw_json(interp: &mut Interpreter, this: JsValue, args: Vec<JsValue>) -> (r: Result<
    JsValue,
    JsError,
>)
    ensures
        final(interp).grows(old(interp)),
        final(interp).same_state(old(interp)),
        !(nth_arg(args@, 0) is String) ==> is_type_error(r) && *final(interp) == *old(interp),
        nth_arg(args@, 0) matches JsValue::String(t) ==> (json_reading(t@) is None ==> (r matches Err(
            JsError::Raised(k, _),
        ) && k == ErrorKind::SyntaxError)),
        nth_arg(args@, 0) matches JsValue::String(t) ==> (json_reading(t@) is Some ==> (r matches Ok(v)
            && raw_json_of(final(interp), v, t@))),
{
    let text = match arg_at(&args, 0) {
        JsValue::String(t) => t,
        _ => {
            return Err(type_error("JSON.rawJSON argument must be a string"));
        },
    };
    match read_json(&text) {
        Ok(_) => {
            let id = interp.allocate(new_object(ObjectKind::RawJson(text), None));
            Ok(JsValue::Object(id))
        },
        Err(msg) => Err(syntax_error("JSON.rawJSON: invalid JSON: ", &msg)),
    }
}

/// `JSON.isRawJSON(value)`: whether `value` was made by `JSON.rawJSON`.
pub fn json_is_raw_json(interp: &mut Interpreter, this: JsValue, args: Vec<JsValue>) -> (r: Result<
    JsValue,
    JsError,
>)
    ensures
        *final(interp) == *old(interp),
        r == Ok::<JsValue, JsError>(
            JsValue::Boolean(
                nth_arg(args@, 0) matches JsValue::Object(id) && id < old(interp).heap@.len()
                    && old(interp).heap@[id as int].kind is RawJson,
            ),
        ),
{
    let raw = match arg_at(&args, 0) {
        JsValue::Object(id) => id < interp.heap.len() && match &interp.heap[id].kind {
            ObjectKind::RawJson(_) => true,
            _ => false,
        },
        _ => false,
    };
    Ok(JsValue::Boolean(raw))
}

/// Installs the global `JSON` object.
pub fn init_json(interp: &mut Interpreter)
    ensures
        final(interp).heap@.len() == old(interp).heap@.len() + 5,
        final(interp).grows(old(interp)),
        final(interp).same_registers(old(interp)),
        global_set(
            old(interp).scopes@,
            final(interp).scopes@,
            "JSON"@,
            JsValue::Object(old(interp).heap@.len() as usize),
        ),
{
    let j = interp.create_object();
    interp.register_method(j, "stringify", NativeId::JsonStringify, 3);
    interp.register_method(j, "parse", NativeId::JsonParse, 2);
    interp.register_method(j, "rawJSON", NativeId::JsonRawJson, 1);
    interp.register_method(j, "isRawJSON", NativeId::JsonIsRawJson, 1);
    interp.define_global("JSON", JsValue::Object(j));
}

} // verus!
