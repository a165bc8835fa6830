//! `Boolean`: conversion to a boolean and the methods of boolean values.
use crate::interpreter::{type_error, Interpreter};
use crate::number::chars_of;
use crate::value::{truthy, JsError, JsValue, NativeId, ObjectKind};
use vstd::prelude::*;

verus! {

/// `Boolean(value)`: the truth of the first argument (`false` without one).
pub open spec fn bool_arg(args: Seq<JsValue>) -> bool {
    args.len() > 0 && truthy(args[0])
}

/// The boolean that `this` holds: a boolean or a `Boolean` wrapper.
pub open spec fn boolean_of(interp: &Interpreter, v: JsValue) -> Option<bool> {
    match v {
        JsValue::Boolean(b) => Some(b),
        JsValue::Object(id) => if id < interp.heap@.len() {
            match interp.heap@[id as int].kind {
                ObjectKind::BooleanBox(b) => Some(b),
                _ => None,
            }
        } else {
            None
        },
        _ => None,
    }
}

/// `this` is an object that `new Boolean` just made: ordinary, with `Boolean.prototype`.
pub open spec fn is_fresh_boolean(interp: &Interpreter, v: JsValue) -> bool {
    v matches JsValue::Object(id) && id < interp.heap@.len() && interp.heap@[id as int].kind
        is Ordinary && interp.heap@[id as int].proto == Some(interp.boolean_prototype)
}

/// `Boolean(value)` gives a boolean; under `new` the new object becomes a wrapper of it.
pub fn boolean_constructor_fn(interp: &mut Interpreter, this: JsValue, args: Vec<JsValue>) -> (r:
    Result<JsValue, JsError>)
    ensures
        is_fresh_boolean(old(interp), this) ==> r == Ok::<JsValue, JsError>(this) && (this matches JsValue::Object(
            id,
        ) && final(interp).heap@[id as int].kind == ObjectKind::BooleanBox(bool_arg(args@))
            && final(interp).unchanged_but(old(interp), id as int)),
        !is_fresh_boolean(old(interp), this) ==> r == Ok::<JsValue, JsError>(
            JsValue::Boolean(bool_arg(args@)),
        ) && *final(interp) == *old(interp),
{
    let b = if args.len() > 0 {
        args[0].to_boolean()
    } else {
        false
    };
    if let JsValue::Object(id) = this {
        if id < interp.heap.len() {
            let fresh = match interp.heap[id].kind {
                ObjectKind::Ordinary => interp.heap[id].proto == Some(interp.boolean_prototype),
                _ => false,
            };
            if fresh {
                interp.heap[id].kind = ObjectKind::BooleanBox(b);
                return Ok(this);
            }
        }
    }
    Ok(JsValue::Boolean(b))
}

/// The boolean of `this`, or a `TypeError` for other receivers.
fn this_boolean(interp: &Interpreter, this: &JsValue) -> (r: Result<bool, JsError>)
    ensures
        r matches Ok(b) ==> boolean_of(interp, *this) == Some(b),
        r is Err ==> boolean_of(interp, *this) is None,
{
    match this {
        JsValue::Boolean(b) => Ok(*b),
        JsValue::Object(id) => {
            if *id < interp.heap.len() {
                if let ObjectKind::BooleanBox(b) = interp.heap[*id].kind {
                    return Ok(b);
                }
            }
            Err(type_error("Boolean.prototype method called on incompatible receiver"))
        },
        _ => Err(type_error("Boolean.prototype method called on incompatible receiver")),
    }
}

/// `b.toString()`: `"true"` or `"false"`.
pub fn boolean_to_string(interp: &mut Interpreter, this: JsValue, args: Vec<JsValue>) -> (r: Result<
    JsValue,
    JsError,
>)
    ensures
        *final(interp) == *old(interp),
        r is Ok <==> boolean_of(old(interp), this) is Some,
        boolean_of(old(interp), this) matches Some(b) ==> (r matches Ok(JsValue::String(t)) && t@ == (if b {
            "true"@
        } else {
            "false"@
        })),
{
    let b = this_boolean(interp, &this)?;
    if b {
        Ok(JsValue::String(chars_of("true")))
    } else {
        Ok(JsValue::String(chars_of("false")))
    }
}

/// `b.valueOf()`: the primitive boolean.
pub fn boolean_value_of(interp: &mut Interpreter, this: JsValue, args: Vec<JsValue>) -> (r: Result<
    JsValue,
    JsError,
>)
    ensures
        *final(interp) == *old(interp),
        r is Ok <==> boolean_of(old(interp), this) is Some,
        boolean_of(old(interp), this) matches Some(b) ==> r == Ok::<JsValue, JsError>(JsValue::Boolean(b)),
{
    let b = this_boolean(interp, &this)?;
    Ok(JsValue::Boolean(b))
}

/// Installs `toString` and `valueOf` on `Boolean.prototype`.
pub fn init_boolean_prototype(interp: &mut Interpreter)
    ensures
        final(interp).scopes@ == old(interp).scopes@,
        final(interp).grows(old(interp)),
        final(interp).same_registers(old(interp)),
{
    let p = interp.boolean_prototype;
    interp.register_method(p, "toString", NativeId::BooleanToString, 0);
    interp.register_method(p, "valueOf", NativeId::BooleanValueOf, 0);
}

/// The `Boolean` function, linked with `Boolean.prototype`.
pub fn create_boolean_constructor(interp: &mut Interpreter) -> (f: usize)
    ensures
        final(interp).scopes@ == old(interp).scopes@,
        f < final(interp).heap@.len(),
        final(interp).grows(old(interp)),
        final(interp).same_registers(old(interp)),
{
    let f = interp.create_native(NativeId::BooleanCtor, "Boolean", 1);
    let p = interp.boolean_prototype;
    interp.put_own(f, chars_of("prototype"), JsValue::Object(p), false);
    interp.put_own(p, chars_of("constructor"), JsValue::Object(f), false);
    f
}

} // verus!
