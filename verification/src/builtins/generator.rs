//! Generator objects and the `{ value, done }` objects that iterators return.
use crate::builtins::helpers::is_type_error;
use crate::builtins::object::arg_value;
use crate::interpreter::{arg_at, lookup_prop, new_object, type_error, Interpreter};
use crate::number::chars_of;
use crate::value::{same_value, ErrorKind, GeneratorStatus, JsError, JsValue, NativeId, ObjectKind};
use vstd::prelude::*;

verus! {

/// A new ordinary object `{ value, done }`.
pub fn create_generator_result(interp: &mut Interpreter, value: JsValue, done: bool) -> (id: usize)
    ensures
        id == old(interp).heap@.len(),
        final(interp).heap@.len() == old(interp).heap@.len() + 1,
        forall|i: int| 0 <= i < old(interp).heap@.len() ==> final(interp).heap@[i] == old(interp).heap@[i],
        final(interp).same_state(old(interp)),
        lookup_prop(final(interp).heap@[id as int].props@, "value"@) == Some(value),
        lookup_prop(final(interp).heap@[id as int].props@, "done"@) == Some(JsValue::Boolean(done)),
        final(interp).heap@[id as int].proto == Some(old(interp).object_prototype),
{
    let o = interp.create_object();
    proof {
        reveal_strlit("value");
        reveal_strlit("done");
    }
    interp.put_own(o, chars_of("value"), value, true);
    interp.put_own(o, chars_of("done"), JsValue::Boolean(done), true);
    assert("value"@.len() != "done"@.len());
    o
}

/// The status of the generator that `this` names, if it names one.
pub open spec fn generator_status(interp: &Interpreter, this: JsValue) -> Option<GeneratorStatus> {
    match this {
        JsValue::Object(id) => if id < interp.heap@.len() {
            match interp.heap@[id as int].kind {
                ObjectKind::Generator(s) => Some(s),
                _ => None,
            }
        } else {
            None
        },
        _ => None,
    }
}

/// The error for a generator whose body would have to run: this interpreter walks the
/// syntax tree and keeps no suspended frames to resume.
pub open spec fn is_unsupported_resume<T>(r: Result<T, JsError>) -> bool {
    r matches Err(JsError::Raised(k, m)) && k == ErrorKind::TypeError && m@ == "Async/generators not supported"@
}

/// The generator object that `this` names and its status, or a `TypeError` with
/// `on_non_object` or `on_other` as its message.
fn this_generator(interp: &Interpreter, this: &JsValue, on_non_object: &str, on_other: &str) -> (r: Result<
    (usize, GeneratorStatus),
    JsError,
>)
    ensures
        !(*this is Object) ==> (r matches Err(JsError::Raised(k, m)) && k == ErrorKind::TypeError && m@ == on_non_object@),
        (*this is Object && generator_status(interp, *this) is None) ==> is_type_error(r),
        generator_status(interp, *this) matches Some(s) ==> (r matches Ok((id, t)) && *this == JsValue::Object(id)
            && id < interp.heap@.len() && t == s),
{
    let id = match this {
        JsValue::Object(id) => *id,
        _ => {
            return Err(type_error(on_non_object));
        },
    };
    if id >= interp.heap.len() {
        return Err(type_error(on_other));
    }
    match &interp.heap[id].kind {
        ObjectKind::Generator(s) => Ok((id, *s)),
        _ => Err(type_error(on_other)),
    }
}

/// `Generator.prototype.next(value)`: `{ value: undefined, done: true }` for a finished
/// generator; a suspended one would resume its body, which this interpreter cannot do.
pub fn generator_next(interp: &mut Interpreter, this: JsValue, args: Vec<JsValue>) -> (r: Result<JsValue, JsError>)
    ensures
        final(interp).grows(old(interp)),
        final(interp).fuel == old(interp).fuel,
        !(this is Object) ==> is_type_error(r) && *final(interp) == *old(interp),
        (this is Object && generator_status(old(interp), this) is None) ==> is_type_error(r) && *final(interp) == *old(interp),
        generator_status(old(interp), this) == Some(GeneratorStatus::Completed) ==> (r matches Ok(JsValue::Object(id))
            && id == old(interp).heap@.len()
            && lookup_prop(final(interp).heap@[id as int].props@, "done"@) == Some(JsValue::Boolean(true))
            && lookup_prop(final(interp).heap@[id as int].props@, "value"@) == Some(JsValue::Undefined)
            && generator_status(final(interp), this) == Some(GeneratorStatus::Completed)),
        (generator_status(old(interp), this) matches Some(s) && s != GeneratorStatus::Completed) ==> is_unsupported_resume(r)
            && *final(interp) == *old(interp),
{
    let (_id, status) = this_generator(
        interp,
        &this,
        "Generator.prototype.next called on non-object",
        "Generator.prototype.next called on non-generator",
    )?;
    match status {
        GeneratorStatus::Completed => {
            let res = create_generator_result(interp, JsValue::Undefined, true);
            Ok(JsValue::Object(res))
        },
        _ => Err(type_error("Async/generators not supported")),
    }
}

/// `Generator.prototype.return(value)`: finishes the generator and answers
/// `{ value, done: true }`.
pub fn generator_return(interp: &mut Interpreter, this: JsValue, args: Vec<JsValue>) -> (r: Result<JsValue, JsError>)
    ensures
        final(interp).grows(old(interp)),
        final(interp).fuel == old(interp).fuel,
        !(this is Object) ==> is_type_error(r) && *final(interp) == *old(interp),
        (this is Object && generator_status(old(interp), this) is None) ==> is_type_error(r) && *final(interp) == *old(interp),
        generator_status(old(interp), this) is Some ==> (r matches Ok(JsValue::Object(id))
            && id == old(interp).heap@.len()
            && generator_status(final(interp), this) == Some(GeneratorStatus::Completed)
            && lookup_prop(final(interp).heap@[id as int].props@, "done"@) == Some(JsValue::Boolean(true))
            && (lookup_prop(final(interp).heap@[id as int].props@, "value"@) matches Some(v) && same_value(v, arg_value(args@)))),
{
    let (id, _status) = this_generator(
        interp,
        &this,
        "Generator.prototype.return called on non-object",
        "Generator.prototype.return called on non-generator",
    )?;
    let value = arg_at(&args, 0);
    interp.heap[id].kind = ObjectKind::Generator(GeneratorStatus::Completed);
    let res = create_generator_result(interp, value, true);
    Ok(JsValue::Object(res))
}

/// `Generator.prototype.throw(exception)`: throws `exception` out of a finished or
/// not yet started generator (finishing it); a generator suspended at a `yield` would
/// resume its body, which this interpreter cannot do.
pub fn generator_throw(interp: &mut Interpreter, this: JsValue, args: Vec<JsValue>) -> (r: Result<JsValue, JsError>)
    ensures
        final(interp).grows(old(interp)),
        final(interp).fuel == old(interp).fuel,
        !(this is Object) ==> is_type_error(r) && *final(interp) == *old(interp),
        (this is Object && generator_status(old(interp), this) is None) ==> is_type_error(r) && *final(interp) == *old(interp),
        generator_status(old(interp), this) == Some(GeneratorStatus::Completed) ==> (r matches Err(JsError::Thrown(v))
            && same_value(v, arg_value(args@))) && *final(interp) == *old(interp),
        generator_status(old(interp), this) == Some(GeneratorStatus::SuspendedStart) ==> (r matches Err(JsError::Thrown(v))
            && same_value(v, arg_value(args@))) && generator_status(final(interp), this) == Some(GeneratorStatus::Completed)
            && final(interp).heap@.len() == old(interp).heap@.len(),
        generator_status(old(interp), this) == Some(GeneratorStatus::SuspendedYield) ==> is_unsupported_resume(r)
            && *final(interp) == *old(interp),
{
    let (id, status) = this_generator(
        interp,
        &this,
        "Generator.prototype.throw called on non-object",
        "Generator.prototype.throw called on non-generator",
    )?;
    let exception = arg_at(&args, 0);
    match status {
        GeneratorStatus::Completed => Err(JsError::Thrown(exception)),
        GeneratorStatus::SuspendedStart => {
            interp.heap[id].kind = ObjectKind::Generator(GeneratorStatus::Completed);
            Err(JsError::Thrown(exception))
        },
        GeneratorStatus::SuspendedYield => Err(type_error("Async/generators not supported")),
    }
}

/// `Generator.prototype[Symbol.iterator]()`: the generator itself.
pub fn generator_iterator(interp: &mut Interpreter, this: JsValue, args: Vec<JsValue>) -> (r: Result<JsValue, JsError>)
    ensures
        *final(interp) == *old(interp),
        r == Ok::<JsValue, JsError>(this),
{
    Ok(this)
}

/// A new object for `Generator.prototype`: `next`, `return`, `throw` and the iterator method.
pub fn init_generator_prototype(interp: &mut Interpreter) -> (proto: usize)
    ensures
        proto < final(interp).heap@.len(),
        final(interp).grows(old(interp)),
        final(interp).same_state(old(interp)),
        forall|i: int| 0 <= i < old(interp).heap@.len() ==> final(interp).heap@[i] == old(interp).heap@[i],
        lookup_prop(final(interp).heap@[proto as int].props@, "next"@) matches Some(JsValue::Object(f))
            && f < final(interp).heap@.len()
            && final(interp).heap@[f as int].kind == ObjectKind::Function(crate::value::FunctionKind::Native(NativeId::GeneratorNext)),
{
    let proto = interp.create_object();
    let next = interp.create_native(NativeId::GeneratorNext, "next", 1);
    let ret = interp.create_native(NativeId::GeneratorReturn, "return", 1);
    let throw = interp.create_native(NativeId::GeneratorThrow, "throw", 1);
    let iter = interp.create_native(NativeId::GeneratorIterator, "[Symbol.iterator]", 0);
    proof {
        reveal_strlit("next");
        reveal_strlit("return");
        reveal_strlit("throw");
        reveal_strlit("@@iterator");
        reveal_strlit("@@toStringTag");
    }
    interp.put_own(proto, chars_of("@@toStringTag"), JsValue::String(chars_of("Generator")), false);
    interp.put_own(proto, chars_of("return"), JsValue::Object(ret), false);
    interp.put_own(proto, chars_of("throw"), JsValue::Object(throw), false);
    interp.put_own(proto, chars_of("@@iterator"), JsValue::Object(iter), false);
    interp.put_own(proto, chars_of("next"), JsValue::Object(next), false);
    proto
}

/// A new generator object with the given status, inheriting from `proto`.
pub fn create_bytecode_generator_object(interp: &mut Interpreter, proto: usize, status: GeneratorStatus) -> (id: usize)
    ensures
        id == old(interp).heap@.len(),
        final(interp).heap@ == old(interp).heap@.push(final(interp).heap@[id as int]),
        final(interp).same_state(old(interp)),
        generator_status(final(interp), JsValue::Object(id)) == Some(status),
        final(interp).heap@[id as int].proto == Some(proto),
{
    interp.allocate(new_object(ObjectKind::Generator(status), Some(proto)))
}

} // verus!
