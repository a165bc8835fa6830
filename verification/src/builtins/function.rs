//! `Function.prototype.call`, `apply` and `bind`.
use crate::builtins::helpers::is_type_error;
use crate::interpreter::{arg_at, new_object, type_error, Interpreter};
use crate::number::chars_of;
use crate::value::{FunctionKind, JsError, JsValue, NativeId, ObjectKind};
use vstd::prelude::*;

verus! {

/// The function that object `id` is bound to, if it is a bound function.
pub open spec fn bound_target(interp: &Interpreter, id: int) -> Option<usize> {
    if 0 <= id < interp.heap@.len() {
        match interp.heap@[id].kind {
            ObjectKind::Function(FunctionKind::Bound { target, .. }) => Some(target),
            _ => None,
        }
    } else {
        None
    }
}

/// The heap index an object value names.
pub open spec fn object_id(v: JsValue) -> Option<usize> {
    match v {
        JsValue::Object(id) => Some(id),
        _ => None,
    }
}

/// The arguments after the first.
fn rest_args(args: &Vec<JsValue>) -> (r: Vec<JsValue>)
    ensures
        args@.len() == 0 ==> r@.len() == 0,
        args@.len() > 0 ==> r@.len() == args@.len() - 1,
{
    let mut out: Vec<JsValue> = Vec::new();
    let mut i: usize = 1;
    while i < args.len()
        invariant
            1 <= i,
            args@.len() > 0 ==> i <= args@.len() && out@.len() == i - 1,
            args@.len() == 0 ==> out@.len() == 0,
        decreases args@.len() - i,
    {
        out.push(args[i].copy());
        i = i + 1;
    }
    out
}

/// `f.call(thisArg, ...args)`: calls `this` with the given `this` and arguments.
pub fn function_call(interp: &mut Interpreter, this: JsValue, args: Vec<JsValue>) -> (r: Result<
    JsValue,
    JsError,
>)
    ensures
        final(interp).spends(old(interp), r is Err),
    decreases old(interp).fuel,
{
    interp.step()?;
    let this_arg = arg_at(&args, 0);
    let call_args = rest_args(&args);
    interp.call_function(this, this_arg, call_args)
}

/// `f.apply(thisArg, array)`: calls `this` with the elements of `array` as arguments;
/// `TypeError` when the second argument is a primitive other than `null` or `undefined`.
pub fn function_apply(interp: &mut Interpreter, this: JsValue, args: Vec<JsValue>) -> (r: Result<
    JsValue,
    JsError,
>)
    ensures
        final(interp).spends(old(interp), r is Err),
        (args@.len() > 1 && !(args@[1] is Object || args@[1] is Undefined || args@[1] is Null))
            ==> is_type_error(r),
    decreases old(interp).fuel,
{
    let this_arg = arg_at(&args, 0);
    let call_args: Vec<JsValue> = match arg_at(&args, 1) {
        JsValue::Object(id) => match interp.array_elements(&JsValue::Object(id)) {
            Some(e) => e,
            None => Vec::new(),
        },
        JsValue::Undefined | JsValue::Null => Vec::new(),
        _ => {
            return Err(type_error("Second argument to apply must be an array"));
        },
    };
    interp.step()?;
    interp.call_function(this, this_arg, call_args)
}

/// `f.bind(thisArg, ...args)`: a new function that calls `this` with the bound `this`
/// and the bound arguments before its own; `TypeError` when `this` is not a function.
pub fn function_bind(interp: &mut Interpreter, this: JsValue, args: Vec<JsValue>) -> (r: Result<
    JsValue,
    JsError,
>)
    ensures
        r is Err <==> !old(interp).is_function(this),
        r is Err ==> is_type_error(r) && *final(interp) == *old(interp),
        r is Ok ==> final(interp).added_one(old(interp)),
        r matches Ok(v) ==> (v matches JsValue::Object(id) && id == old(interp).heap@.len()
            && bound_target(final(interp), id as int) == object_id(this)),
{
    if !interp.is_callable(&this) {
        return Err(type_error("Bind must be called on a function"));
    }
    let target = match this {
        JsValue::Object(id) => id,
        _ => {
            return Err(type_error("Bind must be called on a function"));
        },
    };
    let this_val = arg_at(&args, 0);
    let bound = rest_args(&args);
    let proto = interp.function_prototype;
    let kind = ObjectKind::Function(FunctionKind::Bound { target, this_val, args: bound });
    Ok(JsValue::Object(interp.allocate(new_object(kind, Some(proto)))))
}

/// Installs `call`, `apply` and `bind` on `Function.prototype`.
pub fn init_function_prototype(interp: &mut Interpreter)
    ensures
        final(interp).scopes@ == old(interp).scopes@,
        final(interp).grows(old(interp)),
        final(interp).same_registers(old(interp)),
{
    let p = interp.function_prototype;
    interp.register_method(p, "call", NativeId::FunctionCall, 1);
    interp.register_method(p, "apply", NativeId::FunctionApply, 2);
    interp.register_method(p, "bind", NativeId::FunctionBind, 1);
}

/// The `Function` object, linked with `Function.prototype`.
pub fn create_function_constructor(interp: &mut Interpreter) -> (f: usize)
    ensures
        final(interp).scopes@ == old(interp).scopes@,
        f < final(interp).heap@.len(),
        final(interp).grows(old(interp)),
        final(interp).same_registers(old(interp)),
{
    let f = interp.create_native(NativeId::FunctionCtor, "Function", 1);
    let p = interp.function_prototype;
    interp.put_own(f, chars_of("prototype"), JsValue::Object(p), false);
    interp.put_own(p, chars_of("constructor"), JsValue::Object(f), false);
    f
}

/// `Function(...params, body)`: a function made from source text, in the global scope.
pub fn function_constructor_fn(interp: &mut Interpreter, this: JsValue, args: Vec<JsValue>) -> (r:
    Result<JsValue, JsError>)
    ensures
        final(interp).spends(old(interp), r is Err) || *final(interp) == *old(interp),
    decreases old(interp).fuel,
{
    let mut source = chars_of("(function anonymous(");
    let n = args.len();
    let mut first = true;
    let mut i: usize = 0;
    while n > 0 && i < n - 1
        invariant
            n == args@.len(),
            interp.spends(old(interp), false) || *interp == *old(interp),
        decreases n - i,
    {
        interp.step()?;
        let p = crate::builtins::string::text_arg(interp, &args, i)?;
        let (lo, hi) = crate::number::trim_bounds(p.as_slice());
        if lo < hi {
            if !first {
                source.push(',');
                source.push(' ');
            }
            let piece = crate::lexer::slice_chars(p.as_slice(), lo, hi);
            crate::number::append_chars(&mut source, piece.as_slice());
            first = false;
        }
        i = i + 1;
    }
    let body = if n > 0 {
        interp.step()?;
        crate::builtins::string::text_arg(interp, &args, n - 1)?
    } else {
        Vec::new()
    };
    let mid = chars_of(") { ");
    crate::number::append_chars(&mut source, mid.as_slice());
    crate::number::append_chars(&mut source, body.as_slice());
    let end = chars_of(" })");
    crate::number::append_chars(&mut source, end.as_slice());
    interp.step()?;
    crate::builtins::global::eval_code_in_scope(interp, source.as_slice(), true)
}

} // verus!
