//! `Promise`: promises settle at once and run the reactions waiting for them when they do.
use crate::builtins::helpers::is_type_error;
use crate::builtins::maps::nth_arg;
use crate::interpreter::{arg_at, lookup_prop, new_object, raise, type_error, Interpreter};
use crate::number::chars_of;
use crate::value::{
    same_value, ErrorKind, FunctionKind, JsError, JsValue, NativeId, ObjectKind, PromiseHandler, PromiseStatus,
    Property,
};
use vstd::prelude::*;

verus! {

/// The state and settled value of `v` if it is a promise.
pub open spec fn promise_of(interp: &Interpreter, v: JsValue) -> Option<(PromiseStatus, JsValue)> {
    match v {
        JsValue::Object(id) => if id < interp.heap@.len() {
            match interp.heap@[id as int].kind {
                ObjectKind::PromiseData(st, val, _) => Some((st, val)),
                _ => None,
            }
        } else {
            None
        },
        _ => None,
    }
}

/// Heap object `id` is a promise that has settled.
/// The reactions registered on promise `id`; none for another object.
pub open spec fn reactions_of(interp: &Interpreter, id: usize) -> Seq<PromiseHandler> {
    if id < interp.heap@.len() {
        match interp.heap@[id as int].kind {
            ObjectKind::PromiseData(_, _, hs) => hs@,
            _ => Seq::empty(),
        }
    } else {
        Seq::empty()
    }
}

pub open spec fn settled_at(interp: &Interpreter, id: usize) -> bool {
    promise_of(interp, JsValue::Object(id)) matches Some((st, _)) && st != PromiseStatus::Pending
}

/// `v` is a promise that is still pending.
pub open spec fn waits(interp: &Interpreter, v: JsValue) -> bool {
    promise_of(interp, v) matches Some((st, _)) && st == PromiseStatus::Pending
}

/// The state and value of promise `id`, computed.
fn state_of(interp: &Interpreter, id: usize) -> (r: Option<(PromiseStatus, JsValue)>)
    ensures
        r matches Some((st, v)) ==> (promise_of(interp, JsValue::Object(id)) matches Some((st2, v2)) && st == st2
            && same_value(v, v2)),
        r is None <==> promise_of(interp, JsValue::Object(id)) is None,
{
    if id < interp.heap.len() {
        if let ObjectKind::PromiseData(st, v, _) = &interp.heap[id].kind {
            return Some((*st, v.copy()));
        }
    }
    None
}

/// A new promise in the given state.
fn new_promise(interp: &mut Interpreter, status: PromiseStatus, value: JsValue) -> (id: usize)
    ensures
        id == old(interp).heap@.len(),
        final(interp).added_one(old(interp)),
        promise_of(final(interp), JsValue::Object(id)) == Some((status, value)),
{
    let p = interp.promise_prototype;
    interp.allocate(new_object(ObjectKind::PromiseData(status, value, Vec::new()), Some(p)))
}

/// A new pending promise.
pub fn create_promise(interp: &mut Interpreter) -> (id: usize)
    ensures
        id == old(interp).heap@.len(),
        final(interp).added_one(old(interp)),
        promise_of(final(interp), JsValue::Object(id)) == Some((PromiseStatus::Pending, JsValue::Undefined)),
{
    new_promise(interp, PromiseStatus::Pending, JsValue::Undefined)
}

/// A new promise fulfilled with `value`.
pub fn create_fulfilled_promise(interp: &mut Interpreter, value: JsValue) -> (id: usize)
    ensures
        id == old(interp).heap@.len(),
        final(interp).added_one(old(interp)),
        promise_of(final(interp), JsValue::Object(id)) == Some((PromiseStatus::Fulfilled, value)),
{
    new_promise(interp, PromiseStatus::Fulfilled, value)
}

/// A new promise rejected with `reason`.
pub fn create_rejected_promise(interp: &mut Interpreter, reason: JsValue) -> (id: usize)
    ensures
        id == old(interp).heap@.len(),
        final(interp).added_one(old(interp)),
        promise_of(final(interp), JsValue::Object(id)) == Some((PromiseStatus::Rejected, reason)),
{
    new_promise(interp, PromiseStatus::Rejected, reason)
}

/// Settles promise `id` if it is pending, returning the reactions that waited for it.
fn settle(interp: &mut Interpreter, id: usize, status: PromiseStatus, value: &JsValue) -> (r: Result<
    Vec<PromiseHandler>,
    JsError,
>)
    ensures
        r is Err <==> promise_of(old(interp), JsValue::Object(id)) is None,
        r is Err ==> is_type_error(r) && *final(interp) == *old(interp),
        final(interp).heap@.len() == old(interp).heap@.len(),
        final(interp).same_state(old(interp)),
        promise_of(old(interp), JsValue::Object(id)) matches Some((st, _)) ==> (st != PromiseStatus::Pending
            ==> *final(interp) == *old(interp) && (r matches Ok(hs) && hs@.len() == 0)),
        promise_of(old(interp), JsValue::Object(id)) matches Some((st, _)) ==> (st == PromiseStatus::Pending
            ==> (promise_of(final(interp), JsValue::Object(id)) matches Some((st2, v2)) && st2 == status
            && same_value(v2, *value))),
        promise_of(old(interp), JsValue::Object(id)) matches Some((st, _)) ==> (st == PromiseStatus::Pending
            ==> (r matches Ok(hs) && hs@ == reactions_of(old(interp), id))
            && forall|i: int| 0 <= i < old(interp).heap@.len() && i != id ==> #[trigger] final(interp).heap@[i]
                == old(interp).heap@[i]),
{
    if id >= interp.heap.len() {
        return Err(type_error("Not a promise"));
    }
    let pending = match &interp.heap[id].kind {
        ObjectKind::PromiseData(st, _, _) => *st == PromiseStatus::Pending,
        _ => {
            return Err(type_error("Not a promise"));
        },
    };
    if !pending {
        return Ok(Vec::new());
    }
    let mut k = ObjectKind::PromiseData(status, value.copy(), Vec::new());
    std::mem::swap(&mut interp.heap[id].kind, &mut k);
    match k {
        ObjectKind::PromiseData(_, _, handlers) => Ok(handlers),
        _ => Ok(Vec::new()),
    }
}

/// Adds a reaction to pending promise `id`.
fn add_handler(interp: &mut Interpreter, id: usize, h: PromiseHandler)
    ensures
        final(interp).heap@.len() == old(interp).heap@.len(),
        forall|i: int|
            0 <= i < old(interp).heap@.len() && i != id ==> #[trigger] final(interp).heap@[i] == old(
                interp,
            ).heap@[i],
        final(interp).same_state(old(interp)),
        promise_of(final(interp), JsValue::Object(id)) == promise_of(old(interp), JsValue::Object(id)),
{
    if id < interp.heap.len() {
        if let ObjectKind::PromiseData(_, _, handlers) = &mut interp.heap[id].kind {
            handlers.push(h);
        }
    }
}

/// A `Promise.all` reaction: a function bound to one of the all-fulfilled or
/// all-rejected built-ins, whose result does not settle the promise it is registered with.
/// `cb` is a bound function whose target is one of the reaction functions of
/// `Promise.all`.
pub open spec fn all_reaction_spec(interp: &Interpreter, cb: JsValue) -> bool {
    match cb {
        JsValue::Object(id) => 0 <= id < interp.heap@.len() && match interp.heap@[id as int].kind {
            ObjectKind::Function(FunctionKind::Bound { target, .. }) => target < interp.heap@.len() && (
            interp.heap@[target as int].kind == ObjectKind::Function(
                FunctionKind::Native(NativeId::PromiseAllFulfillFn),
            ) || interp.heap@[target as int].kind == ObjectKind::Function(
                FunctionKind::Native(NativeId::PromiseAllRejectFn),
            )),
            _ => false,
        },
        _ => false,
    }
}

fn is_all_reaction(interp: &Interpreter, cb: &JsValue) -> (r: bool)
    ensures
        r == all_reaction_spec(interp, *cb),
{
    if let JsValue::Object(id) = cb {
        if *id < interp.heap.len() {
            if let ObjectKind::Function(FunctionKind::Bound { target, .. }) = &interp.heap[*id].kind {
                let t = *target;
                if t < interp.heap.len() {
                    return match &interp.heap[t].kind {
                        ObjectKind::Function(FunctionKind::Native(NativeId::PromiseAllFulfillFn)) => true,
                        ObjectKind::Function(FunctionKind::Native(NativeId::PromiseAllRejectFn)) => true,
                        _ => false,
                    };
                }
            }
        }
    }
    false
}

/// Fulfills promise `id` with `value` and runs the reactions that waited for it; a
/// settled promise stays as it is.
fn fulfill_promise(interp: &mut Interpreter, id: usize, value: JsValue) -> (r: Result<(), JsError>)
    ensures
        final(interp).spends(old(interp), r is Err),
        settled_at(old(interp), id) && old(interp).fuel > 0 ==> r is Ok
            && final(interp).heap@ == old(interp).heap@,
    decreases old(interp).fuel,
{
    interp.step()?;
    let handlers = settle(interp, id, PromiseStatus::Fulfilled, &value)?;
    run_handlers(interp, handlers, &value, true)
}

/// Rejects promise `id` with `reason` and runs the reactions that waited for it; a
/// settled promise stays as it is.
/// Pending promise `id` of `before` is rejected with `reason` in `after`, every other
/// object as it was.
pub open spec fn rejected_now(before: &Interpreter, after: &Interpreter, id: usize, reason: JsValue) -> bool {
    &&& promise_of(after, JsValue::Object(id)) matches Some((st, v)) && st == PromiseStatus::Rejected && same_value(
        v,
        reason,
    )
    &&& after.heap@.len() == before.heap@.len()
    &&& forall|i: int| 0 <= i < before.heap@.len() && i != id ==> #[trigger] after.heap@[i] == before.heap@[i]
}

fn reject_promise(interp: &mut Interpreter, id: usize, reason: JsValue) -> (r: Result<(), JsError>)
    ensures
        final(interp).spends(old(interp), r is Err),
        settled_at(old(interp), id) && old(interp).fuel > 0 ==> r is Ok
            && final(interp).heap@ == old(interp).heap@,
        waits(old(interp), JsValue::Object(id)) && reactions_of(old(interp), id).len() == 0 && old(interp).fuel > 0
            ==> r is Ok && rejected_now(old(interp), final(interp), id, reason),
    decreases old(interp).fuel,
{
    interp.step()?;
    let handlers = settle(interp, id, PromiseStatus::Rejected, &reason)?;
    run_handlers(interp, handlers, &reason, false)
}

/// Runs reactions in the order they were registered.
fn run_handlers(interp: &mut Interpreter, handlers: Vec<PromiseHandler>, value: &JsValue, fulfilled: bool) -> (r: Result<
    (),
    JsError,
>)
    ensures
        final(interp).spends(old(interp), r is Err) || *final(interp) == *old(interp),
        handlers@.len() == 0 ==> r is Ok && *final(interp) == *old(interp),
    decreases old(interp).fuel,
{
    let ghost none = handlers@.len() == 0;
    let mut pending = handlers;
    let mut hs: Vec<PromiseHandler> = Vec::new();
    while pending.len() > 0
        invariant
            none == (handlers@.len() == 0),
            none ==> pending@.len() == 0 && hs@.len() == 0,
        decreases pending@.len(),
    {
        match pending.pop() {
            Some(h) => hs.push(h),
            None => {
                break;
            },
        }
    }
    while hs.len() > 0
        invariant
            interp.spends(old(interp), false) || *interp == *old(interp),
            none == (handlers@.len() == 0),
            none ==> hs@.len() == 0 && *interp == *old(interp),
        decreases hs@.len(),
    {
        let h = match hs.pop() {
            Some(h) => h,
            None => {
                break;
            },
        };
        interp.step()?;
        trigger_handler(interp, h, value, fulfilled)?;
    }
    Ok(())
}

/// Runs one reaction: its callback's result (or thrown error) settles the reaction's
/// promise; without a callback the value passes through.
fn trigger_handler(interp: &mut Interpreter, h: PromiseHandler, value: &JsValue, fulfilled: bool) -> (r: Result<
    (),
    JsError,
>)
    ensures
        final(interp).spends(old(interp), r is Err),
    decreases old(interp).fuel,
{
    interp.step()?;
    let cb = if fulfilled {
        h.on_fulfilled
    } else {
        h.on_rejected
    };
    match cb {
        Some(cb) => {
            let all_reaction = is_all_reaction(interp, &cb);
            let mut call_args: Vec<JsValue> = Vec::new();
            call_args.push(value.copy());
            match interp.call_function(cb, JsValue::Undefined, call_args) {
                Ok(result) => {
                    if !all_reaction {
                        interp.step()?;
                        resolve_promise(interp, h.result_promise, result)?;
                    }
                    Ok(())
                },
                Err(JsError::OutOfFuel) => Err(JsError::OutOfFuel),
                Err(e) => {
                    let reason = interp.error_to_value(e);
                    interp.step()?;
                    reject_promise(interp, h.result_promise, reason)
                },
            }
        },
        None => {
            interp.step()?;
            if fulfilled {
                fulfill_promise(interp, h.result_promise, value.copy())
            } else {
                reject_promise(interp, h.result_promise, value.copy())
            }
        },
    }
}

/// Resolves promise `id` with `value`: a promise value passes its state on (now or when
/// it settles), any other value fulfills.
fn resolve_promise(interp: &mut Interpreter, id: usize, value: JsValue) -> (r: Result<(), JsError>)
    ensures
        final(interp).spends(old(interp), r is Err),
        settled_at(old(interp), id) && !waits(old(interp), value) && old(interp).fuel > 1 ==> r is Ok
            && final(interp).heap@ == old(interp).heap@,
    decreases old(interp).fuel,
{
    interp.step()?;
    if let JsValue::Object(v) = value {
        if let Some((st, result)) = state_of(interp, v) {
            match st {
                PromiseStatus::Pending => {
                    add_handler(interp, v, PromiseHandler { on_fulfilled: None, on_rejected: None, result_promise: id });
                    return Ok(());
                },
                PromiseStatus::Fulfilled => {
                    return fulfill_promise(interp, id, result);
                },
                PromiseStatus::Rejected => {
                    return reject_promise(interp, id, result);
                },
            }
        }
    }
    fulfill_promise(interp, id, value)
}

/// Resolves promise `id` with `value` (see `resolve_promise`).
pub fn resolve_promise_value(interp: &mut Interpreter, id: usize, value: JsValue) -> (r: Result<(), JsError>)
    ensures
        final(interp).spends(old(interp), r is Err) || *final(interp) == *old(interp),
        settled_at(old(interp), id) && !waits(old(interp), value) && old(interp).fuel > 2 ==> r is Ok
            && final(interp).heap@ == old(interp).heap@,
    decreases old(interp).fuel,
{
    interp.step()?;
    resolve_promise(interp, id, value)
}

/// Rejects promise `id` with `reason`.
pub fn reject_promise_value(interp: &mut Interpreter, id: usize, reason: JsValue) -> (r: Result<(), JsError>)
    ensures
        final(interp).spends(old(interp), r is Err) || *final(interp) == *old(interp),
        settled_at(old(interp), id) && old(interp).fuel > 1 ==> r is Ok
            && final(interp).heap@ == old(interp).heap@,
        waits(old(interp), JsValue::Object(id)) && reactions_of(old(interp), id).len() == 0 && old(interp).fuel > 1
            ==> r is Ok && rejected_now(old(interp), final(interp), id, reason),
    decreases old(interp).fuel,
{
    interp.step()?;
    reject_promise(interp, id, reason)
}


/// A function that calls the built-in `native` with `bound` before its own arguments.
fn bound_native(interp: &mut Interpreter, native: NativeId, bound: Vec<JsValue>) -> (id: usize)
    ensures
        id == old(interp).heap@.len() + 1,
        final(interp).heap@.len() == old(interp).heap@.len() + 2,
        forall|i: int| 0 <= i < old(interp).heap@.len() ==> final(interp).heap@[i] == old(interp).heap@[i],
        final(interp).same_state(old(interp)),
{
    let target = interp.create_native(native, "", 1);
    let proto = interp.function_prototype;
    interp.allocate(
        new_object(
            ObjectKind::Function(FunctionKind::Bound { target, this_val: JsValue::Undefined, args: bound }),
            Some(proto),
        ),
    )
}

/// The promise that `this` names, or the `TypeError` that a promise method raises.
fn this_promise(interp: &Interpreter, this: &JsValue, method: &str) -> (r: Result<usize, JsError>)
    ensures
        r matches Ok(id) ==> *this == JsValue::Object(id) && promise_of(interp, *this) is Some,
        r is Err ==> is_type_error(r),
        r is Ok <==> promise_of(interp, *this) is Some,
{
    match this {
        JsValue::Object(id) => {
            if *id < interp.heap.len() {
                if let ObjectKind::PromiseData(..) = &interp.heap[*id].kind {
                    return Ok(*id);
                }
            }
            Err(type_error("Not a promise"))
        },
        _ => Err(type_error(method)),
    }
}

/// The argument if it is callable.
fn callable_arg(interp: &Interpreter, args: &Vec<JsValue>, i: usize) -> (r: Option<JsValue>)
    ensures
        r matches Some(f) ==> interp.is_function(f),
{
    let v = arg_at(args, i);
    if interp.is_callable(&v) {
        Some(v)
    } else {
        None
    }
}

/// The resolve function handed to a promise's executor: `args` is the promise, then the value.
pub fn promise_resolve_fn(interp: &mut Interpreter, this: JsValue, args: Vec<JsValue>) -> (r: Result<
    JsValue,
    JsError,
>)
    ensures
        final(interp).spends(old(interp), r is Err) || *final(interp) == *old(interp),
        r is Ok ==> r == Ok::<JsValue, JsError>(JsValue::Undefined),
    decreases old(interp).fuel,
{
    if let JsValue::Object(p) = arg_at(&args, 0) {
        interp.step()?;
        resolve_promise_value(interp, p, arg_at(&args, 1))?;
    }
    Ok(JsValue::Undefined)
}

/// The reject function handed to a promise's executor: `args` is the promise, then the reason.
pub fn promise_reject_fn(interp: &mut Interpreter, this: JsValue, args: Vec<JsValue>) -> (r: Result<
    JsValue,
    JsError,
>)
    ensures
        final(interp).spends(old(interp), r is Err) || *final(interp) == *old(interp),
        r is Ok ==> r == Ok::<JsValue, JsError>(JsValue::Undefined),
    decreases old(interp).fuel,
{
    if let JsValue::Object(p) = arg_at(&args, 0) {
        interp.step()?;
        reject_promise_value(interp, p, arg_at(&args, 1))?;
    }
    Ok(JsValue::Undefined)
}

/// `new Promise(executor)`: calls `executor(resolve, reject)` at once; an error thrown by
/// the executor rejects the promise.
pub fn promise_constructor(interp: &mut Interpreter, this: JsValue, args: Vec<JsValue>) -> (r: Result<
    JsValue,
    JsError,
>)
    ensures
        final(interp).spends(old(interp), r is Err) || *final(interp) == *old(interp),
        !old(interp).is_function(nth_arg(args@, 0)) ==> is_type_error(r) && *final(interp) == *old(interp),
    decreases old(interp).fuel,
{
    let executor = arg_at(&args, 0);
    if !interp.is_callable(&executor) {
        return Err(type_error("Promise resolver is not a function"));
    }
    let p = create_promise(interp);
    let mut bound: Vec<JsValue> = Vec::new();
    bound.push(JsValue::Object(p));
    let resolve = bound_native(interp, NativeId::PromiseResolveFn, bound);
    let mut bound: Vec<JsValue> = Vec::new();
    bound.push(JsValue::Object(p));
    let reject = bound_native(interp, NativeId::PromiseRejectFn, bound);
    let mut call_args: Vec<JsValue> = Vec::new();
    call_args.push(JsValue::Object(resolve));
    call_args.push(JsValue::Object(reject));
    interp.step()?;
    match interp.call_function(executor, JsValue::Undefined, call_args) {
        Ok(_) => {},
        Err(JsError::OutOfFuel) => {
            return Err(JsError::OutOfFuel);
        },
        Err(e) => {
            let reason = interp.error_to_value(e);
            interp.step()?;
            reject_promise(interp, p, reason)?;
        },
    }
    Ok(JsValue::Object(p))
}

/// `p.then(onFulfilled, onRejected)`: a new promise settled by the callback that matches
/// how `p` settles (callbacks that are not functions pass the value through).
pub fn promise_then(interp: &mut Interpreter, this: JsValue, args: Vec<JsValue>) -> (r: Result<
    JsValue,
    JsError,
>)
    ensures
        final(interp).spends(old(interp), r is Err) || final(interp).grows(old(interp)),
        promise_of(old(interp), this) is None ==> is_type_error(r) && *final(interp) == *old(interp),
        promise_of(old(interp), this) matches Some((st, v)) ==> (st == PromiseStatus::Pending ==> (r
            == Ok::<JsValue, JsError>(JsValue::Object(old(interp).heap@.len() as usize)) && promise_of(final(interp), this)
            == Some((st, v)) && promise_of(final(interp), JsValue::Object(old(interp).heap@.len() as usize)) == Some(
            (PromiseStatus::Pending, JsValue::Undefined),
        ))),
    decreases old(interp).fuel,
{
    let id = this_promise(interp, &this, "Promise.prototype.then called on non-object")?;
    let on_fulfilled = callable_arg(interp, &args, 0);
    let on_rejected = callable_arg(interp, &args, 1);
    let rp = create_promise(interp);
    let h = PromiseHandler { on_fulfilled, on_rejected, result_promise: rp };
    match state_of(interp, id) {
        Some((PromiseStatus::Pending, _)) => {
            add_handler(interp, id, h);
        },
        Some((st, v)) => {
            interp.step()?;
            trigger_handler(interp, h, &v, st == PromiseStatus::Fulfilled)?;
        },
        None => {},
    }
    Ok(JsValue::Object(rp))
}

/// `p.catch(onRejected)`: `p.then(undefined, onRejected)`.
pub fn promise_catch(interp: &mut Interpreter, this: JsValue, args: Vec<JsValue>) -> (r: Result<
    JsValue,
    JsError,
>)
    ensures
        final(interp).spends(old(interp), r is Err) || final(interp).grows(old(interp)),
        promise_of(old(interp), this) is None ==> is_type_error(r) && *final(interp) == *old(interp),
        promise_of(old(interp), this) matches Some((st, v)) ==> (st == PromiseStatus::Pending && old(interp).fuel > 0 ==> (r
            == Ok::<JsValue, JsError>(JsValue::Object(old(interp).heap@.len() as usize)) && promise_of(final(interp), this)
            == Some((st, v)) && promise_of(final(interp), JsValue::Object(old(interp).heap@.len() as usize)) == Some(
            (PromiseStatus::Pending, JsValue::Undefined),
        ))),
    decreases old(interp).fuel,
{
    let mut then_args: Vec<JsValue> = Vec::new();
    then_args.push(JsValue::Undefined);
    then_args.push(arg_at(&args, 0));
    this_promise(interp, &this, "Promise.prototype.then called on non-object")?;
    interp.step()?;
    promise_then(interp, this, then_args)
}


/// `p.finally(onFinally)`: a new promise that takes `p`'s outcome once `onFinally` has run.
/// While `p` is pending, `onFinally` is registered as both reactions.
pub fn promise_finally(interp: &mut Interpreter, this: JsValue, args: Vec<JsValue>) -> (r: Result<
    JsValue,
    JsError,
>)
    ensures
        final(interp).spends(old(interp), r is Err) || final(interp).grows(old(interp)),
        promise_of(old(interp), this) is None ==> is_type_error(r) && *final(interp) == *old(interp),
        promise_of(old(interp), this) matches Some((st, v)) ==> (st == PromiseStatus::Pending ==> (r
            == Ok::<JsValue, JsError>(JsValue::Object(old(interp).heap@.len() as usize)) && promise_of(final(interp), this)
            == Some((st, v)) && promise_of(final(interp), JsValue::Object(old(interp).heap@.len() as usize)) == Some(
            (PromiseStatus::Pending, JsValue::Undefined),
        ))),
    decreases old(interp).fuel,
{
    let id = this_promise(interp, &this, "Promise.prototype.finally called on non-object")?;
    let callback = match callable_arg(interp, &args, 0) {
        Some(cb) => cb,
        None => {
            let rp = create_promise(interp);
            let h = PromiseHandler { on_fulfilled: None, on_rejected: None, result_promise: rp };
            match state_of(interp, id) {
                Some((PromiseStatus::Pending, _)) => {
                    add_handler(interp, id, h);
                },
                Some((st, v)) => {
                    interp.step()?;
                    trigger_handler(interp, h, &v, st == PromiseStatus::Fulfilled)?;
                },
                None => {},
            }
            return Ok(JsValue::Object(rp));
        },
    };
    let rp = create_promise(interp);
    match state_of(interp, id) {
        Some((PromiseStatus::Pending, _)) => {
            add_handler(
                interp,
                id,
                PromiseHandler {
                    on_fulfilled: Some(callback.copy()),
                    on_rejected: Some(callback),
                    result_promise: rp,
                },
            );
        },
        Some((st, v)) => {
            interp.step()?;
            match interp.call_function(callback, JsValue::Undefined, Vec::new()) {
                Err(JsError::OutOfFuel) => {
                    return Err(JsError::OutOfFuel);
                },
                _ => {},
            }
            interp.step()?;
            if st == PromiseStatus::Fulfilled {
                fulfill_promise(interp, rp, v)?;
            } else {
                reject_promise(interp, rp, v)?;
            }
        },
        None => {},
    }
    Ok(JsValue::Object(rp))
}

/// `Promise.resolve(value)`: `value` itself if it is a promise, else a promise fulfilled
/// with it.
pub fn promise_resolve_static(interp: &mut Interpreter, this: JsValue, args: Vec<JsValue>) -> (r: Result<
    JsValue,
    JsError,
>)
    ensures
        promise_of(old(interp), nth_arg(args@, 0)) is Some ==> r == Ok::<JsValue, JsError>(nth_arg(args@, 0))
            && *final(interp) == *old(interp),
        promise_of(old(interp), nth_arg(args@, 0)) is None ==> (r == Ok::<JsValue, JsError>(
            JsValue::Object(old(interp).heap@.len() as usize),
        ) && final(interp).added_one(old(interp)) && (promise_of(
            final(interp),
            JsValue::Object(old(interp).heap@.len() as usize),
        ) matches Some((st, v)) && st == PromiseStatus::Fulfilled && same_value(v, nth_arg(args@, 0)))),
{
    let value = arg_at(&args, 0);
    if let JsValue::Object(id) = value {
        if state_of(interp, id).is_some() {
            return Ok(value);
        }
    }
    Ok(JsValue::Object(create_fulfilled_promise(interp, value)))
}

/// `Promise.reject(reason)`: a promise rejected with `reason`.
pub fn promise_reject_static(interp: &mut Interpreter, this: JsValue, args: Vec<JsValue>) -> (r: Result<
    JsValue,
    JsError,
>)
    ensures
        r == Ok::<JsValue, JsError>(JsValue::Object(old(interp).heap@.len() as usize)),
        final(interp).added_one(old(interp)),
        promise_of(final(interp), JsValue::Object(old(interp).heap@.len() as usize)) matches Some((st, v))
            && st == PromiseStatus::Rejected && same_value(v, nth_arg(args@, 0)),
{
    Ok(JsValue::Object(create_rejected_promise(interp, arg_at(&args, 0))))
}

/// The value of a settled promise: its value if fulfilled, its reason thrown if rejected;
/// a pending promise cannot be read at once.
pub fn resolve_promise_sync(interp: &mut Interpreter, promise: usize) -> (r: Result<JsValue, JsError>)
    ensures
        *final(interp) == *old(interp),
        promise_of(old(interp), JsValue::Object(promise)) is None ==> is_type_error(r),
        promise_of(old(interp), JsValue::Object(promise)) matches Some((st, v)) ==> (st
            == PromiseStatus::Fulfilled ==> (r matches Ok(w) && same_value(w, v))),
        promise_of(old(interp), JsValue::Object(promise)) matches Some((st, v)) ==> (st
            == PromiseStatus::Rejected ==> (r matches Err(JsError::Thrown(w)) && same_value(w, v))),
        promise_of(old(interp), JsValue::Object(promise)) matches Some((st, v)) ==> (st
            == PromiseStatus::Pending ==> (r matches Err(JsError::Raised(k, _)) && k == ErrorKind::Error)),
{
    match state_of(interp, promise) {
        None => Err(type_error("Not a promise")),
        Some((PromiseStatus::Fulfilled, v)) => Ok(v),
        Some((PromiseStatus::Rejected, v)) => Err(JsError::Thrown(v)),
        Some((PromiseStatus::Pending, _)) => Err(
            raise(ErrorKind::Error, "Cannot synchronously resolve pending promise"),
        ),
    }
}


/// How `v` stands as an input of the combinators: a promise's state and value; any other
/// value counts as fulfilled with itself.
pub open spec fn outcome_of(interp: &Interpreter, v: JsValue) -> (PromiseStatus, JsValue) {
    match promise_of(interp, v) {
        Some(o) => o,
        None => (PromiseStatus::Fulfilled, v),
    }
}

/// The elements of `v` if it is an array; no elements otherwise.
pub open spec fn items_of(interp: &Interpreter, v: JsValue) -> Seq<JsValue> {
    match v {
        JsValue::Object(id) => match interp.array_at(id) {
            Some(s) => s,
            None => Seq::empty(),
        },
        _ => Seq::empty(),
    }
}

/// Input `i` of `xs` is the first whose state is `st`.
pub open spec fn first_with(interp: &Interpreter, xs: Seq<JsValue>, i: int, st: PromiseStatus) -> bool {
    &&& 0 <= i < xs.len()
    &&& outcome_of(interp, xs[i]).0 == st
    &&& forall|j: int| 0 <= j < i ==> #[trigger] outcome_of(interp, xs[j]).0 != st
}

/// No input of `xs` is in state `st`.
pub open spec fn none_with(interp: &Interpreter, xs: Seq<JsValue>, st: PromiseStatus) -> bool {
    forall|j: int| 0 <= j < xs.len() ==> #[trigger] outcome_of(interp, xs[j]).0 != st
}

/// Every input of `xs` is in state `st`.
pub open spec fn all_with(interp: &Interpreter, xs: Seq<JsValue>, st: PromiseStatus) -> bool {
    forall|j: int| 0 <= j < xs.len() ==> #[trigger] outcome_of(interp, xs[j]).0 == st
}

/// `q` is a promise in state `st` whose value is (a copy of) `v`.
pub open spec fn settled_as(interp: &Interpreter, q: JsValue, st: PromiseStatus, v: JsValue) -> bool {
    promise_of(interp, q) matches Some((s, w)) && s == st && same_value(w, v)
}

/// `q` is a promise in state `st` whose value is an array of (copies of) `vs`.
pub open spec fn settled_with_array(interp: &Interpreter, q: JsValue, st: PromiseStatus, vs: Seq<JsValue>) -> bool {
    &&& promise_of(interp, q) matches Some((s, JsValue::Object(a)))
    &&& s == st
    &&& interp.array_at(a) matches Some(es)
    &&& es.len() == vs.len()
    &&& forall|i: int| 0 <= i < vs.len() ==> same_value(#[trigger] es[i], vs[i])
}

/// Copies of a value have the same outcome.
proof fn lemma_outcome_same(interp: &Interpreter, a: JsValue, b: JsValue)
    requires
        same_value(a, b),
    ensures
        outcome_of(interp, a).0 == outcome_of(interp, b).0,
        same_value(outcome_of(interp, a).1, outcome_of(interp, b).1),
{
}

/// The outcome of `v`, computed.
fn outcome(interp: &Interpreter, v: &JsValue) -> (r: (PromiseStatus, JsValue))
    ensures
        r.0 == outcome_of(interp, *v).0,
        same_value(r.1, outcome_of(interp, *v).1),
        r.0 == PromiseStatus::Pending ==> (*v matches JsValue::Object(id) && id < interp.heap@.len()),
{
    if let JsValue::Object(id) = v {
        if let Some(o) = state_of(interp, *id) {
            return o;
        }
    }
    (PromiseStatus::Fulfilled, v.copy())
}

/// The elements of `v` if it is an array, else none.
fn items(interp: &Interpreter, v: &JsValue) -> (r: Vec<JsValue>)
    ensures
        r@.len() == items_of(interp, *v).len(),
        forall|i: int| 0 <= i < r@.len() ==> same_value(#[trigger] r@[i], items_of(interp, *v)[i]),
{
    match interp.array_elements(v) {
        Some(e) => e,
        None => Vec::new(),
    }
}

/// `Promise.all(values)`: fulfilled with the array of the values once every input is
/// fulfilled; rejected with the reason of the first rejected input.
pub fn promise_all(interp: &mut Interpreter, this: JsValue, args: Vec<JsValue>) -> (r: Result<
    JsValue,
    JsError,
>)
    ensures
        final(interp).grows(old(interp)),
        final(interp).same_state(old(interp)),
        r is Ok,
        r matches Ok(JsValue::Object(q)) && q >= old(interp).heap@.len(),
        forall|i: int|
            first_with(old(interp), items_of(old(interp), nth_arg(args@, 0)), i, PromiseStatus::Rejected)
                ==> (r matches Ok(q) && settled_as(
                final(interp),
                q,
                PromiseStatus::Rejected,
                outcome_of(old(interp), items_of(old(interp), nth_arg(args@, 0))[i]).1,
            )),
        all_with(old(interp), items_of(old(interp), nth_arg(args@, 0)), PromiseStatus::Fulfilled) ==> (r matches Ok(
            q,
        ) && settled_with_array(
            final(interp),
            q,
            PromiseStatus::Fulfilled,
            items_of(old(interp), nth_arg(args@, 0)).map_values(|x: JsValue| outcome_of(old(interp), x).1),
        )),
        none_with(old(interp), items_of(old(interp), nth_arg(args@, 0)), PromiseStatus::Rejected) && !all_with(
            old(interp),
            items_of(old(interp), nth_arg(args@, 0)),
            PromiseStatus::Fulfilled,
        ) ==> (r matches Ok(q) && promise_of(final(interp), q) == Some(
            (PromiseStatus::Pending, JsValue::Undefined),
        )),
{
    let input = arg_at(&args, 0);
    let ghost gx = items_of(interp, nth_arg(args@, 0));
    let xs = items(interp, &input);
    assert(items_of(interp, input) == gx);
    let n = xs.len();
    let mut values: Vec<JsValue> = Vec::new();
    let mut pending: Vec<usize> = Vec::new();
    let mut slots: Vec<usize> = Vec::new();
    let mut i: usize = 0;
    while i < n
        invariant
            i <= n,
            n == xs@.len(),
            xs@.len() == gx.len(),
            forall|k: int| 0 <= k < n ==> same_value(#[trigger] xs@[k], gx[k]),
            *interp == *old(interp),
            gx == items_of(old(interp), nth_arg(args@, 0)),
            values@.len() == i,
            forall|k: int| 0 <= k < i ==> #[trigger] outcome_of(old(interp), gx[k]).0 != PromiseStatus::Rejected,
            forall|k: int|
                0 <= k < i && outcome_of(old(interp), gx[k]).0 == PromiseStatus::Fulfilled ==> same_value(
                    #[trigger] values@[k],
                    outcome_of(old(interp), gx[k]).1,
                ),
            pending@.len() == slots@.len(),
            forall|m: int| 0 <= m < pending@.len() ==> #[trigger] pending@[m] < old(interp).heap@.len(),
            (pending@.len() == 0) == (forall|k: int|
                0 <= k < i ==> #[trigger] outcome_of(old(interp), gx[k]).0 == PromiseStatus::Fulfilled),
        decreases n - i,
    {
        let (st, v) = outcome(interp, &xs[i]);
        proof {
            lemma_outcome_same(interp, xs@[i as int], gx[i as int]);
        }
        match st {
            PromiseStatus::Rejected => {
                let q = create_rejected_promise(interp, v);
                proof {
                    assert forall|j: int|
                        first_with(old(interp), gx, j, PromiseStatus::Rejected) implies j == i by {
                        if j < i {
                            assert(outcome_of(old(interp), gx[j]).0 != PromiseStatus::Rejected);
                        }
                        if j > i {
                            assert(outcome_of(old(interp), gx[i as int]).0 != PromiseStatus::Rejected);
                        }
                    }
                    assert(!none_with(old(interp), gx, PromiseStatus::Rejected)) by {
                        assert(outcome_of(old(interp), gx[i as int]).0 == PromiseStatus::Rejected);
                    }
                    assert(!all_with(old(interp), gx, PromiseStatus::Fulfilled)) by {
                        assert(outcome_of(old(interp), gx[i as int]).0 == PromiseStatus::Rejected);
                    }
                }
                return Ok(JsValue::Object(q));
            },
            PromiseStatus::Fulfilled => {
                values.push(v);
            },
            PromiseStatus::Pending => {
                values.push(JsValue::Undefined);
                if let JsValue::Object(id) = xs[i] {
                    pending.push(id);
                    slots.push(i);
                }
            },
        }
        i = i + 1;
    }
    proof {
        assert(none_with(old(interp), gx, PromiseStatus::Rejected));
        assert forall|j: int| !first_with(old(interp), gx, j, PromiseStatus::Rejected) by {
            if 0 <= j < gx.len() {
                assert(outcome_of(old(interp), gx[j]).0 != PromiseStatus::Rejected);
            }
        }
    }
    if pending.len() == 0 {
        let arr = interp.create_array(values);
        let q = create_fulfilled_promise(interp, JsValue::Object(arr));
        proof {
            assert(all_with(old(interp), gx, PromiseStatus::Fulfilled));
        }
        return Ok(JsValue::Object(q));
    }
    proof {
        assert(!all_with(old(interp), gx, PromiseStatus::Fulfilled));
    }
    let rp = create_promise(interp);
    let count = pending.len();
    let state = interp.allocate(new_object(ObjectKind::PromiseAllState(values, count, rp, false), None));
    let mut m: usize = 0;
    while m < pending.len()
        invariant
            m <= pending@.len(),
            pending@.len() == slots@.len(),
            forall|k: int| 0 <= k < pending@.len() ==> #[trigger] pending@[k] < old(interp).heap@.len(),
            rp == old(interp).heap@.len(),
            rp < interp.heap@.len(),
            interp.grows(old(interp)),
            interp.same_state(old(interp)),
            promise_of(interp, JsValue::Object(rp)) == Some((PromiseStatus::Pending, JsValue::Undefined)),
        decreases pending@.len() - m,
    {
        let mut fa: Vec<JsValue> = Vec::new();
        fa.push(JsValue::Object(state));
        fa.push(JsValue::from_usize(slots[m]));
        let on_f = bound_native(interp, NativeId::PromiseAllFulfillFn, fa);
        let mut ra: Vec<JsValue> = Vec::new();
        ra.push(JsValue::Object(state));
        let on_r = bound_native(interp, NativeId::PromiseAllRejectFn, ra);
        add_handler(
            interp,
            pending[m],
            PromiseHandler {
                on_fulfilled: Some(JsValue::Object(on_f)),
                on_rejected: Some(JsValue::Object(on_r)),
                result_promise: rp,
            },
        );
        m = m + 1;
    }
    Ok(JsValue::Object(rp))
}


/// Heap object `state` is the bookkeeping of a `Promise.all` call that has not been rejected.
pub open spec fn all_state_open(interp: &Interpreter, state: usize) -> bool {
    state < interp.heap@.len() && match interp.heap@[state as int].kind {
        ObjectKind::PromiseAllState(_, _, _, rejected) => !rejected,
        _ => false,
    }
}

/// Heap object `state` is the bookkeeping of a `Promise.race` call that no input has settled.
pub open spec fn race_state_open(interp: &Interpreter, state: usize) -> bool {
    state < interp.heap@.len() && match interp.heap@[state as int].kind {
        ObjectKind::PromiseRaceState(_, settled) => !settled,
        _ => false,
    }
}

/// One input of a `Promise.all` call was fulfilled with `value`: records it at `index`;
/// the last one to arrive fulfills the combined promise with the array of values. Nothing
/// happens once the combined promise was rejected.
pub fn handle_promise_all_fulfill(interp: &mut Interpreter, state: usize, index: usize, value: JsValue) -> (r:
    Result<(), JsError>)
    ensures
        final(interp).grows(old(interp)),
        !all_state_open(old(interp), state) ==> *final(interp) == *old(interp) && r is Ok,
    decreases old(interp).fuel,
{
    if state >= interp.heap.len() {
        return Ok(());
    }
    let (remaining, rp, rejected) = match &interp.heap[state].kind {
        ObjectKind::PromiseAllState(_, remaining, rp, rejected) => (*remaining, *rp, *rejected),
        _ => {
            return Ok(());
        },
    };
    if rejected {
        return Ok(());
    }
    let left: usize = if remaining > 0 {
        remaining - 1
    } else {
        0
    };
    let mut done: Vec<JsValue> = Vec::new();
    if let ObjectKind::PromiseAllState(results, count, _, _) = &mut interp.heap[state].kind {
        if index < results.len() {
            results.set(index, value);
        }
        *count = left;
        if left == 0 {
            std::mem::swap(results, &mut done);
        }
    }
    if left == 0 && remaining > 0 {
        let arr = interp.create_array(done);
        interp.step()?;
        fulfill_promise(interp, rp, JsValue::Object(arr))?;
    }
    Ok(())
}

/// One input of a `Promise.all` call was rejected: the first rejection rejects the combined
/// promise with `reason`; later ones are ignored.
pub fn handle_promise_all_reject(interp: &mut Interpreter, state: usize, reason: JsValue) -> (r: Result<
    (),
    JsError,
>)
    ensures
        final(interp).grows(old(interp)),
        !all_state_open(old(interp), state) ==> *final(interp) == *old(interp) && r is Ok,
    decreases old(interp).fuel,
{
    if state >= interp.heap.len() {
        return Ok(());
    }
    let rp = match &interp.heap[state].kind {
        ObjectKind::PromiseAllState(_, _, rp, rejected) => if *rejected {
            return Ok(());
        } else {
            *rp
        },
        _ => {
            return Ok(());
        },
    };
    if let ObjectKind::PromiseAllState(_, _, _, rejected) = &mut interp.heap[state].kind {
        *rejected = true;
    }
    interp.step()?;
    reject_promise(interp, rp, reason)
}

/// One input of a `Promise.race` call settled: the first to settle settles the combined
/// promise the same way; later ones are ignored.
pub fn handle_promise_race_settle(
    interp: &mut Interpreter,
    state: usize,
    value: JsValue,
    is_fulfill: bool,
    _winner_index: usize,
) -> (r: Result<(), JsError>)
    ensures
        final(interp).grows(old(interp)),
        !race_state_open(old(interp), state) ==> *final(interp) == *old(interp) && r is Ok,
    decreases old(interp).fuel,
{
    if state >= interp.heap.len() {
        return Ok(());
    }
    let rp = match &interp.heap[state].kind {
        ObjectKind::PromiseRaceState(rp, settled) => if *settled {
            return Ok(());
        } else {
            *rp
        },
        _ => {
            return Ok(());
        },
    };
    if let ObjectKind::PromiseRaceState(_, settled) = &mut interp.heap[state].kind {
        *settled = true;
    }
    interp.step()?;
    if is_fulfill {
        fulfill_promise(interp, rp, value)
    } else {
        reject_promise(interp, rp, value)
    }
}

/// The heap object that argument `i` names, if any.
fn object_arg(args: &Vec<JsValue>, i: usize) -> (r: Option<usize>)
    ensures
        r matches Some(id) ==> nth_arg(args@, i as int) == JsValue::Object(id),
        r is None ==> !(nth_arg(args@, i as int) is Object),
{
    match arg_at(args, i) {
        JsValue::Object(id) => Some(id),
        _ => None,
    }
}

/// The fulfilled reaction of one `Promise.all` input: `args` is the shared state, the
/// input's index, then the value.
pub fn promise_all_fulfill_fn(interp: &mut Interpreter, this: JsValue, args: Vec<JsValue>) -> (r: Result<
    JsValue,
    JsError,
>)
    ensures
        final(interp).grows(old(interp)),
        r is Ok ==> r == Ok::<JsValue, JsError>(JsValue::Undefined),
    decreases old(interp).fuel,
{
    let index: usize = match arg_at(&args, 1) {
        JsValue::Number(n) => if n.check_wf() {
            let k = n.to_integer_clamped();
            if k >= 0 {
                k as usize
            } else {
                0
            }
        } else {
            0
        },
        _ => 0,
    };
    if let Some(state) = object_arg(&args, 0) {
        interp.step()?;
        handle_promise_all_fulfill(interp, state, index, arg_at(&args, 2))?;
    }
    Ok(JsValue::Undefined)
}

/// The rejected reaction of the `Promise.all` inputs: `args` is the shared state, then the
/// reason.
pub fn promise_all_reject_fn(interp: &mut Interpreter, this: JsValue, args: Vec<JsValue>) -> (r: Result<
    JsValue,
    JsError,
>)
    ensures
        final(interp).grows(old(interp)),
        r is Ok ==> r == Ok::<JsValue, JsError>(JsValue::Undefined),
    decreases old(interp).fuel,
{
    if let Some(state) = object_arg(&args, 0) {
        interp.step()?;
        handle_promise_all_reject(interp, state, arg_at(&args, 1))?;
    }
    Ok(JsValue::Undefined)
}

/// The reactions of the `Promise.race` inputs: `args` is the shared state, whether the
/// input was fulfilled, then its value.
pub fn promise_race_settle_fn(interp: &mut Interpreter, this: JsValue, args: Vec<JsValue>) -> (r: Result<
    JsValue,
    JsError,
>)
    ensures
        final(interp).grows(old(interp)),
        r is Ok ==> r == Ok::<JsValue, JsError>(JsValue::Undefined),
    decreases old(interp).fuel,
{
    let is_fulfill = match arg_at(&args, 1) {
        JsValue::Boolean(b) => b,
        _ => false,
    };
    if let Some(state) = object_arg(&args, 0) {
        interp.step()?;
        handle_promise_race_settle(interp, state, arg_at(&args, 2), is_fulfill, 0)?;
    }
    Ok(JsValue::Undefined)
}


/// Input `i` of `xs` is the first that is not pending.
pub open spec fn first_settled(interp: &Interpreter, xs: Seq<JsValue>, i: int) -> bool {
    &&& 0 <= i < xs.len()
    &&& outcome_of(interp, xs[i]).0 != PromiseStatus::Pending
    &&& forall|j: int| 0 <= j < i ==> #[trigger] outcome_of(interp, xs[j]).0 == PromiseStatus::Pending
}

/// `Promise.race(values)`: settles as the first input to settle; the inputs that have
/// settled already decide in order, and with none it stays pending.
pub fn promise_race(interp: &mut Interpreter, this: JsValue, args: Vec<JsValue>) -> (r: Result<
    JsValue,
    JsError,
>)
    ensures
        final(interp).grows(old(interp)),
        final(interp).same_state(old(interp)),
        r is Ok,
        forall|i: int|
            first_settled(old(interp), items_of(old(interp), nth_arg(args@, 0)), i) ==> (r matches Ok(q)
                && settled_as(
                final(interp),
                q,
                outcome_of(old(interp), items_of(old(interp), nth_arg(args@, 0))[i]).0,
                outcome_of(old(interp), items_of(old(interp), nth_arg(args@, 0))[i]).1,
            )),
        all_with(old(interp), items_of(old(interp), nth_arg(args@, 0)), PromiseStatus::Pending) ==> (r matches Ok(
            q,
        ) && promise_of(final(interp), q) == Some((PromiseStatus::Pending, JsValue::Undefined))),
{
    let input = arg_at(&args, 0);
    let ghost gx = items_of(interp, nth_arg(args@, 0));
    let xs = items(interp, &input);
    assert(items_of(interp, input) == gx);
    let n = xs.len();
    let mut pending: Vec<usize> = Vec::new();
    let mut i: usize = 0;
    while i < n
        invariant
            i <= n,
            n == xs@.len(),
            xs@.len() == gx.len(),
            forall|k: int| 0 <= k < n ==> same_value(#[trigger] xs@[k], gx[k]),
            *interp == *old(interp),
            gx == items_of(old(interp), nth_arg(args@, 0)),
            forall|k: int| 0 <= k < i ==> #[trigger] outcome_of(old(interp), gx[k]).0 == PromiseStatus::Pending,
            forall|m: int| 0 <= m < pending@.len() ==> #[trigger] pending@[m] < old(interp).heap@.len(),
        decreases n - i,
    {
        let (st, v) = outcome(interp, &xs[i]);
        proof {
            lemma_outcome_same(interp, xs@[i as int], gx[i as int]);
        }
        if st != PromiseStatus::Pending {
            let q = new_promise(interp, st, v);
            proof {
                assert forall|j: int| first_settled(old(interp), gx, j) implies j == i by {
                    if j < i {
                        assert(outcome_of(old(interp), gx[j]).0 == PromiseStatus::Pending);
                    }
                    if j > i {
                        assert(outcome_of(old(interp), gx[i as int]).0 == PromiseStatus::Pending);
                    }
                }
                assert(!all_with(old(interp), gx, PromiseStatus::Pending)) by {
                    assert(outcome_of(old(interp), gx[i as int]).0 != PromiseStatus::Pending);
                }
            }
            return Ok(JsValue::Object(q));
        }
        if let JsValue::Object(id) = xs[i] {
            pending.push(id);
        }
        i = i + 1;
    }
    proof {
        assert forall|j: int| !first_settled(old(interp), gx, j) by {
            if 0 <= j < gx.len() {
                assert(outcome_of(old(interp), gx[j]).0 == PromiseStatus::Pending);
            }
        }
    }
    let rp = create_promise(interp);
    let state = interp.allocate(new_object(ObjectKind::PromiseRaceState(rp, false), None));
    let mut m: usize = 0;
    while m < pending.len()
        invariant
            m <= pending@.len(),
            forall|k: int| 0 <= k < pending@.len() ==> #[trigger] pending@[k] < old(interp).heap@.len(),
            rp == old(interp).heap@.len(),
            rp < interp.heap@.len(),
            interp.grows(old(interp)),
            interp.same_state(old(interp)),
            promise_of(interp, JsValue::Object(rp)) == Some((PromiseStatus::Pending, JsValue::Undefined)),
        decreases pending@.len() - m,
    {
        let mut fa: Vec<JsValue> = Vec::new();
        fa.push(JsValue::Object(state));
        fa.push(JsValue::Boolean(true));
        let on_f = bound_native(interp, NativeId::PromiseRaceSettleFn, fa);
        let mut ra: Vec<JsValue> = Vec::new();
        ra.push(JsValue::Object(state));
        ra.push(JsValue::Boolean(false));
        let on_r = bound_native(interp, NativeId::PromiseRaceSettleFn, ra);
        add_handler(
            interp,
            pending[m],
            PromiseHandler {
                on_fulfilled: Some(JsValue::Object(on_f)),
                on_rejected: Some(JsValue::Object(on_r)),
                result_promise: rp,
            },
        );
        m = m + 1;
    }
    Ok(JsValue::Object(rp))
}


/// Property `key` of `ps` is the text `t`.
pub open spec fn text_prop(ps: Seq<Property>, key: Seq<char>, t: Seq<char>) -> bool {
    lookup_prop(ps, key) matches Some(JsValue::String(s)) && s@ == t
}

/// `rec` is an object that reports the outcome `(st, v)` as `Promise.allSettled` does:
/// `{status: "fulfilled", value}`, `{status: "rejected", reason}` or `{status: "pending"}`.
pub open spec fn reports_outcome(interp: &Interpreter, rec: JsValue, st: PromiseStatus, v: JsValue) -> bool {
    &&& rec matches JsValue::Object(id)
    &&& id < interp.heap@.len()
    &&& match st {
        PromiseStatus::Fulfilled => text_prop(interp.heap@[id as int].props@, "status"@, "fulfilled"@) && (lookup_prop(
            interp.heap@[id as int].props@,
            "value"@,
        ) matches Some(w) && same_value(w, v)),
        PromiseStatus::Rejected => text_prop(interp.heap@[id as int].props@, "status"@, "rejected"@) && (lookup_prop(
            interp.heap@[id as int].props@,
            "reason"@,
        ) matches Some(w) && same_value(w, v)),
        PromiseStatus::Pending => text_prop(interp.heap@[id as int].props@, "status"@, "pending"@),
    }
}

/// `q` is a promise fulfilled with an array of reports of `outs`, in order.
pub open spec fn reports_all(interp: &Interpreter, q: JsValue, outs: Seq<(PromiseStatus, JsValue)>) -> bool {
    &&& promise_of(interp, q) matches Some((st, JsValue::Object(a)))
    &&& st == PromiseStatus::Fulfilled
    &&& interp.array_at(a) matches Some(es)
    &&& es.len() == outs.len()
    &&& forall|i: int| 0 <= i < es.len() ==> reports_outcome(interp, #[trigger] es[i], outs[i].0, outs[i].1)
}

/// A new object reporting the outcome `(st, v)`.
fn outcome_record(interp: &mut Interpreter, st: PromiseStatus, v: JsValue) -> (id: usize)
    ensures
        id == old(interp).heap@.len(),
        final(interp).heap@.len() == old(interp).heap@.len() + 1,
        forall|i: int| 0 <= i < old(interp).heap@.len() ==> final(interp).heap@[i] == old(interp).heap@[i],
        final(interp).same_state(old(interp)),
        reports_outcome(final(interp), JsValue::Object(id), st, v),
{
    let o = interp.create_object();
    proof {
        reveal_strlit("status");
        reveal_strlit("value");
        reveal_strlit("reason");
    }
    match st {
        PromiseStatus::Fulfilled => {
            interp.put_own(o, chars_of("status"), JsValue::String(chars_of("fulfilled")), true);
            interp.put_own(o, chars_of("value"), v, true);
            assert("value"@.len() != "status"@.len());
        },
        PromiseStatus::Rejected => {
            interp.put_own(o, chars_of("status"), JsValue::String(chars_of("rejected")), true);
            interp.put_own(o, chars_of("reason"), v, true);
            assert("reason"@[0] != "status"@[0]);
        },
        PromiseStatus::Pending => {
            interp.put_own(o, chars_of("status"), JsValue::String(chars_of("pending")), true);
        },
    }
    o
}

/// `Promise.allSettled(values)`: a promise fulfilled at once with one report per input,
/// in order, of how that input stands now.
pub fn promise_allsettled(interp: &mut Interpreter, this: JsValue, args: Vec<JsValue>) -> (r: Result<
    JsValue,
    JsError,
>)
    ensures
        final(interp).grows(old(interp)),
        final(interp).same_state(old(interp)),
        r matches Ok(q) && reports_all(
            final(interp),
            q,
            items_of(old(interp), nth_arg(args@, 0)).map_values(|x: JsValue| outcome_of(old(interp), x)),
        ),
{
    let input = arg_at(&args, 0);
    let ghost gx = items_of(interp, nth_arg(args@, 0));
    let xs = items(interp, &input);
    assert(items_of(interp, input) == gx);
    let n = xs.len();
    let mut outs: Vec<(PromiseStatus, JsValue)> = Vec::new();
    let mut i: usize = 0;
    while i < n
        invariant
            i <= n,
            n == xs@.len(),
            xs@.len() == gx.len(),
            forall|k: int| 0 <= k < n ==> same_value(#[trigger] xs@[k], gx[k]),
            *interp == *old(interp),
            outs@.len() == i,
            forall|k: int|
                0 <= k < i ==> (#[trigger] outs@[k]).0 == outcome_of(old(interp), gx[k]).0 && same_value(
                    outs@[k].1,
                    outcome_of(old(interp), gx[k]).1,
                ),
        decreases n - i,
    {
        let o = outcome(interp, &xs[i]);
        proof {
            lemma_outcome_same(interp, xs@[i as int], gx[i as int]);
        }
        outs.push(o);
        i = i + 1;
    }
    let mut recs: Vec<JsValue> = Vec::new();
    let mut i: usize = 0;
    while i < n
        invariant
            i <= n,
            n == outs@.len(),
            forall|k: int|
                0 <= k < n ==> (#[trigger] outs@[k]).0 == outcome_of(old(interp), gx[k]).0 && same_value(
                    outs@[k].1,
                    outcome_of(old(interp), gx[k]).1,
                ),
            gx.len() == n,
            gx == items_of(old(interp), nth_arg(args@, 0)),
            interp.heap@.len() >= old(interp).heap@.len(),
            forall|k: int| 0 <= k < old(interp).heap@.len() ==> interp.heap@[k] == old(interp).heap@[k],
            interp.same_state(old(interp)),
            recs@.len() == i,
            forall|k: int|
                0 <= k < i ==> reports_outcome(
                    interp,
                    #[trigger] recs@[k],
                    outcome_of(old(interp), gx[k]).0,
                    outcome_of(old(interp), gx[k]).1,
                ),
        decreases n - i,
    {
        let ghost before = *interp;
        let o = outcome_record(interp, outs[i].0, outs[i].1.copy());
        proof {
            assert forall|k: int| 0 <= k < i implies reports_outcome(
                interp,
                #[trigger] recs@[k],
                outcome_of(old(interp), gx[k]).0,
                outcome_of(old(interp), gx[k]).1,
            ) by {
                assert(reports_outcome(&before, recs@[k], outcome_of(old(interp), gx[k]).0, outcome_of(old(interp), gx[k]).1));
            }
        }
        recs.push(JsValue::Object(o));
        i = i + 1;
    }
    let arr = interp.create_array(recs);
    let q = create_fulfilled_promise(interp, JsValue::Object(arr));
    Ok(JsValue::Object(q))
}


/// `Promise.any(values)`: fulfilled with the first input that is fulfilled; rejected with
/// the array of the reasons when every input is rejected (with a message when there are
/// none); pending otherwise.
pub fn promise_any(interp: &mut Interpreter, this: JsValue, args: Vec<JsValue>) -> (r: Result<
    JsValue,
    JsError,
>)
    ensures
        final(interp).grows(old(interp)),
        final(interp).same_state(old(interp)),
        r is Ok,
        forall|i: int|
            first_with(old(interp), items_of(old(interp), nth_arg(args@, 0)), i, PromiseStatus::Fulfilled)
                ==> (r matches Ok(q) && settled_as(
                final(interp),
                q,
                PromiseStatus::Fulfilled,
                outcome_of(old(interp), items_of(old(interp), nth_arg(args@, 0))[i]).1,
            )),
        items_of(old(interp), nth_arg(args@, 0)).len() == 0 ==> (r matches Ok(q) && promise_of(final(interp), q)
            matches Some((st, JsValue::String(t))) && st == PromiseStatus::Rejected && t@
            == "All promises were rejected"@),
        items_of(old(interp), nth_arg(args@, 0)).len() > 0 && all_with(
            old(interp),
            items_of(old(interp), nth_arg(args@, 0)),
            PromiseStatus::Rejected,
        ) ==> (r matches Ok(q) && settled_with_array(
            final(interp),
            q,
            PromiseStatus::Rejected,
            items_of(old(interp), nth_arg(args@, 0)).map_values(|x: JsValue| outcome_of(old(interp), x).1),
        )),
        none_with(old(interp), items_of(old(interp), nth_arg(args@, 0)), PromiseStatus::Fulfilled) && !none_with(
            old(interp),
            items_of(old(interp), nth_arg(args@, 0)),
            PromiseStatus::Pending,
        ) ==> (r matches Ok(q) && promise_of(final(interp), q) == Some(
            (PromiseStatus::Pending, JsValue::Undefined),
        )),
{
    let input = arg_at(&args, 0);
    let ghost gx = items_of(interp, nth_arg(args@, 0));
    let xs = items(interp, &input);
    assert(items_of(interp, input) == gx);
    let n = xs.len();
    if n == 0 {
        let q = create_rejected_promise(interp, JsValue::String(chars_of("All promises were rejected")));
        return Ok(JsValue::Object(q));
    }
    let mut errors: Vec<JsValue> = Vec::new();
    let mut any_pending = false;
    let mut i: usize = 0;
    while i < n
        invariant
            i <= n,
            n == xs@.len(),
            xs@.len() == gx.len(),
            forall|k: int| 0 <= k < n ==> same_value(#[trigger] xs@[k], gx[k]),
            *interp == *old(interp),
            gx == items_of(old(interp), nth_arg(args@, 0)),
            forall|k: int| 0 <= k < i ==> #[trigger] outcome_of(old(interp), gx[k]).0 != PromiseStatus::Fulfilled,
            !any_pending ==> errors@.len() == i && forall|k: int|
                0 <= k < i ==> #[trigger] outcome_of(old(interp), gx[k]).0 == PromiseStatus::Rejected
                    && same_value(errors@[k], outcome_of(old(interp), gx[k]).1),
            any_pending ==> exists|k: int|
                0 <= k < i && #[trigger] outcome_of(old(interp), gx[k]).0 == PromiseStatus::Pending,
        decreases n - i,
    {
        let (st, v) = outcome(interp, &xs[i]);
        proof {
            lemma_outcome_same(interp, xs@[i as int], gx[i as int]);
        }
        match st {
            PromiseStatus::Fulfilled => {
                let q = create_fulfilled_promise(interp, v);
                proof {
                    assert forall|j: int|
                        first_with(old(interp), gx, j, PromiseStatus::Fulfilled) implies j == i by {
                        if j < i {
                            assert(outcome_of(old(interp), gx[j]).0 != PromiseStatus::Fulfilled);
                        }
                        if j > i {
                            assert(outcome_of(old(interp), gx[i as int]).0 != PromiseStatus::Fulfilled);
                        }
                    }
                    assert(!none_with(old(interp), gx, PromiseStatus::Fulfilled)) by {
                        assert(outcome_of(old(interp), gx[i as int]).0 == PromiseStatus::Fulfilled);
                    }
                    assert(!all_with(old(interp), gx, PromiseStatus::Rejected)) by {
                        assert(outcome_of(old(interp), gx[i as int]).0 == PromiseStatus::Fulfilled);
                    }
                }
                return Ok(JsValue::Object(q));
            },
            PromiseStatus::Rejected => {
                errors.push(v);
            },
            PromiseStatus::Pending => {
                any_pending = true;
            },
        }
        i = i + 1;
    }
    proof {
        assert forall|j: int| !first_with(old(interp), gx, j, PromiseStatus::Fulfilled) by {
            if 0 <= j < gx.len() {
                assert(outcome_of(old(interp), gx[j]).0 != PromiseStatus::Fulfilled);
            }
        }
    }
    if !any_pending {
        let ghost reasons = errors@;
        let arr = interp.create_array(errors);
        let q = create_rejected_promise(interp, JsValue::Object(arr));
        proof {
            assert(none_with(old(interp), gx, PromiseStatus::Pending));
            let vs = gx.map_values(|x: JsValue| outcome_of(old(interp), x).1);
            assert forall|k: int| 0 <= k < vs.len() implies same_value(#[trigger] reasons[k], vs[k]) by {
                assert(outcome_of(old(interp), gx[k]).0 == PromiseStatus::Rejected);
            }
        }
        return Ok(JsValue::Object(q));
    }
    proof {
        let k = choose|k: int| 0 <= k < n && #[trigger] outcome_of(old(interp), gx[k]).0 == PromiseStatus::Pending;
        assert(!all_with(old(interp), gx, PromiseStatus::Rejected));
        assert(!none_with(old(interp), gx, PromiseStatus::Pending));
    }
    let q = create_promise(interp);
    Ok(JsValue::Object(q))
}

/// Installs `then`, `catch` and `finally` on `Promise.prototype`.
pub fn init_promise_prototype(interp: &mut Interpreter)
    ensures
        final(interp).scopes@ == old(interp).scopes@,
        final(interp).grows(old(interp)),
        final(interp).same_registers(old(interp)),
{
    let p = interp.promise_prototype;
    interp.register_method(p, "then", NativeId::PromiseThen, 2);
    interp.register_method(p, "catch", NativeId::PromiseCatch, 1);
    interp.register_method(p, "finally", NativeId::PromiseFinally, 1);
}

/// The `Promise` constructor, linked with `Promise.prototype`, with its static methods.
pub fn create_promise_constructor(interp: &mut Interpreter) -> (f: usize)
    ensures
        final(interp).grows(old(interp)),
        final(interp).same_state(old(interp)),
        f < final(interp).heap@.len(),
{
    let f = interp.create_native(NativeId::PromiseCtor, "Promise", 1);
    let p = interp.promise_prototype;
    interp.put_own(f, chars_of("prototype"), JsValue::Object(p), false);
    interp.put_own(p, chars_of("constructor"), JsValue::Object(f), false);
    interp.register_method(f, "resolve", NativeId::PromiseResolve, 1);
    interp.register_method(f, "reject", NativeId::PromiseReject, 1);
    interp.register_method(f, "all", NativeId::PromiseAll, 1);
    interp.register_method(f, "race", NativeId::PromiseRace, 1);
    interp.register_method(f, "allSettled", NativeId::PromiseAllSettled, 1);
    interp.register_method(f, "any", NativeId::PromiseAny, 1);
    f
}

} // verus!
