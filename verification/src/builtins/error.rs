//! `Error` and its subtypes.

use crate::interpreter::{chain_read, global_set, lookup_prop, new_object, scope_value, Interpreter, Scope};
use crate::number::{append_chars, chars_of};
use crate::value::{copy_chars, ErrorKind, FunctionKind, JsError, JsObject, JsValue, NativeId, ObjectKind, PropertyKey};
use vstd::prelude::*;

verus! {

/// The name of an error kind.
pub open spec fn kind_name(kind: ErrorKind) -> Seq<char> {
    match kind {
        ErrorKind::Error => "Error"@,
        ErrorKind::TypeError => "TypeError"@,
        ErrorKind::RangeError => "RangeError"@,
        ErrorKind::ReferenceError => "ReferenceError"@,
        ErrorKind::SyntaxError => "SyntaxError"@,
        ErrorKind::UriError => "URIError"@,
        ErrorKind::EvalError => "EvalError"@,
    }
}

/// What `String(error)` gives: `name`, or `name: message` when there is a message.
pub open spec fn error_line(name: Seq<char>, message: Seq<char>) -> Seq<char> {
    if message.len() == 0 {
        name
    } else {
        name + ": "@ + message
    }
}

/// The name of an error kind.
pub fn kind_text(kind: ErrorKind) -> (r: Vec<char>)
    ensures
        r@ == kind_name(kind),
{
    match kind {
        ErrorKind::Error => chars_of("Error"),
        ErrorKind::TypeError => chars_of("TypeError"),
        ErrorKind::RangeError => chars_of("RangeError"),
        ErrorKind::ReferenceError => chars_of("ReferenceError"),
        ErrorKind::SyntaxError => chars_of("SyntaxError"),
        ErrorKind::UriError => chars_of("URIError"),
        ErrorKind::EvalError => chars_of("EvalError"),
    }
}

/// `name` or `name: message`.
pub fn join_error_line(name: &Vec<char>, message: &Vec<char>) -> (r: Vec<char>)
    ensures
        r@ == error_line(name@, message@),
{
    let mut out = copy_chars(name);
    if message.len() > 0 {
        append_chars(&mut out, chars_of(": ").as_slice());
        append_chars(&mut out, message.as_slice());
    }
    proof {
        if message@.len() > 0 {
            assert(out@ =~= name@ + ": "@ + message@);
        }
    }
    out
}

/// A new error object of `kind` with `message`: its own `name`, `message` and `stack`.
pub fn create_error_object(interp: &mut Interpreter, kind: ErrorKind, message: Vec<char>) -> (id: usize)
    ensures
        id == old(interp).heap@.len(),
        final(interp).added_one(old(interp)),
        final(interp).heap@[id as int].kind == ObjectKind::Error(kind),
        final(interp).heap@[id as int].proto == Some(old(interp).error_prototype),
        lookup_prop(final(interp).heap@[id as int].props@, "name"@) matches Some(JsValue::String(n))
            && n@ == kind_name(kind),
        lookup_prop(final(interp).heap@[id as int].props@, "message"@) matches Some(JsValue::String(m))
            && m@ == message@,
{
    let proto = interp.error_prototype;
    let id = interp.allocate(new_object(ObjectKind::Error(kind), Some(proto)));
    let name = kind_text(kind);
    let stack = join_error_line(&name, &message);
    let ghost msg = message@;
    let ghost nm = name@;
    proof {
        reveal_strlit("name");
        reveal_strlit("message");
        reveal_strlit("stack");
    }
    interp.put_own(id, chars_of("stack"), JsValue::String(stack), false);
    interp.put_own(id, chars_of("message"), JsValue::String(message), false);
    let ghost mid = interp.heap@[id as int].props@;
    assert(lookup_prop(mid, "message"@) matches Some(JsValue::String(m)) && m@ == msg);
    interp.put_own(id, chars_of("name"), JsValue::String(name), false);
    assert("message"@.len() != "name"@.len());
    assert(lookup_prop(interp.heap@[id as int].props@, "message"@) == lookup_prop(mid, "message"@));
    id
}

/// The text of error object `id`: its `name` and `message` as `String(error)` shows them.
/// The text of a value read as a string field: the string itself, `default` for
/// anything else.
pub open spec fn text_or(v: JsValue, default: Seq<char>) -> Seq<char> {
    match v {
        JsValue::String(s) => s@,
        _ => default,
    }
}

/// `t` is the `name: message` text of error object `id`: its `name` and `message` are
/// read through the prototype chain, a name that is no string counting as `Error` and a
/// message that is no string as empty.
pub open spec fn error_text_spec(heap: Seq<JsObject>, id: usize, t: Seq<char>) -> bool {
        exists|kn: Vec<char>, km: Vec<char>, n: JsValue, m: JsValue|
            #![trigger chain_read(heap, id as int, PropertyKey::Name(kn), heap.len(), n), chain_read(heap, id as int, PropertyKey::Name(km), heap.len(), m)]
            {
                &&& kn@ == "name"@
                &&& km@ == "message"@
                &&& chain_read(heap, id as int, PropertyKey::Name(kn), heap.len(), n)
                &&& chain_read(heap, id as int, PropertyKey::Name(km), heap.len(), m)
                &&& t == error_line(text_or(n, "Error"@), text_or(m, Seq::empty()))
            }
}

/// `name: message` of an error object: its `name` and `message` are read through the
/// prototype chain, a name that is no string counting as `Error` and a message that
/// is no string as empty.
pub fn error_text(interp: &Interpreter, id: usize) -> (r: Vec<char>)
    ensures
        error_text_spec(interp.heap@, id, r@),
{
    let kn = PropertyKey::Name(chars_of("name"));
    let nv = interp.get_property(id, &kn);
    let name = match nv {
        JsValue::String(s) => s,
        _ => chars_of("Error"),
    };
    let km = PropertyKey::Name(chars_of("message"));
    let mv = interp.get_property(id, &km);
    let message = match mv {
        JsValue::String(s) => s,
        _ => Vec::new(),
    };
    assert(message@ == text_or(mv, Seq::empty()));
    join_error_line(&name, &message)
}

/// `Error.prototype.toString`.
pub fn error_to_string(interp: &mut Interpreter, this: JsValue, args: Vec<JsValue>) -> (r: Result<
    JsValue,
    JsError,
>)
    ensures
        *final(interp) == *old(interp),
        !(this is Object) ==> (r matches Ok(JsValue::String(s)) && s@ == "Error"@),
        r is Ok,
        this matches JsValue::Object(id) ==> (r matches Ok(JsValue::String(s)) && error_text_spec(
            old(interp).heap@,
            id,
            s@,
        )),
{
    match this {
        JsValue::Object(id) => Ok(JsValue::String(error_text(interp, id))),
        _ => Ok(JsValue::String(chars_of("Error"))),
    }
}

/// An error constructor: `Error(message)` and `new Error(message)` give a new error object.
pub fn construct_error(interp: &mut Interpreter, kind: ErrorKind, args: Vec<JsValue>) -> (r: Result<
    JsValue,
    JsError,
>)
    ensures
        final(interp).grows(old(interp)),
        r matches Ok(v) ==> v matches JsValue::Object(id) && id < final(interp).heap@.len()
            && final(interp).heap@[id as int].kind == ObjectKind::Error(kind),
        (args@.len() == 0 || args@[0] is Undefined || args@[0] is String) ==> r is Ok,
        (args@.len() > 0 && args@[0] is String) ==> (r matches Ok(JsValue::Object(id))
            && lookup_prop(final(interp).heap@[id as int].props@, "message"@) matches Some(
            JsValue::String(m),
        ) && m@ == args@[0]->String_0@),
    decreases old(interp).fuel,
{
    let message: Vec<char> = if args.len() == 0 {
        Vec::new()
    } else {
        match &args[0] {
            JsValue::Undefined => Vec::new(),
            JsValue::String(s) => copy_chars(s),
            v => {
                interp.step()?;
                interp.to_js_string(v)?
            },
        }
    };
    let id = create_error_object(interp, kind, message);
    Ok(JsValue::Object(id))
}

/// `Error(message)`.
pub fn error_constructor(interp: &mut Interpreter, this: JsValue, args: Vec<JsValue>) -> (r: Result<
    JsValue,
    JsError,
>)
    ensures
        final(interp).grows(old(interp)),
        r matches Ok(v) ==> v matches JsValue::Object(id) && id < final(interp).heap@.len()
            && final(interp).heap@[id as int].kind == ObjectKind::Error(ErrorKind::Error),
        (args@.len() == 0 || args@[0] is Undefined || args@[0] is String) ==> r is Ok,
    decreases old(interp).fuel,
{
    construct_error(interp, ErrorKind::Error, args)
}

/// `TypeError(message)`.
pub fn type_error_constructor(interp: &mut Interpreter, this: JsValue, args: Vec<JsValue>) -> (r: Result<
    JsValue,
    JsError,
>)
    ensures
        final(interp).grows(old(interp)),
        r matches Ok(v) ==> v matches JsValue::Object(id) && id < final(interp).heap@.len()
            && final(interp).heap@[id as int].kind == ObjectKind::Error(ErrorKind::TypeError),
        (args@.len() == 0 || args@[0] is Undefined || args@[0] is String) ==> r is Ok,
    decreases old(interp).fuel,
{
    construct_error(interp, ErrorKind::TypeError, args)
}

/// `RangeError(message)`.
pub fn range_error_constructor(interp: &mut Interpreter, this: JsValue, args: Vec<JsValue>) -> (r: Result<
    JsValue,
    JsError,
>)
    ensures
        final(interp).grows(old(interp)),
        r matches Ok(v) ==> v matches JsValue::Object(id) && id < final(interp).heap@.len()
            && final(interp).heap@[id as int].kind == ObjectKind::Error(ErrorKind::RangeError),
        (args@.len() == 0 || args@[0] is Undefined || args@[0] is String) ==> r is Ok,
    decreases old(interp).fuel,
{
    construct_error(interp, ErrorKind::RangeError, args)
}

/// `ReferenceError(message)`.
pub fn reference_error_constructor(interp: &mut Interpreter, this: JsValue, args: Vec<JsValue>) -> (r:
    Result<JsValue, JsError>)
    ensures
        final(interp).grows(old(interp)),
        r matches Ok(v) ==> v matches JsValue::Object(id) && id < final(interp).heap@.len()
            && final(interp).heap@[id as int].kind == ObjectKind::Error(ErrorKind::ReferenceError),
        (args@.len() == 0 || args@[0] is Undefined || args@[0] is String) ==> r is Ok,
    decreases old(interp).fuel,
{
    construct_error(interp, ErrorKind::ReferenceError, args)
}

/// `SyntaxError(message)`.
pub fn syntax_error_constructor(interp: &mut Interpreter, this: JsValue, args: Vec<JsValue>) -> (r:
    Result<JsValue, JsError>)
    ensures
        final(interp).grows(old(interp)),
        r matches Ok(v) ==> v matches JsValue::Object(id) && id < final(interp).heap@.len()
            && final(interp).heap@[id as int].kind == ObjectKind::Error(ErrorKind::SyntaxError),
        (args@.len() == 0 || args@[0] is Undefined || args@[0] is String) ==> r is Ok,
    decreases old(interp).fuel,
{
    construct_error(interp, ErrorKind::SyntaxError, args)
}

/// `URIError(message)`.
pub fn uri_error_constructor(interp: &mut Interpreter, this: JsValue, args: Vec<JsValue>) -> (r: Result<
    JsValue,
    JsError,
>)
    ensures
        final(interp).grows(old(interp)),
        r matches Ok(v) ==> v matches JsValue::Object(id) && id < final(interp).heap@.len()
            && final(interp).heap@[id as int].kind == ObjectKind::Error(ErrorKind::UriError),
        (args@.len() == 0 || args@[0] is Undefined || args@[0] is String) ==> r is Ok,
    decreases old(interp).fuel,
{
    construct_error(interp, ErrorKind::UriError, args)
}

/// `EvalError(message)`.
pub fn eval_error_constructor(interp: &mut Interpreter, this: JsValue, args: Vec<JsValue>) -> (r: Result<
    JsValue,
    JsError,
>)
    ensures
        final(interp).grows(old(interp)),
        r matches Ok(v) ==> v matches JsValue::Object(id) && id < final(interp).heap@.len()
            && final(interp).heap@[id as int].kind == ObjectKind::Error(ErrorKind::EvalError),
        (args@.len() == 0 || args@[0] is Undefined || args@[0] is String) ==> r is Ok,
    decreases old(interp).fuel,
{
    construct_error(interp, ErrorKind::EvalError, args)
}

/// Installs `Error.prototype` and the error constructors.
/// Object `f` of `heap` is the built-in constructor of errors of `kind`, whose
/// `prototype` is object `proto`.
pub open spec fn is_error_constructor(heap: Seq<JsObject>, f: int, kind: ErrorKind, proto: usize) -> bool {
    &&& 0 <= f < heap.len()
    &&& heap[f].kind == ObjectKind::Function(FunctionKind::Native(NativeId::ErrorCtor(kind)))
    &&& lookup_prop(heap[f].props@, "prototype"@) == Some(JsValue::Object(proto))
}

/// `Error.prototype` names errors `Error`, gives them an empty message and has a
/// `toString` method.
pub open spec fn error_prototype_set(p: JsObject) -> bool {
    &&& lookup_prop(p.props@, "name"@) matches Some(JsValue::String(s)) && s@ == "Error"@
    &&& lookup_prop(p.props@, "message"@) matches Some(JsValue::String(s)) && s@.len() == 0
    &&& lookup_prop(p.props@, "toString"@) matches Some(JsValue::Object(_))
}

/// The error kinds whose constructors `init_error` installs, in order.
pub open spec fn error_kinds() -> Seq<ErrorKind> {
    seq![
        ErrorKind::Error,
        ErrorKind::TypeError,
        ErrorKind::RangeError,
        ErrorKind::ReferenceError,
        ErrorKind::SyntaxError,
        ErrorKind::UriError,
        ErrorKind::EvalError,
    ]
}

pub fn init_error(interp: &mut Interpreter)
    ensures
        final(interp).same_registers(old(interp)),
        final(interp).grows(old(interp)),
        final(interp).fuel == old(interp).fuel,
        error_globals(old(interp).scopes@, final(interp).scopes@, old(interp).heap@.len() + 1int),
        old(interp).error_prototype < old(interp).heap@.len() ==> error_prototype_set(
            final(interp).heap@[old(interp).error_prototype as int],
        ),
        forall|j: int|
            0 <= j < 7 ==> is_error_constructor(
                final(interp).heap@,
                old(interp).heap@.len() + 1 + j,
                #[trigger] error_kinds()[j],
                old(interp).error_prototype,
            ),
{
    let proto = interp.error_prototype;
    interp.put_own(proto, chars_of("name"), JsValue::String(chars_of("Error")), false);
    interp.put_own(proto, chars_of("message"), JsValue::String(Vec::new()), false);
    interp.register_method(proto, "toString", NativeId::ErrorToString, 0);
    proof {
        reveal_strlit("name");
        reveal_strlit("message");
        reveal_strlit("toString");
        crate::interpreter::lemma_texts_differ("name"@, "message"@, 0);
        crate::interpreter::lemma_texts_differ("name"@, "toString"@, 0);
        crate::interpreter::lemma_texts_differ("message"@, "toString"@, 0);
        if proto < old(interp).heap@.len() {
            assert(seq!["toString"@][0] == "toString"@);
            assert(!seq!["toString"@].contains("name"@));
            assert(!seq!["toString"@].contains("message"@));
        }
    }
    let ghost s0 = interp.scopes@;
    let ghost h0 = interp.heap@.len();
    install_error_constructor(interp, "Error", ErrorKind::Error);
    install_error_constructor(interp, "TypeError", ErrorKind::TypeError);
    install_error_constructor(interp, "RangeError", ErrorKind::RangeError);
    install_error_constructor(interp, "ReferenceError", ErrorKind::ReferenceError);
    install_error_constructor(interp, "SyntaxError", ErrorKind::SyntaxError);
    install_error_constructor(interp, "URIError", ErrorKind::UriError);
    install_error_constructor(interp, "EvalError", ErrorKind::EvalError);
    proof {
        reveal_strlit("Error");
        reveal_strlit("TypeError");
        reveal_strlit("RangeError");
        reveal_strlit("ReferenceError");
        reveal_strlit("SyntaxError");
        reveal_strlit("URIError");
        reveal_strlit("EvalError");
        let names = seq![
            "Error"@,
            "TypeError"@,
            "RangeError"@,
            "ReferenceError"@,
            "SyntaxError"@,
            "URIError"@,
            "EvalError"@,
        ];
        assert(h0 == old(interp).heap@.len() + 1);
        assert forall|a: int, b: int| 0 <= a < 7 && 0 <= b < 7 && a != b implies #[trigger] names[a]
            != #[trigger] names[b] by {
            if names[a] == names[b] {
                assert(names[a].len() == names[b].len());
                assert(names[a][0] == names[b][0]);
            }
        }
        if s0.len() > 0 {
            assert forall|j: int| 0 <= j < 7 implies scope_value(interp.scopes@, 0, #[trigger] names[j])
                == Some(JsValue::Object((h0 + j) as usize)) by {
                assert(names[0] != names[j] || j == 0);
                assert(names[1] != names[j] || j == 1);
                assert(names[2] != names[j] || j == 2);
                assert(names[3] != names[j] || j == 3);
                assert(names[4] != names[j] || j == 4);
                assert(names[5] != names[j] || j == 5);
                assert(names[6] != names[j] || j == 6);
            }
        }
        assert forall|k: Seq<char>| !names.contains(k) implies #[trigger] scope_value(interp.scopes@, 0, k)
            == scope_value(old(interp).scopes@, 0, k) by {
            assert(names[0] != k);
            assert(names[1] != k);
            assert(names[2] != k);
            assert(names[3] != k);
            assert(names[4] != k);
            assert(names[5] != k);
            assert(names[6] != k);
        }
    }
}

/// The global bindings that `init_error` leaves: the seven error constructors,
/// allocated in order from heap index `first`, and every other global as it was.
pub open spec fn error_globals(before: Seq<Scope>, after: Seq<Scope>, first: int) -> bool {
    let names = seq!["Error"@, "TypeError"@, "RangeError"@, "ReferenceError"@, "SyntaxError"@, "URIError"@, "EvalError"@];
    &&& after.len() == before.len()
    &&& before.len() > 0 ==> forall|j: int| 0 <= j < 7 ==> scope_value(after, 0, #[trigger] names[j])
        == Some(JsValue::Object((first + j) as usize))
    &&& forall|k: Seq<char>| !names.contains(k) ==> #[trigger] scope_value(after, 0, k) == scope_value(before, 0, k)
}

/// Makes the constructor of `kind` a global named `name`.
fn install_error_constructor(interp: &mut Interpreter, name: &str, kind: ErrorKind)
    ensures
        final(interp).same_registers(old(interp)),
        final(interp).grows(old(interp)),
        final(interp).fuel == old(interp).fuel,
        final(interp).heap@.len() == old(interp).heap@.len() + 1,
        global_set(
            old(interp).scopes@,
            final(interp).scopes@,
            name@,
            JsValue::Object(old(interp).heap@.len() as usize),
        ),
        forall|i: int| 0 <= i < old(interp).heap@.len() ==> #[trigger] final(interp).heap@[i] == old(interp).heap@[i],
        is_error_constructor(final(interp).heap@, old(interp).heap@.len() as int, kind, old(interp).error_prototype),
{
    let f = interp.create_native(NativeId::ErrorCtor(kind), name, 1);
    let proto = interp.error_prototype;
    interp.put_own(f, chars_of("prototype"), JsValue::Object(proto), false);
    interp.define_global(name, JsValue::Object(f));
}

} // verus!
