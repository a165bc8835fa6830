//! A fresh interpreter with the global scope and the built-in objects.
use crate::builtins::{
    array, boolean, console, date, error, function, global, json, maps, math, number, object, promise,
    string,
};
use crate::builtins::global::{function_global_ids, function_global_names};
use crate::interpreter::{lemma_texts_differ, new_object, scope_value, ConsoleState, Interpreter, Scope, DEFAULT_FUEL};
use crate::number::JsNumber;
use crate::value::{FunctionKind, JsObject, JsValue, NativeId, ObjectKind};
use vstd::prelude::*;

verus! {

/// Scope 0 binds `name` to an object of a heap of `heap_len` objects.
pub open spec fn object_bound(scopes: Seq<Scope>, name: Seq<char>, heap_len: nat) -> bool {
    scope_value(scopes, 0, name) matches Some(JsValue::Object(id)) && id < heap_len
}

/// Scope 0 binds `undefined`, `NaN` and `Infinity` to their values.
pub open spec fn global_values_bound(scopes: Seq<Scope>) -> bool {
    &&& scope_value(scopes, 0, "undefined"@) == Some(JsValue::Undefined)
    &&& scope_value(scopes, 0, "NaN"@) == Some(JsValue::Number(JsNumber::NaN))
    &&& scope_value(scopes, 0, "Infinity"@) == Some(JsValue::Number(JsNumber::Infinity { neg: false }))
}

/// Scope 0 binds `name` to a function object of `heap` that is the built-in `id`.
pub open spec fn native_bound(scopes: Seq<Scope>, heap: Seq<JsObject>, name: Seq<char>, id: NativeId) -> bool {
    scope_value(scopes, 0, name) matches Some(JsValue::Object(f)) && f < heap.len() && heap[f as int].kind
        == ObjectKind::Function(FunctionKind::Native(id))
}

/// The globals of a fresh interpreter: `Number`, `Map`, `Date`, `Promise`, `JSON` and
/// `globalThis` name objects of the heap; each global function (`parseInt`, `isNaN`,
/// ...) is the built-in of its name (`function_global_ids`); and `undefined`, `NaN` and
/// `Infinity` have their values.
pub open spec fn builtin_globals(scopes: Seq<Scope>, heap: Seq<JsObject>) -> bool {
    &&& object_bound(scopes, "Number"@, heap.len())
    &&& object_bound(scopes, "Map"@, heap.len())
    &&& object_bound(scopes, "Date"@, heap.len())
    &&& object_bound(scopes, "Promise"@, heap.len())
    &&& object_bound(scopes, "JSON"@, heap.len())
    &&& object_bound(scopes, "globalThis"@, heap.len())
    &&& forall|j: int|
        0 <= j < 12 ==> native_bound(scopes, heap, #[trigger] function_global_names()[j], function_global_ids()[j])
    &&& global_values_bound(scopes)
}

/// Binds `Number` to `number_ctor` and installs `Map`, `Date`, `Promise` and `JSON`.
fn install_constructor_globals(interp: &mut Interpreter, number_ctor: usize)
    requires
        old(interp).scopes@.len() > 0,
        number_ctor < old(interp).heap@.len(),
    ensures
        final(interp).same_registers(old(interp)),
        final(interp).scopes@.len() == old(interp).scopes@.len(),
        final(interp).grows(old(interp)),
        object_bound(final(interp).scopes@, "Number"@, final(interp).heap@.len()),
        object_bound(final(interp).scopes@, "Map"@, final(interp).heap@.len()),
        object_bound(final(interp).scopes@, "Date"@, final(interp).heap@.len()),
        object_bound(final(interp).scopes@, "Promise"@, final(interp).heap@.len()),
        object_bound(final(interp).scopes@, "JSON"@, final(interp).heap@.len()),
{
    proof {
        reveal_strlit("Number");
        reveal_strlit("Map");
        reveal_strlit("Date");
        reveal_strlit("Promise");
        reveal_strlit("JSON");
        lemma_texts_differ("Number"@, "Map"@, 0);
        lemma_texts_differ("Number"@, "Date"@, 0);
        lemma_texts_differ("Number"@, "Promise"@, 0);
        lemma_texts_differ("Number"@, "JSON"@, 0);
        lemma_texts_differ("Map"@, "Date"@, 0);
        lemma_texts_differ("Map"@, "Promise"@, 0);
        lemma_texts_differ("Map"@, "JSON"@, 0);
        lemma_texts_differ("Date"@, "Promise"@, 0);
        lemma_texts_differ("Date"@, "JSON"@, 0);
        lemma_texts_differ("Promise"@, "JSON"@, 0);
    }
    interp.define_global("Number", JsValue::Object(number_ctor));
    maps::init_map(interp);
    date::init_date(interp);
    promise::init_promise_prototype(interp);
    let promise_ctor = promise::create_promise_constructor(interp);
    interp.define_global("Promise", JsValue::Object(promise_ctor));
    json::init_json(interp);
}

/// Binds `undefined`, `NaN` and `Infinity`, then installs the global functions and
/// `globalThis`.
fn install_global_values_and_functions(interp: &mut Interpreter)
    requires
        old(interp).scopes@.len() > 0,
        old(interp).global < old(interp).heap@.len(),
    ensures
        final(interp).same_registers(old(interp)),
        final(interp).scopes@.len() == old(interp).scopes@.len(),
        final(interp).grows(old(interp)),
        global_values_bound(final(interp).scopes@),
        object_bound(final(interp).scopes@, "globalThis"@, final(interp).heap@.len()),
        forall|j: int|
            0 <= j < 12 ==> native_bound(
                final(interp).scopes@,
                final(interp).heap@,
                #[trigger] function_global_names()[j],
                function_global_ids()[j],
            ),
        forall|k: Seq<char>|
            k != "undefined"@ && k != "NaN"@ && k != "Infinity"@ && k != "globalThis"@ && !function_global_names().contains(k)
                ==> #[trigger] scope_value(final(interp).scopes@, 0, k) == scope_value(old(interp).scopes@, 0, k),
{
    proof {
        reveal_strlit("undefined");
        reveal_strlit("NaN");
        reveal_strlit("Infinity");
        lemma_texts_differ("undefined"@, "NaN"@, 0);
        lemma_texts_differ("undefined"@, "Infinity"@, 0);
        lemma_texts_differ("NaN"@, "Infinity"@, 0);
    }
    interp.define_global("undefined", JsValue::Undefined);
    interp.define_global("NaN", JsValue::Number(JsNumber::nan()));
    interp.define_global("Infinity", JsValue::Number(JsNumber::infinity(false)));
    proof {
        reveal_strlit("globalThis");
        reveal_strlit("parseInt");
        reveal_strlit("parseFloat");
        reveal_strlit("isNaN");
        reveal_strlit("isFinite");
        reveal_strlit("encodeURI");
        reveal_strlit("decodeURI");
        reveal_strlit("encodeURIComponent");
        reveal_strlit("decodeURIComponent");
        reveal_strlit("btoa");
        reveal_strlit("atob");
        reveal_strlit("structuredClone");
        reveal_strlit("eval");
        lemma_texts_differ("undefined"@, "globalThis"@, 0);
        lemma_texts_differ("NaN"@, "globalThis"@, 0);
        lemma_texts_differ("Infinity"@, "globalThis"@, 0);
        lemma_texts_differ("undefined"@, "parseInt"@, 0);
        lemma_texts_differ("undefined"@, "parseFloat"@, 0);
        lemma_texts_differ("undefined"@, "isNaN"@, 0);
        lemma_texts_differ("undefined"@, "isFinite"@, 0);
        lemma_texts_differ("undefined"@, "encodeURI"@, 0);
        lemma_texts_differ("undefined"@, "decodeURI"@, 0);
        lemma_texts_differ("undefined"@, "encodeURIComponent"@, 0);
        lemma_texts_differ("undefined"@, "decodeURIComponent"@, 0);
        lemma_texts_differ("undefined"@, "btoa"@, 0);
        lemma_texts_differ("undefined"@, "atob"@, 0);
        lemma_texts_differ("undefined"@, "structuredClone"@, 0);
        lemma_texts_differ("undefined"@, "eval"@, 0);
        assert(function_global_names()[0] != "undefined"@);
        assert(function_global_names()[1] != "undefined"@);
        assert(function_global_names()[2] != "undefined"@);
        assert(function_global_names()[3] != "undefined"@);
        assert(function_global_names()[4] != "undefined"@);
        assert(function_global_names()[5] != "undefined"@);
        assert(function_global_names()[6] != "undefined"@);
        assert(function_global_names()[7] != "undefined"@);
        assert(function_global_names()[8] != "undefined"@);
        assert(function_global_names()[9] != "undefined"@);
        assert(function_global_names()[10] != "undefined"@);
        assert(function_global_names()[11] != "undefined"@);
        assert forall|i: int| 0 <= i < 12 implies #[trigger] function_global_names()[i] != "undefined"@ by {
            assert(i == 0 || i == 1 || i == 2 || i == 3 || i == 4 || i == 5 || i == 6 || i == 7 || i == 8 || i == 9 || i == 10 || i == 11);
        }
        assert(!function_global_names().contains("undefined"@));
        lemma_texts_differ("NaN"@, "parseInt"@, 0);
        lemma_texts_differ("NaN"@, "parseFloat"@, 0);
        lemma_texts_differ("NaN"@, "isNaN"@, 0);
        lemma_texts_differ("NaN"@, "isFinite"@, 0);
        lemma_texts_differ("NaN"@, "encodeURI"@, 0);
        lemma_texts_differ("NaN"@, "decodeURI"@, 0);
        lemma_texts_differ("NaN"@, "encodeURIComponent"@, 0);
        lemma_texts_differ("NaN"@, "decodeURIComponent"@, 0);
        lemma_texts_differ("NaN"@, "btoa"@, 0);
        lemma_texts_differ("NaN"@, "atob"@, 0);
        lemma_texts_differ("NaN"@, "structuredClone"@, 0);
        lemma_texts_differ("NaN"@, "eval"@, 0);
        assert(function_global_names()[0] != "NaN"@);
        assert(function_global_names()[1] != "NaN"@);
        assert(function_global_names()[2] != "NaN"@);
        assert(function_global_names()[3] != "NaN"@);
        assert(function_global_names()[4] != "NaN"@);
        assert(function_global_names()[5] != "NaN"@);
        assert(function_global_names()[6] != "NaN"@);
        assert(function_global_names()[7] != "NaN"@);
        assert(function_global_names()[8] != "NaN"@);
        assert(function_global_names()[9] != "NaN"@);
        assert(function_global_names()[10] != "NaN"@);
        assert(function_global_names()[11] != "NaN"@);
        assert forall|i: int| 0 <= i < 12 implies #[trigger] function_global_names()[i] != "NaN"@ by {
            assert(i == 0 || i == 1 || i == 2 || i == 3 || i == 4 || i == 5 || i == 6 || i == 7 || i == 8 || i == 9 || i == 10 || i == 11);
        }
        assert(!function_global_names().contains("NaN"@));
        lemma_texts_differ("Infinity"@, "parseInt"@, 0);
        lemma_texts_differ("Infinity"@, "parseFloat"@, 0);
        lemma_texts_differ("Infinity"@, "isNaN"@, 0);
        lemma_texts_differ("Infinity"@, "isFinite"@, 0);
        lemma_texts_differ("Infinity"@, "encodeURI"@, 0);
        lemma_texts_differ("Infinity"@, "decodeURI"@, 0);
        lemma_texts_differ("Infinity"@, "encodeURIComponent"@, 0);
        lemma_texts_differ("Infinity"@, "decodeURIComponent"@, 0);
        lemma_texts_differ("Infinity"@, "btoa"@, 0);
        lemma_texts_differ("Infinity"@, "atob"@, 0);
        lemma_texts_differ("Infinity"@, "structuredClone"@, 0);
        lemma_texts_differ("Infinity"@, "eval"@, 0);
        assert(function_global_names()[0] != "Infinity"@);
        assert(function_global_names()[1] != "Infinity"@);
        assert(function_global_names()[2] != "Infinity"@);
        assert(function_global_names()[3] != "Infinity"@);
        assert(function_global_names()[4] != "Infinity"@);
        assert(function_global_names()[5] != "Infinity"@);
        assert(function_global_names()[6] != "Infinity"@);
        assert(function_global_names()[7] != "Infinity"@);
        assert(function_global_names()[8] != "Infinity"@);
        assert(function_global_names()[9] != "Infinity"@);
        assert(function_global_names()[10] != "Infinity"@);
        assert(function_global_names()[11] != "Infinity"@);
        assert forall|i: int| 0 <= i < 12 implies #[trigger] function_global_names()[i] != "Infinity"@ by {
            assert(i == 0 || i == 1 || i == 2 || i == 3 || i == 4 || i == 5 || i == 6 || i == 7 || i == 8 || i == 9 || i == 10 || i == 11);
        }
        assert(!function_global_names().contains("Infinity"@));
    }
    install_global_functions(interp);
}

/// Installs the global functions: as `init_global_functions`, and each is the built-in
/// of its name.
fn install_global_functions(interp: &mut Interpreter)
    requires
        old(interp).scopes@.len() > 0,
    ensures
        final(interp).heap@.len() == old(interp).heap@.len() + 12,
        final(interp).same_registers(old(interp)),
        final(interp).grows(old(interp)),
        global::function_globals(
            old(interp).scopes@,
            final(interp).scopes@,
            old(interp).heap@.len() as int,
            old(interp).global,
        ),
        forall|j: int|
            0 <= j < 12 ==> native_bound(
                final(interp).scopes@,
                final(interp).heap@,
                #[trigger] function_global_names()[j],
                function_global_ids()[j],
            ),
{
    let ghost h0 = interp.heap@.len();
    global::init_global_functions(interp);
    let n = interp.heap.len();
    proof {
        assert(h0 + 12 == n);
        assert forall|j: int| 0 <= j < 12 implies native_bound(
            interp.scopes@,
            interp.heap@,
            #[trigger] function_global_names()[j],
            function_global_ids()[j],
        ) by {
            assert(scope_value(interp.scopes@, 0, function_global_names()[j]) == Some(JsValue::Object((h0 + j) as usize)));
            assert(interp.heap@[h0 + j].kind == ObjectKind::Function(FunctionKind::Native(function_global_ids()[j])));
        }
    }
}

/// Installs the prototypes, the constructors up to `Number` (whose constructor object
/// it returns, for the caller to bind), `Error`, `String`, `Math` and `console`.
fn install_core_builtins(interp: &mut Interpreter) -> (n: usize)
    ensures
        final(interp).same_registers(old(interp)),
        final(interp).scopes@.len() == old(interp).scopes@.len(),
        final(interp).grows(old(interp)),
        n < final(interp).heap@.len(),
{
        object::init_object_prototype(interp);
        let object_ctor = object::create_object_constructor(interp);
        interp.define_global("Object", JsValue::Object(object_ctor));
        function::init_function_prototype(interp);
        let function_ctor = function::create_function_constructor(interp);
        interp.define_global("Function", JsValue::Object(function_ctor));
        array::init_array_prototype(interp);
        let array_ctor = array::create_array_constructor(interp);
        interp.define_global("Array", JsValue::Object(array_ctor));
        error::init_error(interp);
        string::init_string(interp);
        math::init_math(interp);
        console::init_console(interp);
        boolean::init_boolean_prototype(interp);
        let boolean_ctor = boolean::create_boolean_constructor(interp);
        interp.define_global("Boolean", JsValue::Object(boolean_ctor));
        number::init_number_prototype(interp);
        number::create_number_constructor(interp)
}

impl Interpreter {
    /// An interpreter whose global scope holds the built-ins, with the full step budget
    /// and an empty console.
    pub fn new() -> (r: Interpreter)
        ensures
            r.fuel == DEFAULT_FUEL,
            r.scopes@.len() == 1,
            r.env == 0,
            r.this_val == JsValue::Undefined,
            r.console.lines@.len() == 0,
            r.console.group_depth == 0,
            r.console.counters@.len() == 0,
            r.console.timers@.len() == 0,
            builtin_globals(r.scopes@, r.heap@),
    {
        let mut heap: Vec<JsObject> = Vec::new();
        heap.push(new_object(ObjectKind::Ordinary, None));
        heap.push(new_object(ObjectKind::Ordinary, Some(0)));
        heap.push(new_object(ObjectKind::Ordinary, Some(0)));
        heap.push(new_object(ObjectKind::StringBox(Vec::new()), Some(0)));
        heap.push(new_object(ObjectKind::NumberBox(JsNumber::zero()), Some(0)));
        heap.push(new_object(ObjectKind::BooleanBox(false), Some(0)));
        heap.push(new_object(ObjectKind::Ordinary, Some(0)));
        heap.push(new_object(ObjectKind::Ordinary, Some(0)));
        heap.push(new_object(ObjectKind::Ordinary, Some(0)));
        heap.push(new_object(ObjectKind::Ordinary, Some(0)));
        heap.push(new_object(ObjectKind::Ordinary, Some(0)));
        let mut scopes: Vec<Scope> = Vec::new();
        scopes.push(Scope { vars: Vec::new(), parent: None });
        let console_state = ConsoleState {
            lines: Vec::new(),
            group_depth: 0,
            counters: Vec::new(),
            timers: Vec::new(),
        };
        let mut interp = Interpreter {
            heap,
            scopes,
            global: 8,
            env: 0,
            this_val: JsValue::Undefined,
            object_prototype: 0,
            function_prototype: 1,
            array_prototype: 2,
            string_prototype: 3,
            number_prototype: 4,
            boolean_prototype: 5,
            error_prototype: 6,
            map_prototype: 7,
            date_prototype: 9,
            promise_prototype: 10,
            fuel: DEFAULT_FUEL,
            console: console_state,
        };
        let number_ctor = install_core_builtins(&mut interp);
        install_constructor_globals(&mut interp, number_ctor);
        install_global_values_and_functions(&mut interp);
        proof {
            reveal_strlit("Number");
            reveal_strlit("Map");
            reveal_strlit("Date");
            reveal_strlit("Promise");
            reveal_strlit("JSON");
            reveal_strlit("undefined");
            reveal_strlit("NaN");
            reveal_strlit("Infinity");
            reveal_strlit("globalThis");
            lemma_texts_differ("Number"@, "undefined"@, 0);
            lemma_texts_differ("Number"@, "NaN"@, 0);
            lemma_texts_differ("Number"@, "Infinity"@, 0);
            lemma_texts_differ("Number"@, "globalThis"@, 0);
            lemma_texts_differ("Map"@, "undefined"@, 0);
            lemma_texts_differ("Map"@, "NaN"@, 0);
            lemma_texts_differ("Map"@, "Infinity"@, 0);
            lemma_texts_differ("Map"@, "globalThis"@, 0);
            lemma_texts_differ("Date"@, "undefined"@, 0);
            lemma_texts_differ("Date"@, "NaN"@, 0);
            lemma_texts_differ("Date"@, "Infinity"@, 0);
            lemma_texts_differ("Date"@, "globalThis"@, 0);
            lemma_texts_differ("Promise"@, "undefined"@, 0);
            lemma_texts_differ("Promise"@, "NaN"@, 0);
            lemma_texts_differ("Promise"@, "Infinity"@, 0);
            lemma_texts_differ("Promise"@, "globalThis"@, 0);
            lemma_texts_differ("JSON"@, "undefined"@, 0);
            lemma_texts_differ("JSON"@, "NaN"@, 0);
            lemma_texts_differ("JSON"@, "Infinity"@, 0);
            lemma_texts_differ("JSON"@, "globalThis"@, 0);
            reveal_strlit("parseInt");
            reveal_strlit("parseFloat");
            reveal_strlit("isNaN");
            reveal_strlit("isFinite");
            reveal_strlit("encodeURI");
            reveal_strlit("decodeURI");
            reveal_strlit("encodeURIComponent");
            reveal_strlit("decodeURIComponent");
            reveal_strlit("btoa");
            reveal_strlit("atob");
            reveal_strlit("structuredClone");
            reveal_strlit("eval");
            lemma_texts_differ("Number"@, "parseInt"@, 0);
            lemma_texts_differ("Number"@, "parseFloat"@, 0);
            lemma_texts_differ("Number"@, "isNaN"@, 0);
            lemma_texts_differ("Number"@, "isFinite"@, 0);
            lemma_texts_differ("Number"@, "encodeURI"@, 0);
            lemma_texts_differ("Number"@, "decodeURI"@, 0);
            lemma_texts_differ("Number"@, "encodeURIComponent"@, 0);
            lemma_texts_differ("Number"@, "decodeURIComponent"@, 0);
            lemma_texts_differ("Number"@, "btoa"@, 0);
            lemma_texts_differ("Number"@, "atob"@, 0);
            lemma_texts_differ("Number"@, "structuredClone"@, 0);
            lemma_texts_differ("Number"@, "eval"@, 0);
            assert(function_global_names()[0] != "Number"@);
            assert(function_global_names()[1] != "Number"@);
            assert(function_global_names()[2] != "Number"@);
            assert(function_global_names()[3] != "Number"@);
            assert(function_global_names()[4] != "Number"@);
            assert(function_global_names()[5] != "Number"@);
            assert(function_global_names()[6] != "Number"@);
            assert(function_global_names()[7] != "Number"@);
            assert(function_global_names()[8] != "Number"@);
            assert(function_global_names()[9] != "Number"@);
            assert(function_global_names()[10] != "Number"@);
            assert(function_global_names()[11] != "Number"@);
            assert forall|i: int| 0 <= i < 12 implies #[trigger] function_global_names()[i] != "Number"@ by {
                assert(i == 0 || i == 1 || i == 2 || i == 3 || i == 4 || i == 5 || i == 6 || i == 7 || i == 8 || i == 9 || i == 10 || i == 11);
            }
            assert(!function_global_names().contains("Number"@));
            lemma_texts_differ("Map"@, "parseInt"@, 0);
            lemma_texts_differ("Map"@, "parseFloat"@, 0);
            lemma_texts_differ("Map"@, "isNaN"@, 0);
            lemma_texts_differ("Map"@, "isFinite"@, 0);
            lemma_texts_differ("Map"@, "encodeURI"@, 0);
            lemma_texts_differ("Map"@, "decodeURI"@, 0);
            lemma_texts_differ("Map"@, "encodeURIComponent"@, 0);
            lemma_texts_differ("Map"@, "decodeURIComponent"@, 0);
            lemma_texts_differ("Map"@, "btoa"@, 0);
            lemma_texts_differ("Map"@, "atob"@, 0);
            lemma_texts_differ("Map"@, "structuredClone"@, 0);
            lemma_texts_differ("Map"@, "eval"@, 0);
            assert(function_global_names()[0] != "Map"@);
            assert(function_global_names()[1] != "Map"@);
            assert(function_global_names()[2] != "Map"@);
            assert(function_global_names()[3] != "Map"@);
            assert(function_global_names()[4] != "Map"@);
            assert(function_global_names()[5] != "Map"@);
            assert(function_global_names()[6] != "Map"@);
            assert(function_global_names()[7] != "Map"@);
            assert(function_global_names()[8] != "Map"@);
            assert(function_global_names()[9] != "Map"@);
            assert(function_global_names()[10] != "Map"@);
            assert(function_global_names()[11] != "Map"@);
            assert forall|i: int| 0 <= i < 12 implies #[trigger] function_global_names()[i] != "Map"@ by {
                assert(i == 0 || i == 1 || i == 2 || i == 3 || i == 4 || i == 5 || i == 6 || i == 7 || i == 8 || i == 9 || i == 10 || i == 11);
            }
            assert(!function_global_names().contains("Map"@));
            lemma_texts_differ("Date"@, "parseInt"@, 0);
            lemma_texts_differ("Date"@, "parseFloat"@, 0);
            lemma_texts_differ("Date"@, "isNaN"@, 0);
            lemma_texts_differ("Date"@, "isFinite"@, 0);
            lemma_texts_differ("Date"@, "encodeURI"@, 0);
            lemma_texts_differ("Date"@, "decodeURI"@, 0);
            lemma_texts_differ("Date"@, "encodeURIComponent"@, 0);
            lemma_texts_differ("Date"@, "decodeURIComponent"@, 0);
            lemma_texts_differ("Date"@, "btoa"@, 0);
            lemma_texts_differ("Date"@, "atob"@, 0);
            lemma_texts_differ("Date"@, "structuredClone"@, 0);
            lemma_texts_differ("Date"@, "eval"@, 0);
            assert(function_global_names()[0] != "Date"@);
            assert(function_global_names()[1] != "Date"@);
            assert(function_global_names()[2] != "Date"@);
            assert(function_global_names()[3] != "Date"@);
            assert(function_global_names()[4] != "Date"@);
            assert(function_global_names()[5] != "Date"@);
            assert(function_global_names()[6] != "Date"@);
            assert(function_global_names()[7] != "Date"@);
            assert(function_global_names()[8] != "Date"@);
            assert(function_global_names()[9] != "Date"@);
            assert(function_global_names()[10] != "Date"@);
            assert(function_global_names()[11] != "Date"@);
            assert forall|i: int| 0 <= i < 12 implies #[trigger] function_global_names()[i] != "Date"@ by {
                assert(i == 0 || i == 1 || i == 2 || i == 3 || i == 4 || i == 5 || i == 6 || i == 7 || i == 8 || i == 9 || i == 10 || i == 11);
            }
            assert(!function_global_names().contains("Date"@));
            lemma_texts_differ("Promise"@, "parseInt"@, 0);
            lemma_texts_differ("Promise"@, "parseFloat"@, 0);
            lemma_texts_differ("Promise"@, "isNaN"@, 0);
            lemma_texts_differ("Promise"@, "isFinite"@, 0);
            lemma_texts_differ("Promise"@, "encodeURI"@, 0);
            lemma_texts_differ("Promise"@, "decodeURI"@, 0);
            lemma_texts_differ("Promise"@, "encodeURIComponent"@, 0);
            lemma_texts_differ("Promise"@, "decodeURIComponent"@, 0);
            lemma_texts_differ("Promise"@, "btoa"@, 0);
            lemma_texts_differ("Promise"@, "atob"@, 0);
            lemma_texts_differ("Promise"@, "structuredClone"@, 0);
            lemma_texts_differ("Promise"@, "eval"@, 0);
            assert(function_global_names()[0] != "Promise"@);
            assert(function_global_names()[1] != "Promise"@);
            assert(function_global_names()[2] != "Promise"@);
            assert(function_global_names()[3] != "Promise"@);
            assert(function_global_names()[4] != "Promise"@);
            assert(function_global_names()[5] != "Promise"@);
            assert(function_global_names()[6] != "Promise"@);
            assert(function_global_names()[7] != "Promise"@);
            assert(function_global_names()[8] != "Promise"@);
            assert(function_global_names()[9] != "Promise"@);
            assert(function_global_names()[10] != "Promise"@);
            assert(function_global_names()[11] != "Promise"@);
            assert forall|i: int| 0 <= i < 12 implies #[trigger] function_global_names()[i] != "Promise"@ by {
                assert(i == 0 || i == 1 || i == 2 || i == 3 || i == 4 || i == 5 || i == 6 || i == 7 || i == 8 || i == 9 || i == 10 || i == 11);
            }
            assert(!function_global_names().contains("Promise"@));
            lemma_texts_differ("JSON"@, "parseInt"@, 0);
            lemma_texts_differ("JSON"@, "parseFloat"@, 0);
            lemma_texts_differ("JSON"@, "isNaN"@, 0);
            lemma_texts_differ("JSON"@, "isFinite"@, 0);
            lemma_texts_differ("JSON"@, "encodeURI"@, 0);
            lemma_texts_differ("JSON"@, "decodeURI"@, 0);
            lemma_texts_differ("JSON"@, "encodeURIComponent"@, 0);
            lemma_texts_differ("JSON"@, "decodeURIComponent"@, 0);
            lemma_texts_differ("JSON"@, "btoa"@, 0);
            lemma_texts_differ("JSON"@, "atob"@, 0);
            lemma_texts_differ("JSON"@, "structuredClone"@, 0);
            lemma_texts_differ("JSON"@, "eval"@, 0);
            assert(function_global_names()[0] != "JSON"@);
            assert(function_global_names()[1] != "JSON"@);
            assert(function_global_names()[2] != "JSON"@);
            assert(function_global_names()[3] != "JSON"@);
            assert(function_global_names()[4] != "JSON"@);
            assert(function_global_names()[5] != "JSON"@);
            assert(function_global_names()[6] != "JSON"@);
            assert(function_global_names()[7] != "JSON"@);
            assert(function_global_names()[8] != "JSON"@);
            assert(function_global_names()[9] != "JSON"@);
            assert(function_global_names()[10] != "JSON"@);
            assert(function_global_names()[11] != "JSON"@);
            assert forall|i: int| 0 <= i < 12 implies #[trigger] function_global_names()[i] != "JSON"@ by {
                assert(i == 0 || i == 1 || i == 2 || i == 3 || i == 4 || i == 5 || i == 6 || i == 7 || i == 8 || i == 9 || i == 10 || i == 11);
            }
            assert(!function_global_names().contains("JSON"@));
        }
        interp
    }
}

} // verus!
