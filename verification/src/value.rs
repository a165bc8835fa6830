//! Runtime values, objects and the object heap.
use crate::ast::FunctionDef;
use crate::number::{chars_of, is_digit_char, spec_int, JsNumber, MANT_LIMIT};
use std::rc::Rc;
use vstd::prelude::*;

verus! {

/// A runtime value. Objects are indices into the interpreter's heap.
#[derive(Debug, PartialEq)]
pub enum JsValue {
    Undefined,
    Null,
    Boolean(bool),
    Number(JsNumber),
    String(Vec<char>),
    Object(usize),
}

/// The kinds of thrown errors.
#[derive(Clone, Copy, Debug, PartialEq, Eq, Structural)]
pub enum ErrorKind {
    Error,
    TypeError,
    RangeError,
    ReferenceError,
    SyntaxError,
    UriError,
    EvalError,
}

/// An abrupt completion: a thrown value or an error raised by the runtime.
#[derive(Debug)]
pub enum JsError {
    /// A runtime error of the given kind with its message.
    Raised(ErrorKind, Vec<char>),
    /// A value thrown by a `throw` statement.
    Thrown(JsValue),
    /// The step budget of the interpreter ran out.
    OutOfFuel,
}

/// Built-in functions, identified by tag.
#[derive(Clone, Copy, Debug, PartialEq, Eq, Structural)]
pub enum NativeId {
    ConsoleLog,
    ConsoleError,
    ConsoleWarn,
    ConsoleInfo,
    ConsoleDebug,
    ConsoleTable,
    ConsoleDir,
    ConsoleTime,
    ConsoleTimeEnd,
    ConsoleCount,
    ConsoleCountReset,
    ConsoleClear,
    ConsoleGroup,
    ConsoleGroupEnd,
    ObjectCtor,
    ObjectKeys,
    ObjectValues,
    ObjectEntries,
    ObjectAssign,
    ObjectFromEntries,
    ObjectHasOwn,
    ObjectCreate,
    ObjectFreeze,
    ObjectIsFrozen,
    ObjectSeal,
    ObjectIsSealed,
    ObjectPreventExtensions,
    ObjectIsExtensible,
    ObjectGetPrototypeOf,
    ObjectSetPrototypeOf,
    ObjectIs,
    ObjectGetOwnPropertyNames,
    ObjectDefineProperty,
    ObjectDefineProperties,
    ObjectGetOwnPropertyDescriptor,
    ObjectGetOwnPropertyDescriptors,
    ObjectGetOwnPropertySymbols,
    ObjectHasOwnProperty,
    ObjectIsPrototypeOf,
    ObjectToString,
    ObjectValueOf,
    ObjectToLocaleString,
    ArrayCtor,
    ArrayIsArray,
    ArrayOf,
    ArrayFrom,
    ArrayPush,
    ArrayPop,
    ArrayShift,
    ArrayUnshift,
    ArraySplice,
    ArrayReverse,
    ArraySort,
    ArrayFill,
    ArrayCopyWithin,
    ArrayAt,
    ArrayConcat,
    ArraySlice,
    ArrayJoin,
    ArrayToString,
    ArrayIndexOf,
    ArrayLastIndexOf,
    ArrayIncludes,
    ArrayForEach,
    ArrayMap,
    ArrayFilter,
    ArrayReduce,
    ArrayReduceRight,
    ArrayFind,
    ArrayFindIndex,
    ArrayFindLast,
    ArrayFindLastIndex,
    ArrayEvery,
    ArraySome,
    ArrayFlat,
    ArrayFlatMap,
    ArrayToReversed,
    ArrayToSorted,
    ArrayToSpliced,
    ArrayWith,
    ArrayKeys,
    ArrayValues,
    ArrayEntries,
    ArrayIteratorNext,
    GeneratorNext,
    GeneratorReturn,
    GeneratorThrow,
    GeneratorIterator,
    StringCtor,
    StringFromCharCode,
    StringCharAt,
    StringCharCodeAt,
    StringIndexOf,
    StringLastIndexOf,
    StringAt,
    StringIncludes,
    StringStartsWith,
    StringEndsWith,
    StringSlice,
    StringSubstring,
    StringToLowerCase,
    StringToUpperCase,
    StringTrim,
    StringTrimStart,
    StringTrimEnd,
    StringSplit,
    StringRepeat,
    StringReplace,
    StringReplaceAll,
    StringPadStart,
    StringPadEnd,
    StringConcat,
    StringToString,
    MathAbs,
    MathFloor,
    MathCeil,
    MathRound,
    MathTrunc,
    MathSign,
    MathMin,
    MathMax,
    MathPow,
    MathSqrt,
    MathCbrt,
    MathHypot,
    MathLog10,
    MathLog2,
    MathRandom,
    NumberCtor,
    NumberIsNaN,
    NumberIsFinite,
    NumberIsInteger,
    NumberIsSafeInteger,
    NumberParseFloat,
    NumberParseInt,
    NumberToFixed,
    NumberToString,
    NumberToPrecision,
    NumberToExponential,
    BooleanCtor,
    BooleanToString,
    BooleanValueOf,
    GlobalParseInt,
    GlobalParseFloat,
    GlobalIsNaN,
    GlobalIsFinite,
    GlobalEncodeUri,
    GlobalDecodeUri,
    GlobalEncodeUriComponent,
    GlobalDecodeUriComponent,
    GlobalBtoa,
    GlobalAtob,
    GlobalStructuredClone,
    GlobalEval,
    ErrorCtor(ErrorKind),
    ErrorToString,
    FunctionCall,
    FunctionApply,
    FunctionBind,
    FunctionCtor,
    DateCtor,
    DateNow,
    DateUtc,
    DateParse,
    DateGetTime,
    DateGetFullYear,
    DateGetMonth,
    DateGetDate,
    DateGetDay,
    DateGetHours,
    DateGetMinutes,
    DateGetSeconds,
    DateGetMilliseconds,
    DateSetTime,
    DateSetFullYear,
    DateSetMonth,
    DateSetDate,
    DateSetHours,
    DateSetMinutes,
    DateSetSeconds,
    DateSetMilliseconds,
    DateToIsoString,
    DateToString,
    DateToDateString,
    DateToTimeString,
    PromiseCtor,
    PromiseThen,
    PromiseCatch,
    PromiseFinally,
    PromiseResolve,
    PromiseReject,
    PromiseAll,
    PromiseRace,
    PromiseAllSettled,
    PromiseAny,
    PromiseResolveFn,
    PromiseRejectFn,
    PromiseAllFulfillFn,
    PromiseAllRejectFn,
    PromiseRaceSettleFn,
    JsonStringify,
    JsonParse,
    JsonRawJson,
    JsonIsRawJson,
    MapCtor,
    MapGroupBy,
    MapGet,
    MapSet,
    MapHas,
    MapDelete,
    MapClear,
    MapForEach,
    MapKeys,
    MapValues,
    MapEntries,
}

/// What kind of callable a function object is.
pub enum FunctionKind {
    Native(NativeId),
    /// A function written in the program, with the scope it closes over and,
    /// for arrow functions, the `this` it captured.
    Closure { def: Rc<FunctionDef>, scope: usize, this_val: Option<JsValue> },
    /// `f.bind(this, ...args)`.
    Bound { target: usize, this_val: JsValue, args: Vec<JsValue> },
}

/// The internal kind of an object.
pub enum ObjectKind {
    Ordinary,
    /// A dense array: element `i` is `elements[i]`.
    Array(Vec<JsValue>),
    Function(FunctionKind),
    /// An error object of the given kind.
    Error(ErrorKind),
    /// A `Boolean` wrapper.
    BooleanBox(bool),
    /// A `Number` wrapper.
    NumberBox(JsNumber),
    /// A `String` wrapper.
    StringBox(Vec<char>),
    /// A `Map`, keeping entries in insertion order.
    MapData(crate::table::EntryTable),
    /// A `Date`: milliseconds since 1970-01-01T00:00:00Z (NaN for an invalid date).
    DateValue(JsNumber),
    /// A `Promise`: its state, its settled value and the reactions waiting for it.
    PromiseData(PromiseStatus, JsValue, Vec<PromiseHandler>),
    /// What a `Promise.all` call shares between its reactions: the values so far, how
    /// many inputs are still pending, the promise to settle and whether it was rejected.
    PromiseAllState(Vec<JsValue>, usize, usize, bool),
    /// What a `Promise.race` call shares between its reactions: the promise to settle and
    /// whether an input has settled it.
    PromiseRaceState(usize, bool),
    /// What `JSON.rawJSON` made: JSON text that `JSON.stringify` writes as it is.
    RawJson(Vec<char>),
    /// A generator object and where it stands.
    Generator(GeneratorStatus),
}

/// Where a generator stands: not started, suspended at a `yield`, or finished.
#[derive(Clone, Copy, Debug, PartialEq, Eq, Structural)]
pub enum GeneratorStatus {
    SuspendedStart,
    SuspendedYield,
    Completed,
}

/// The state of a promise.
#[derive(Clone, Copy, Debug, PartialEq, Eq, Structural)]
pub enum PromiseStatus {
    Pending,
    Fulfilled,
    Rejected,
}

/// A reaction registered on a pending promise: the callbacks to run when it settles and
/// the promise that their result settles.
pub struct PromiseHandler {
    pub on_fulfilled: Option<JsValue>,
    pub on_rejected: Option<JsValue>,
    pub result_promise: usize,
}

/// An own property.
pub struct Property {
    pub key: Vec<char>,
    pub value: JsValue,
    pub writable: bool,
    pub enumerable: bool,
    pub configurable: bool,
}

/// A heap object.
pub struct JsObject {
    pub props: Vec<Property>,
    pub proto: Option<usize>,
    pub kind: ObjectKind,
    pub extensible: bool,
    /// `Object.freeze` was applied.
    pub frozen: bool,
    /// `Object.seal` (or `Object.freeze`) was applied.
    pub sealed: bool,
}

/// A property key: an array index or a name.
pub enum PropertyKey {
    Index(usize),
    Name(Vec<char>),
}

/// Spec copy of a value: every value is its own copy.
pub open spec fn truthy(v: JsValue) -> bool {
    match v {
        JsValue::Undefined => false,
        JsValue::Null => false,
        JsValue::Boolean(b) => b,
        JsValue::Number(n) => !(n is NaN) && !n.is_zero_spec(),
        JsValue::String(s) => s.len() > 0,
        JsValue::Object(_) => true,
    }
}

/// Numeric equality on canonical numbers: NaN equals nothing, the zeros are equal.
pub open spec fn num_eq(a: JsNumber, b: JsNumber) -> bool {
    match (a, b) {
        (
            JsNumber::Finite { neg: na, mant: ma, exp: ea },
            JsNumber::Finite { neg: nb, mant: mb, exp: eb },
        ) => ma == mb && ea == eb && (na == nb || ma == 0),
        (JsNumber::Infinity { neg: na }, JsNumber::Infinity { neg: nb }) => na == nb,
        _ => false,
    }
}

/// `===` on values.
pub open spec fn strict_eq(a: JsValue, b: JsValue) -> bool {
    match (a, b) {
        (JsValue::Undefined, JsValue::Undefined) => true,
        (JsValue::Null, JsValue::Null) => true,
        (JsValue::Boolean(x), JsValue::Boolean(y)) => x == y,
        (JsValue::Number(x), JsValue::Number(y)) => num_eq(x, y),
        (JsValue::String(x), JsValue::String(y)) => x@ == y@,
        (JsValue::Object(x), JsValue::Object(y)) => x == y,
        _ => false,
    }
}

/// SameValueZero: `===` except that NaN equals NaN.
pub open spec fn same_value_zero(a: JsValue, b: JsValue) -> bool {
    strict_eq(a, b) || (a matches JsValue::Number(x) && b matches JsValue::Number(y) && x is NaN
        && y is NaN)
}

/// Two values are the same up to the identity of string buffers.
pub open spec fn same_value(a: JsValue, b: JsValue) -> bool {
    match (a, b) {
        (JsValue::String(x), JsValue::String(y)) => x@ == y@,
        _ => a == b,
    }
}

pub fn chars_equal(a: &[char], b: &[char]) -> (r: bool)
    ensures
        r == (a@ == b@),
{
    if a.len() != b.len() {
        return false;
    }
    let mut i: usize = 0;
    while i < a.len()
        invariant
            i <= a@.len(),
            a@.len() == b@.len(),
            forall|j: int| 0 <= j < i ==> a@[j] == b@[j],
        decreases a@.len() - i,
    {
        if a[i] != b[i] {
            return false;
        }
        i = i + 1;
    }
    assert(a@ =~= b@);
    true
}

pub fn copy_chars(s: &Vec<char>) -> (r: Vec<char>)
    ensures
        r@ == s@,
{
    let r = s.clone();
    assert(r@ =~= s@);
    r
}

impl JsNumber {
    /// Numeric `===` on numbers.
    pub fn num_equals(&self, other: &JsNumber) -> (b: bool)
        ensures
            b == num_eq(*self, *other),
    {
        match (*self, *other) {
            (
                JsNumber::Finite { neg: na, mant: ma, exp: ea },
                JsNumber::Finite { neg: nb, mant: mb, exp: eb },
            ) => ma == mb && ea == eb && (na == nb || ma == 0),
            (JsNumber::Infinity { neg: na }, JsNumber::Infinity { neg: nb }) => na == nb,
            _ => false,
        }
    }
}

impl JsValue {
    /// A copy of the value.
    pub fn copy(&self) -> (r: JsValue)
        ensures
            same_value(r, *self),
            strict_eq(r, *self) == strict_eq(*self, *self),
            truthy(r) == truthy(*self),
    {
        match self {
            JsValue::Undefined => JsValue::Undefined,
            JsValue::Null => JsValue::Null,
            JsValue::Boolean(b) => JsValue::Boolean(*b),
            JsValue::Number(n) => JsValue::Number(*n),
            JsValue::String(s) => JsValue::String(copy_chars(s)),
            JsValue::Object(o) => JsValue::Object(*o),
        }
    }

    pub fn undefined() -> (r: JsValue)
        ensures
            r == JsValue::Undefined,
    {
        JsValue::Undefined
    }

    pub fn number(n: JsNumber) -> (r: JsValue)
        ensures
            r == JsValue::Number(n),
    {
        JsValue::Number(n)
    }

    pub fn from_usize(n: usize) -> (r: JsValue)
        ensures
            r matches JsValue::Number(x) && x.wf() && (n < MANT_LIMIT ==> x == spec_int(n as int)),
    {
        JsValue::Number(JsNumber::from_usize(n))
    }

    pub fn from_i64(n: i64) -> (r: JsValue)
        ensures
            r matches JsValue::Number(x) && x.wf() && (-(MANT_LIMIT as int) < n < MANT_LIMIT ==> x
                == spec_int(n as int)),
    {
        JsValue::Number(JsNumber::from_i64(n))
    }

    pub fn str_lit(s: &str) -> (r: JsValue)
        ensures
            r matches JsValue::String(c) && c@ == s@,
    {
        JsValue::String(chars_of(s))
    }

    /// `ToBoolean`.
    pub fn to_boolean(&self) -> (b: bool)
        ensures
            b == truthy(*self),
    {
        match self {
            JsValue::Undefined => false,
            JsValue::Null => false,
            JsValue::Boolean(b) => *b,
            JsValue::Number(n) => !n.is_nan() && !n.is_zero(),
            JsValue::String(s) => s.len() > 0,
            JsValue::Object(_) => true,
        }
    }

    pub fn is_nullish(&self) -> (b: bool)
        ensures
            b == (*self is Undefined || *self is Null),
    {
        match self {
            JsValue::Undefined => true,
            JsValue::Null => true,
            _ => false,
        }
    }

    /// Every number a value holds is in canonical form.
    pub open spec fn wf(self) -> bool {
        self matches JsValue::Number(n) ==> n.wf()
    }
}

/// `===`.
pub fn strict_equals(a: &JsValue, b: &JsValue) -> (r: bool)
    ensures
        r == strict_eq(*a, *b),
{
    match (a, b) {
        (JsValue::Undefined, JsValue::Undefined) => true,
        (JsValue::Null, JsValue::Null) => true,
        (JsValue::Boolean(x), JsValue::Boolean(y)) => *x == *y,
        (JsValue::Number(x), JsValue::Number(y)) => x.num_equals(y),
        (JsValue::String(x), JsValue::String(y)) => chars_equal(x.as_slice(), y.as_slice()),
        (JsValue::Object(x), JsValue::Object(y)) => *x == *y,
        _ => false,
    }
}

/// SameValueZero (used by `includes`).
pub fn same_value_zero_equals(a: &JsValue, b: &JsValue) -> (r: bool)
    ensures
        r == same_value_zero(*a, *b),
{
    if strict_equals(a, b) {
        return true;
    }
    match (a, b) {
        (JsValue::Number(x), JsValue::Number(y)) => x.is_nan() && y.is_nan(),
        _ => false,
    }
}

/// A canonical array index written as a key (`"0"` or digits without a leading zero).
/// `key` is the canonical decimal text of an array index: one to ten digits, no
/// leading zero unless it is `0` itself, and a value below 2^32 - 1.
pub open spec fn index_text(key: Seq<char>) -> bool {
    &&& 1 <= key.len() <= 10
    &&& forall|j: int| 0 <= j < key.len() ==> crate::number::is_dec_digit(#[trigger] key[j])
    &&& (key[0] != '0' || key.len() == 1)
    &&& crate::number::digits_value(key) < 4294967295
}

pub fn key_to_index(key: &[char]) -> (r: Option<usize>)
    ensures
        r is Some <==> index_text(key@),
        r matches Some(i) ==> i == crate::number::digits_value(key@) && i < 4294967295,
{
    if key.len() == 0 || key.len() > 10 {
        return None;
    }
    if key[0] == '0' && key.len() > 1 {
        return None;
    }
    let mut v: u64 = 0;
    let mut i: usize = 0;
    proof {
        assert(key@.subrange(0, 0) =~= Seq::<char>::empty());
        assert(crate::number::pow10(9) == 1000000000) by {
            reveal_with_fuel(crate::number::pow10, 10);
        }
    }
    while i < key.len()
        invariant
            i <= key@.len(),
            1 <= key@.len() <= 10,
            v == crate::number::digits_value(key@.subrange(0, i as int)),
            forall|j: int| 0 <= j < i ==> crate::number::is_dec_digit(#[trigger] key@[j]),
            crate::number::pow10(9) == 1000000000,
        decreases key@.len() - i,
    {
        let c = key[i];
        if !is_digit_char(c) {
            return None;
        }
        proof {
            let pre = key@.subrange(0, i as int);
            assert forall|j: int| 0 <= j < pre.len() implies crate::number::is_dec_digit(#[trigger] pre[j]) by {
                assert(pre[j] == key@[j]);
            }
            crate::number::lemma_digits_value_bound(pre);
            crate::number::lemma_pow10_mono(i as nat, 9);
        }
        if v >= 1000000000 {
            return None;
        }
        let ghost next = key@.subrange(0, i + 1);
        assert(next.drop_last() =~= key@.subrange(0, i as int));
        v = v * 10 + ((c as u32) - 48) as u64;
        i = i + 1;
    }
    assert(key@.subrange(0, key@.len() as int) =~= key@);
    if v >= 4294967295 {
        return None;
    }
    Some(v as usize)
}

} // verus!
