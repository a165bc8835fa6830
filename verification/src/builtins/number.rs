//! `Number`: conversion, the number tests and the formatting methods of numbers.

use crate::builtins::helpers::{int_arg, int_arg_value, is_range_error, plain_number, INT_CLAMP};
use crate::builtins::global::{parse_float_text, parse_int_text};
use crate::builtins::string::{direct_text, text_arg};
use crate::interpreter::{lemma_methods_added_push, lemma_texts_differ, methods_added, raise, Interpreter};
use crate::number::{
    chars_of, digits_arg_ok, digits_value, fixed_fraction, int_to_dec, is_digit_text, is_js_space, spec_int, string_to_number,
    JsNumber,
};
use crate::lexer::slice_chars;
use crate::value::{ErrorKind, JsError, JsValue, NativeId, ObjectKind};
use vstd::prelude::*;

verus! {

/// The largest integer that numbers hold exactly (2^53 - 1).
pub const MAX_SAFE_INTEGER: u64 = 9007199254740991;

/// The number `this` stands for when it is a number or a `Number` wrapper.
pub open spec fn number_of(interp: &Interpreter, v: JsValue) -> Option<JsNumber> {
    match v {
        JsValue::Number(n) => if n.wf() {
            Some(n)
        } else {
            None
        },
        JsValue::Object(id) => if id < interp.heap@.len() {
            match interp.heap@[id as int].kind {
                ObjectKind::NumberBox(n) => if n.wf() {
                    Some(n)
                } else {
                    None
                },
                _ => None,
            }
        } else {
            None
        },
        _ => plain_number(v),
    }
}

/// A digit-count argument at position 0: `default` when absent.
pub open spec fn digits_arg(args: Seq<JsValue>, default: int) -> Option<int> {
    if args.len() == 0 {
        Some(default)
    } else {
        int_arg_value(args[0])
    }
}

/// The number `this` converts to.
fn this_number(interp: &Interpreter, this: &JsValue) -> (r: JsNumber)
    ensures
        r.wf(),
        number_of(interp, *this) matches Some(n) ==> r == n,
{
    if let JsValue::Object(id) = this {
        if *id < interp.heap.len() {
            if let ObjectKind::NumberBox(n) = interp.heap[*id].kind {
                if n.check_wf() {
                    return n;
                }
            }
        }
    }
    interp.to_number_primitive(this)
}

/// Argument 0 as a digit count, `default` when absent.
fn digits(interp: &Interpreter, args: &Vec<JsValue>, default: i64) -> (r: i64)
    requires
        -INT_CLAMP <= default <= INT_CLAMP,
    ensures
        -INT_CLAMP <= r <= INT_CLAMP,
        digits_arg(args@, default as int) matches Some(d) ==> r == d,
{
    if args.len() == 0 {
        default
    } else {
        int_arg(interp, args, 0)
    }
}

/// `Number(value)`: the number of the value, 0 without one.
pub fn number_constructor_fn(interp: &mut Interpreter, this: JsValue, args: Vec<JsValue>) -> (r:
    Result<JsValue, JsError>)
    ensures
        *final(interp) == *old(interp),
        r matches Ok(JsValue::Number(n)) && n.wf(),
        args@.len() == 0 ==> r == Ok::<JsValue, JsError>(JsValue::Number(spec_int(0))),
        args@.len() > 0 ==> (plain_number(args@[0]) matches Some(n) ==> r == Ok::<JsValue, JsError>(
            JsValue::Number(n),
        )),
{
    if args.len() == 0 {
        return Ok(JsValue::Number(JsNumber::zero()));
    }
    Ok(JsValue::Number(interp.to_number_primitive(&args[0])))
}

/// `Number.isNaN(v)`: `v` is the number NaN (no conversion).
pub fn number_is_nan(interp: &mut Interpreter, this: JsValue, args: Vec<JsValue>) -> (r: Result<
    JsValue,
    JsError,
>)
    ensures
        *final(interp) == *old(interp),
        r == Ok::<JsValue, JsError>(
            JsValue::Boolean(args@.len() > 0 && (args@[0] matches JsValue::Number(n) && n is NaN)),
        ),
{
    if args.len() > 0 {
        if let JsValue::Number(n) = &args[0] {
            return Ok(JsValue::Boolean(n.is_nan()));
        }
    }
    Ok(JsValue::Boolean(false))
}

/// `Number.isFinite(v)`: `v` is a finite number (no conversion).
pub fn number_is_finite(interp: &mut Interpreter, this: JsValue, args: Vec<JsValue>) -> (r: Result<
    JsValue,
    JsError,
>)
    ensures
        *final(interp) == *old(interp),
        r == Ok::<JsValue, JsError>(
            JsValue::Boolean(args@.len() > 0 && (args@[0] matches JsValue::Number(n) && n is Finite)),
        ),
{
    if args.len() > 0 {
        if let JsValue::Number(n) = &args[0] {
            return Ok(JsValue::Boolean(n.is_finite()));
        }
    }
    Ok(JsValue::Boolean(false))
}

/// `n` is a finite integer.
pub open spec fn is_integer_number(n: JsNumber) -> bool {
    n is Finite && (n.is_integral() || n.is_zero_spec())
}

/// `Number.isInteger(v)`: `v` is a finite integral number.
pub fn number_is_integer(interp: &mut Interpreter, this: JsValue, args: Vec<JsValue>) -> (r: Result<
    JsValue,
    JsError,
>)
    ensures
        *final(interp) == *old(interp),
        r == Ok::<JsValue, JsError>(
            JsValue::Boolean(args@.len() > 0 && (args@[0] matches JsValue::Number(n) && n.wf()
                && is_integer_number(n))),
        ),
{
    if args.len() > 0 {
        if let JsValue::Number(n) = &args[0] {
            return Ok(JsValue::Boolean(n.check_wf() && n.is_integer()));
        }
    }
    Ok(JsValue::Boolean(false))
}

/// `n` is an integer of magnitude at most 2^53 - 1.
pub open spec fn is_safe_integer_number(n: JsNumber) -> bool {
    n.is_small_int() && -(MAX_SAFE_INTEGER as int) <= n.int_value() <= MAX_SAFE_INTEGER
}

/// `Number.isSafeInteger(v)`: `v` is an integer of magnitude at most 2^53 - 1.
pub fn number_is_safe_integer(interp: &mut Interpreter, this: JsValue, args: Vec<JsValue>) -> (r:
    Result<JsValue, JsError>)
    ensures
        *final(interp) == *old(interp),
        r == Ok::<JsValue, JsError>(
            JsValue::Boolean(args@.len() > 0 && (args@[0] matches JsValue::Number(n)
                && is_safe_integer_number(n))),
        ),
{
    if args.len() > 0 {
        if let JsValue::Number(n) = &args[0] {
            let safe = match *n {
                JsNumber::Finite { mant, exp, .. } => exp == 0 && mant <= MAX_SAFE_INTEGER,
                _ => false,
            };
            return Ok(JsValue::Boolean(safe));
        }
    }
    Ok(JsValue::Boolean(false))
}

/// The text is a decimal floating-point literal as the standard library reads one:
/// digits with at most one point and at least one digit, then an optional exponent.
fn is_float_literal(s: &[char], lo: usize, hi: usize) -> (b: bool)
    requires
        lo <= hi <= s@.len(),
{
    let mut i = lo;
    let mut mant = false;
    let mut dot = false;
    while i < hi && (('0' <= s[i] && s[i] <= '9') || (s[i] == '.' && !dot))
        invariant
            lo <= i <= hi,
            hi <= s@.len(),
        decreases hi - i,
    {
        if s[i] == '.' {
            dot = true;
        } else {
            mant = true;
        }
        i = i + 1;
    }
    if !mant {
        return false;
    }
    if i == hi {
        return true;
    }
    if s[i] != 'e' && s[i] != 'E' {
        return false;
    }
    i = i + 1;
    if i < hi && (s[i] == '+' || s[i] == '-') {
        i = i + 1;
    }
    if i == hi {
        return false;
    }
    while i < hi
        invariant
            lo <= i <= hi,
            hi <= s@.len(),
        decreases hi - i,
    {
        if s[i] < '0' || s[i] > '9' {
            return false;
        }
        i = i + 1;
    }
    true
}

/// `s[i..hi]` equals `word` ignoring ASCII case.
/// `s[i..hi]` spells `w`, each character either as in `w` or as the capital of the
/// lower-case letter there.
pub open spec fn word_matches(s: Seq<char>, i: int, hi: int, w: Seq<char>) -> bool {
    &&& hi - i == w.len()
    &&& forall|k: int| 0 <= k < w.len() ==> (s[i + k] as u32 == #[trigger] w[k] as u32 || s[i + k] as u32 + 32
        == w[k] as u32)
}

fn word_at(s: &[char], i: usize, hi: usize, word: &str) -> (b: bool)
    requires
        i <= hi <= s@.len(),
    ensures
        b == word_matches(s@, i as int, hi as int, word@),
{
    let w = chars_of(word);
    if hi - i != w.len() {
        return false;
    }
    let mut k: usize = 0;
    while k < w.len()
        invariant
            k <= w@.len(),
            i + w@.len() == hi,
            hi <= s@.len(),
            w@ == word@,
            forall|j: int| 0 <= j < k ==> (s@[i + j] as u32 == #[trigger] w@[j] as u32 || s@[i + j] as u32 + 32
                == w@[j] as u32),
        decreases w@.len() - k,
    {
        let c = s[i + k] as u32;
        let w_code = w[k] as u32;
        if c != w_code && (c as u64) + 32 != (w_code as u64) {
            return false;
        }
        k = k + 1;
    }
    true
}

/// `Number.parseFloat(string)`: the same function as the global `parseFloat`.
pub fn number_parse_float(interp: &mut Interpreter, this: JsValue, args: Vec<JsValue>) -> (r: Result<
    JsValue,
    JsError,
>)
    ensures
        final(interp).spends(old(interp), r is Err) || *final(interp) == *old(interp),
        r matches Ok(v) ==> (v matches JsValue::Number(n) && n.wf()),
        args@.len() == 0 ==> (r matches Ok(JsValue::Number(n)) && n is NaN),
        args@.len() >= 1 && args@[0] is String && is_digit_text(args@[0]->String_0@) ==> r == Ok::<JsValue, JsError>(
            JsValue::Number(spec_int(digits_value(args@[0]->String_0@) as int))),
    decreases old(interp).fuel,
{
    let s = match direct_text(&args) {
        Some(t) => t,
        None => {
            interp.step()?;
            text_arg(interp, &args, 0)?
        },
    };
    Ok(JsValue::Number(parse_float_text(s.as_slice())))
}

/// `Number.parseInt(string, radix)`: the same function as the global `parseInt`.
pub fn number_parse_int(interp: &mut Interpreter, this: JsValue, args: Vec<JsValue>) -> (r: Result<
    JsValue,
    JsError,
>)
    ensures
        final(interp).spends(old(interp), r is Err) || *final(interp) == *old(interp),
        r matches Ok(v) ==> (v matches JsValue::Number(n) && n.wf()),
        args@.len() == 0 ==> (r matches Ok(JsValue::Number(n)) && n is NaN),
        args@.len() == 1 && args@[0] is String && is_digit_text(args@[0]->String_0@) ==> (r matches Ok(JsValue::Number(n))
            && n.is_small_int() && n.int_value() == digits_value(args@[0]->String_0@)),
        args@.len() == 1 && args@[0] is String && crate::builtins::global::parsed_int(args@[0]->String_0@) is Some ==> (r matches Ok(
            JsValue::Number(n)) && n.is_small_int() && n.int_value() == crate::builtins::global::parsed_int(args@[0]->String_0@).unwrap()),
        args@.len() == 1 && args@[0] is String && crate::builtins::global::int_digits_start(args@[0]->String_0@) == crate::builtins::global::int_digits_end(
            args@[0]->String_0@,
        ) ==> (r matches Ok(JsValue::Number(n)) && n is NaN),
    decreases old(interp).fuel,
{
    let s = match direct_text(&args) {
        Some(t) => t,
        None => {
            interp.step()?;
            text_arg(interp, &args, 0)?
        },
    };
    let radix: i64 = if args.len() > 1 {
        int_arg(interp, &args, 1)
    } else {
        10
    };
    Ok(JsValue::Number(parse_int_text(s.as_slice(), radix)))
}

/// `n.toFixed(digits)`: `RangeError` unless `0 <= digits <= 100`.
pub fn number_to_fixed(interp: &mut Interpreter, this: JsValue, args: Vec<JsValue>) -> (r: Result<
    JsValue,
    JsError,
>)
    ensures
        *final(interp) == *old(interp),
        r is Ok || is_range_error(r),
        digits_arg(args@, 0) matches Some(d) ==> (r is Ok <==> 0 <= d <= 100),
        r matches Ok(v) ==> v is String,
        (number_of(old(interp), this) is Some && number_of(old(interp), this).unwrap().is_small_int() && digits_arg(
            args@,
            0,
        ) is Some && 0 <= digits_arg(args@, 0).unwrap() <= 100) ==> (r matches Ok(JsValue::String(t)) && t@ == int_to_dec(
            number_of(old(interp), this).unwrap().int_value(),
        ) + fixed_fraction(digits_arg(args@, 0).unwrap() as nat)),
{
    let n = this_number(interp, &this);
    let d = digits(interp, &args, 0);
    if !digits_arg_ok(d, 0) {
        return Err(raise(ErrorKind::RangeError, "toFixed() digits argument must be between 0 and 100"));
    }
    Ok(JsValue::String(n.to_fixed(d as u32)))
}

/// `n.toString(radix)`: `RangeError` unless `2 <= radix <= 36`; base ten by default.
pub fn number_to_string(interp: &mut Interpreter, this: JsValue, args: Vec<JsValue>) -> (r: Result<
    JsValue,
    JsError,
>)
    ensures
        *final(interp) == *old(interp),
        r is Ok || is_range_error(r),
        digits_arg(args@, 10) matches Some(d) ==> (r is Ok <==> 2 <= d <= 36),
        r matches Ok(v) ==> v is String,
        digits_arg(args@, 10) == Some(10int) ==> (number_of(old(interp), this) matches Some(n) ==> (
        n.is_small_int() ==> (r matches Ok(JsValue::String(t)) && t@ == crate::number::int_to_dec(
            n.int_value(),
        )))),
{
    let n = this_number(interp, &this);
    let radix = digits(interp, &args, 10);
    if radix < 2 || radix > 36 {
        return Err(raise(ErrorKind::RangeError, "toString() radix must be between 2 and 36"));
    }
    Ok(JsValue::String(n.to_string_radix(radix as u32)))
}

/// `n.toPrecision(p)`: plain text without `p`; `RangeError` unless `1 <= p <= 100`.
pub fn number_to_precision(interp: &mut Interpreter, this: JsValue, args: Vec<JsValue>) -> (r: Result<
    JsValue,
    JsError,
>)
    ensures
        *final(interp) == *old(interp),
        r is Ok || is_range_error(r),
        (args@.len() == 0 || args@[0] is Undefined) ==> r is Ok,
        (args@.len() > 0 && !(args@[0] is Undefined)) ==> (int_arg_value(args@[0]) matches Some(p) ==> (r is Ok
            <==> 1 <= p <= 100)),
        r matches Ok(v) ==> v is String,
{
    let n = this_number(interp, &this);
    if args.len() == 0 {
        return Ok(JsValue::String(n.to_js_string()));
    }
    if let JsValue::Undefined = args[0] {
        return Ok(JsValue::String(n.to_js_string()));
    }
    let p = int_arg(interp, &args, 0);
    if !digits_arg_ok(p, 1) {
        return Err(raise(ErrorKind::RangeError, "toPrecision() argument must be between 1 and 100"));
    }
    if !n.is_finite() {
        return Ok(JsValue::String(n.to_js_string()));
    }
    Ok(JsValue::String(n.to_precision(p as u32)))
}

/// `n.toExponential(digits)`: plain text for NaN and the infinities; otherwise
/// `RangeError` unless `0 <= digits <= 100` (6 when absent).
pub fn number_to_exponential(interp: &mut Interpreter, this: JsValue, args: Vec<JsValue>) -> (r:
    Result<JsValue, JsError>)
    ensures
        *final(interp) == *old(interp),
        r is Ok || is_range_error(r),
        (number_of(old(interp), this) matches Some(n) && !(n is Finite)) ==> r is Ok,
        (number_of(old(interp), this) matches Some(n) && n is Finite) ==> (digits_arg(args@, 6) matches Some(d)
            ==> (r is Ok <==> 0 <= d <= 100)),
        r matches Ok(v) ==> v is String,
{
    let n = this_number(interp, &this);
    if !n.is_finite() {
        return Ok(JsValue::String(n.to_js_string()));
    }
    let d = digits(interp, &args, 6);
    if !digits_arg_ok(d, 0) {
        return Err(raise(ErrorKind::RangeError, "toExponential() argument must be between 0 and 100"));
    }
    Ok(JsValue::String(n.to_exponential(d as u32)))
}

/// Installs `toFixed`, `toString`, `toPrecision` and `toExponential` on `Number.prototype`.
pub fn init_number_prototype(interp: &mut Interpreter)
    ensures
        final(interp).grows(old(interp)),
        final(interp).same_state(old(interp)),
        final(interp).heap@.len() == old(interp).heap@.len() + 4,
        forall|i: int| 0 <= i < old(interp).heap@.len() && i != old(interp).number_prototype ==> #[trigger] final(interp).heap@[i] == old(interp).heap@[i],
        old(interp).number_prototype < old(interp).heap@.len() ==> methods_added(
            old(interp).heap@[old(interp).number_prototype as int],
            final(interp).heap@[old(interp).number_prototype as int],
            number_method_names(),
            old(interp).heap@.len() as int,
        ),
{
    let p = interp.number_prototype;
    let ghost h0 = interp.heap@.len() as int;
    let ghost o0 = interp.heap@[p as int];
    interp.register_method(p, "toFixed", NativeId::NumberToFixed, 1);
    let ghost o1 = interp.heap@[p as int];
    interp.register_method(p, "toString", NativeId::NumberToString, 1);
    let ghost o2 = interp.heap@[p as int];
    interp.register_method(p, "toPrecision", NativeId::NumberToPrecision, 1);
    let ghost o3 = interp.heap@[p as int];
    interp.register_method(p, "toExponential", NativeId::NumberToExponential, 1);
    let ghost o4 = interp.heap@[p as int];
    proof {
        if p < h0 {
            reveal_strlit("toFixed");
            reveal_strlit("toString");
            reveal_strlit("toPrecision");
            reveal_strlit("toExponential");
            let q1 = seq!["toFixed"@];
            lemma_texts_differ("toFixed"@, "toString"@, 0);
            lemma_methods_added_push(o0, o1, o2, q1, "toString"@, h0);
            let q2 = q1.push("toString"@);
            lemma_texts_differ("toFixed"@, "toPrecision"@, 0);
            lemma_texts_differ("toString"@, "toPrecision"@, 0);
            lemma_methods_added_push(o0, o2, o3, q2, "toPrecision"@, h0);
            let q3 = q2.push("toPrecision"@);
            lemma_texts_differ("toFixed"@, "toExponential"@, 0);
            lemma_texts_differ("toString"@, "toExponential"@, 0);
            lemma_texts_differ("toPrecision"@, "toExponential"@, 0);
            lemma_methods_added_push(o0, o3, o4, q3, "toExponential"@, h0);
            let q4 = q3.push("toExponential"@);
            assert(q4 =~= number_method_names());
        }
    }
}

/// The methods that `init_number_prototype` installs on `Number.prototype`, in order.
pub open spec fn number_method_names() -> Seq<Seq<char>> {
    seq![
        "toFixed"@,
        "toString"@,
        "toPrecision"@,
        "toExponential"@,
    ]
}


/// The `Number` function with its tests, parsers and constants.
pub fn create_number_constructor(interp: &mut Interpreter) -> (f: usize)
    ensures
        final(interp).scopes@ == old(interp).scopes@,
        f < final(interp).heap@.len(),
        final(interp).grows(old(interp)),
        final(interp).same_registers(old(interp)),
{
    let f = interp.create_native(NativeId::NumberCtor, "Number", 1);
    interp.register_method(f, "isNaN", NativeId::NumberIsNaN, 1);
    interp.register_method(f, "isFinite", NativeId::NumberIsFinite, 1);
    interp.register_method(f, "isInteger", NativeId::NumberIsInteger, 1);
    interp.register_method(f, "isSafeInteger", NativeId::NumberIsSafeInteger, 1);
    interp.register_method(f, "parseFloat", NativeId::NumberParseFloat, 1);
    interp.register_method(f, "parseInt", NativeId::NumberParseInt, 2);
    interp.put_own(f, chars_of("MAX_VALUE"), JsValue::Number(JsNumber::Finite { neg: false, mant: 17976931348623157, exp: 292 }), false);
    interp.put_own(f, chars_of("MIN_VALUE"), JsValue::Number(JsNumber::Finite { neg: false, mant: 22250738585072014, exp: -324 }), false);
    interp.put_own(f, chars_of("MAX_SAFE_INTEGER"), JsValue::Number(JsNumber::from_u64(MAX_SAFE_INTEGER)), false);
    interp.put_own(f, chars_of("MIN_SAFE_INTEGER"), JsValue::Number(JsNumber::from_u64(MAX_SAFE_INTEGER).neg()), false);
    interp.put_own(f, chars_of("NaN"), JsValue::Number(JsNumber::nan()), false);
    interp.put_own(f, chars_of("POSITIVE_INFINITY"), JsValue::Number(JsNumber::infinity(false)), false);
    interp.put_own(f, chars_of("NEGATIVE_INFINITY"), JsValue::Number(JsNumber::infinity(true)), false);
    interp.put_own(f, chars_of("EPSILON"), JsValue::Number(JsNumber::Finite { neg: false, mant: 22204460492503131, exp: -32 }), false);
    let p = interp.number_prototype;
    interp.put_own(f, chars_of("prototype"), JsValue::Object(p), false);
    f
}

} // verus!
