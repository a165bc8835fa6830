//! Argument conversions shared by the built-in functions.
use crate::interpreter::{type_error, Interpreter};
use crate::number::{int_to_dec, spec_int, JsNumber};
use crate::value::{same_value, ErrorKind, JsError, JsValue};
use vstd::prelude::*;

verus! {

/// Integer arguments are clamped to this magnitude (2^53).
pub const INT_CLAMP: i64 = 9007199254740992;

/// Two value sequences hold the same values.
pub open spec fn same_seq(a: Seq<JsValue>, b: Seq<JsValue>) -> bool {
    &&& a.len() == b.len()
    &&& forall|i: int| 0 <= i < a.len() ==> same_value(#[trigger] a[i], b[i])
}

/// The result is a `TypeError`.
pub open spec fn is_type_error<T>(r: Result<T, JsError>) -> bool {
    r matches Err(JsError::Raised(k, _)) && k == ErrorKind::TypeError
}

/// The result is a `RangeError`.
pub open spec fn is_range_error<T>(r: Result<T, JsError>) -> bool {
    r matches Err(JsError::Raised(k, _)) && k == ErrorKind::RangeError
}

/// The number a primitive converts to, where that conversion does not read text.
pub open spec fn plain_number(v: JsValue) -> Option<JsNumber> {
    match v {
        JsValue::Number(n) => if n.wf() {
            Some(n)
        } else {
            None
        },
        JsValue::Undefined => Some(JsNumber::NaN),
        JsValue::Null => Some(spec_int(0)),
        JsValue::Boolean(b) => Some(spec_int(if b { 1 } else { 0 })),
        JsValue::String(t) => if crate::number::is_digit_text(t@) {
            Some(spec_int(crate::number::digits_value(t@) as int))
        } else {
            None
        },
        _ => None,
    }
}

/// `ToIntegerOrInfinity` clamped to ±2^53, for NaN, the infinities and integers.
pub open spec fn clamped_int(n: JsNumber) -> Option<int> {
    match n {
        JsNumber::NaN => Some(0),
        JsNumber::Infinity { neg } => Some(if neg { -INT_CLAMP } else { INT_CLAMP as int }),
        JsNumber::Finite { .. } => if n.is_small_int() && -INT_CLAMP <= n.int_value() <= INT_CLAMP {
            Some(n.int_value())
        } else {
            None
        },
    }
}

/// The integer an argument stands for, where it is a plain integer, NaN or infinite.
pub open spec fn int_arg_value(v: JsValue) -> Option<int> {
    match plain_number(v) {
        Some(n) => clamped_int(n),
        None => None,
    }
}

/// A relative position clamped into `0..=len`: negative values count from the end.
pub open spec fn relative(n: int, len: int) -> int {
    if n < 0 {
        if len + n < 0 {
            0
        } else {
            len + n
        }
    } else if n < len {
        n
    } else {
        len
    }
}

/// Argument `k` as a position in `0..=len`, `default` when it is absent.
pub open spec fn position_arg(args: Seq<JsValue>, k: int, default: int, len: int) -> Option<int> {
    if k >= args.len() {
        Some(default)
    } else {
        match int_arg_value(args[k]) {
            Some(n) => Some(relative(n, len)),
            None => None,
        }
    }
}

/// The elements of `v` if it is an array.
pub open spec fn array_value(interp: &Interpreter, v: JsValue) -> Option<Seq<JsValue>> {
    match v {
        JsValue::Object(id) => interp.array_at(id),
        _ => None,
    }
}

/// The integer value of argument `k`, 0 when it is absent.
pub fn int_arg(interp: &Interpreter, args: &Vec<JsValue>, k: usize) -> (r: i64)
    ensures
        -INT_CLAMP <= r <= INT_CLAMP,
        k < args@.len() ==> (int_arg_value(args@[k as int]) matches Some(n) ==> r == n),
        k >= args@.len() ==> r == 0,
{
    if k >= args.len() {
        return 0;
    }
    let n = interp.to_number_primitive(&args[k]);
    n.to_integer_clamped()
}

/// Argument `k` as a position in `0..=len` (negative values count from the end).
pub fn position(interp: &Interpreter, args: &Vec<JsValue>, k: usize, default: usize, len: usize) -> (r: usize)
    requires
        default <= len,
    ensures
        r <= len,
        position_arg(args@, k as int, default as int, len as int) matches Some(p) ==> r == p,
{
    if k >= args.len() {
        return default;
    }
    let n = int_arg(interp, args, k) as i128;
    let l = len as i128;
    if n < 0 {
        if l + n < 0 {
            0
        } else {
            (l + n) as usize
        }
    } else if n < l {
        n as usize
    } else {
        len
    }
}

/// The heap index of the array `this`, or a `TypeError`.
pub fn this_array(interp: &Interpreter, this: &JsValue) -> (r: Result<usize, JsError>)
    ensures
        r matches Ok(id) ==> *this == JsValue::Object(id) && interp.array_at(id) is Some,
        r is Ok <==> array_value(interp, *this) is Some,
        r is Err ==> is_type_error(r),
{
    match this {
        JsValue::Object(id) => {
            if interp.is_array(this) {
                Ok(*id)
            } else {
                Err(type_error("Not an array"))
            }
        },
        _ => Err(type_error("Array method called on non-object")),
    }
}

/// The text `ToString` gives for a value without running program code, where it is known.
pub open spec fn plain_text(v: JsValue) -> Option<Seq<char>> {
    match v {
        JsValue::Undefined => Some("undefined"@),
        JsValue::Null => Some("null"@),
        JsValue::Boolean(b) => Some(if b { "true"@ } else { "false"@ }),
        JsValue::Number(n) => if n.wf() {
            Some(crate::number::num_text(n))
        } else if n is NaN {
            Some("NaN"@)
        } else {
            None
        },
        JsValue::String(s) => Some(s@),
        JsValue::Object(_) => None,
    }
}

/// What an element contributes to `join`: nothing for `undefined` and `null`.
pub open spec fn join_part(v: JsValue) -> Option<Seq<char>> {
    match v {
        JsValue::Undefined => Some(Seq::empty()),
        JsValue::Null => Some(Seq::empty()),
        _ => plain_text(v),
    }
}

/// Every element has a known `join` part.
pub open spec fn all_plain(s: Seq<JsValue>) -> bool {
    forall|i: int| 0 <= i < s.len() ==> (#[trigger] join_part(s[i])) is Some
}

/// The texts joined with `sep` between them.
pub open spec fn join_texts(s: Seq<JsValue>, sep: Seq<char>) -> Seq<char>
    decreases s.len(),
{
    if s.len() == 0 {
        Seq::empty()
    } else if s.len() == 1 {
        join_part(s[0]).unwrap()
    } else {
        join_texts(s.drop_last(), sep) + sep + join_part(s.last()).unwrap()
    }
}

} // verus!
