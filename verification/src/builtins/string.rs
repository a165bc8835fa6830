//! `String` and `String.prototype`.
use crate::builtins::array::is_count;
use crate::builtins::helpers::{int_arg, int_arg_value, plain_text, position, position_arg};
use crate::interpreter::{global_set, Interpreter};
use crate::lexer::char_from_code;
use crate::number::{append_chars, chars_of, is_js_space, is_space_char, spec_int, starts_with_at, JsNumber};
use crate::value::{copy_chars, ErrorKind, JsError, JsValue, NativeId, ObjectKind};
use crate::interpreter::raise;
use vstd::prelude::*;

verus! {

/// Longest string a string method builds.
pub const MAX_STRING_LENGTH: usize = 536870888;

/// `p` occurs in `s` at position `i`.
pub open spec fn occurs_at(s: Seq<char>, p: Seq<char>, i: int) -> bool {
    0 <= i && i + p.len() <= s.len() && s.subrange(i, i + p.len()) == p
}

/// The first position at or after `i` where `p` occurs in `s`, or -1.
pub open spec fn find_from(s: Seq<char>, p: Seq<char>, i: int) -> int
    decreases s.len() + 1 - i,
{
    if i < 0 || i + p.len() > s.len() {
        -1
    } else if occurs_at(s, p, i) {
        i
    } else {
        find_from(s, p, i + 1)
    }
}

/// The last position at or before `i` where `p` occurs in `s`, or -1.
pub open spec fn rfind_upto(s: Seq<char>, p: Seq<char>, i: int) -> int
    decreases i + 1,
{
    if i < 0 {
        -1
    } else if occurs_at(s, p, i) {
        i
    } else {
        rfind_upto(s, p, i - 1)
    }
}

/// The text a string argument stands for: `""` when absent, the value's text otherwise.
pub open spec fn text_arg_spec(args: Seq<JsValue>, k: int) -> Option<Seq<char>> {
    if k >= args.len() {
        Some(Seq::empty())
    } else {
        plain_text(args[k])
    }
}

/// A count argument: absent gives `default`, negative numbers and NaN give 0.
pub open spec fn count_arg_spec(args: Seq<JsValue>, k: int, default: int) -> Option<int> {
    if k >= args.len() {
        Some(default)
    } else {
        match int_arg_value(args[k]) {
            Some(n) => Some(
                if n < 0 {
                    0
                } else if n > usize::MAX {
                    usize::MAX as int
                } else {
                    n
                },
            ),
            None => None,
        }
    }
}

/// Index of the first occurrence of `p` in `s` at or after `from`.
pub fn find_text(s: &[char], p: &[char], from: usize) -> (r: Option<usize>)
    ensures
        (match r {
            Some(i) => i as int == find_from(s@, p@, from as int),
            None => find_from(s@, p@, from as int) == -1,
        }),
{
    let mut i = from;
    while i <= s.len()
        invariant
            from <= i,
            find_from(s@, p@, from as int) == find_from(s@, p@, i as int),
        decreases s@.len() + 1 - i,
    {
        if p.len() > s.len() - i {
            return None;
        }
        if starts_with_at(s, i, p) {
            return Some(i);
        }
        if i == s.len() {
            proof {
                assert(s@.subrange(i as int, i as int) =~= p@);
            }
            return None;
        }
        i = i + 1;
    }
    None
}

/// Index of the last occurrence of `p` in `s` at or before `upto`.
pub fn rfind_text(s: &[char], p: &[char], upto: usize) -> (r: Option<usize>)
    ensures
        (match r {
            Some(i) => i as int == rfind_upto(s@, p@, upto as int),
            None => rfind_upto(s@, p@, upto as int) == -1,
        }),
{
    let mut i = upto;
    loop
        invariant
            i <= upto,
            rfind_upto(s@, p@, upto as int) == rfind_upto(s@, p@, i as int),
        decreases i,
    {
        if i <= s.len() && starts_with_at(s, i, p) {
            return Some(i);
        }
        proof {
            if i > s.len() {
                assert(!occurs_at(s@, p@, i as int));
            }
        }
        if i == 0 {
            assert(rfind_upto(s@, p@, -1) == -1);
            return None;
        }
        i = i - 1;
    }
}

/// The text of `this` for a string method.
fn this_text(interp: &mut Interpreter, this: &JsValue) -> (r: Result<Vec<char>, JsError>)
    ensures
        final(interp).spends(old(interp), r is Err) || *final(interp) == *old(interp),
        plain_text(*this) matches Some(t) ==> (r matches Ok(u) ==> u@ == t),
        *this matches JsValue::String(s) ==> (r matches Ok(u) && u@ == s@ && *final(interp) == *old(interp)),
    decreases old(interp).fuel,
{
    match this {
        JsValue::String(s) => Ok(copy_chars(s)),
        JsValue::Object(id) => {
            if *id < interp.heap.len() {
                if let ObjectKind::StringBox(s) = &interp.heap[*id].kind {
                    return Ok(copy_chars(s));
                }
            }
            interp.step()?;
            interp.to_js_string(this)
        },
        _ => {
            interp.step()?;
            interp.to_js_string(this)
        },
    }
}

/// Argument `k` needs no conversion to text: it is absent or a string.
pub open spec fn direct_arg(args: Seq<JsValue>, k: int) -> bool {
    k >= args.len() || args[k] is String
}

/// The text of argument 0 when it is absent (`""`) or a string.
pub fn direct_text(args: &Vec<JsValue>) -> (r: Option<Vec<char>>)
    ensures
        r matches Some(t) ==> text_arg_spec(args@, 0) == Some(t@),
        (args@.len() == 0 || args@[0] is String) ==> r is Some,
{
    if args.len() == 0 {
        return Some(Vec::new());
    }
    match &args[0] {
        JsValue::String(s) => Some(copy_chars(s)),
        _ => None,
    }
}

/// The text of argument `k`: `""` when it is absent.
pub fn text_arg(interp: &mut Interpreter, args: &Vec<JsValue>, k: usize) -> (r: Result<Vec<char>, JsError>)
    ensures
        final(interp).spends(old(interp), r is Err) || *final(interp) == *old(interp),
        text_arg_spec(args@, k as int) matches Some(t) ==> (r matches Ok(u) ==> u@ == t),
        (k >= args@.len() || args@[k as int] is String) ==> (r is Ok && *final(interp) == *old(interp)),
    decreases old(interp).fuel,
{
    if k >= args.len() {
        return Ok(Vec::new());
    }
    match &args[k] {
        JsValue::String(s) => Ok(copy_chars(s)),
        v => {
            interp.step()?;
            interp.to_js_string(v)
        },
    }
}

/// A count argument: `default` when absent, at least 0.
fn count_arg(interp: &Interpreter, args: &Vec<JsValue>, k: usize, default: usize) -> (r: usize)
    ensures
        count_arg_spec(args@, k as int, default as int) matches Some(n) ==> r == n,
{
    if k >= args.len() {
        return default;
    }
    let n = int_arg(interp, args, k);
    if n < 0 {
        0
    } else if n as u64 > usize::MAX as u64 {
        usize::MAX
    } else {
        n as usize
    }
}

/// A text as a string value.
fn text_value(t: Vec<char>) -> (r: JsValue)
    ensures
        r == JsValue::String(t),
{
    JsValue::String(t)
}

/// `s[start..end]`.
fn sub_text(s: &Vec<char>, start: usize, end: usize) -> (r: Vec<char>)
    requires
        start <= end <= s@.len(),
    ensures
        r@ == s@.subrange(start as int, end as int),
{
    let mut out: Vec<char> = Vec::new();
    let mut i = start;
    while i < end
        invariant
            start <= i <= end,
            end <= s@.len(),
            out@ == s@.subrange(start as int, i as int),
        decreases end - i,
    {
        out.push(s[i]);
        proof {
            assert(out@ =~= s@.subrange(start as int, i + 1));
        }
        i = i + 1;
    }
    out
}

/// `s.charAt(i)`: the character at `i` as a string, `""` out of range.
pub fn string_char_at(interp: &mut Interpreter, this: JsValue, args: Vec<JsValue>) -> (r: Result<
    JsValue,
    JsError,
>)
    ensures
        final(interp).spends(old(interp), r is Err),
        plain_text(this) matches Some(s) ==> (count_arg_spec(args@, 0, 0) matches Some(i) ==> (r matches Ok(v)
            ==> v matches JsValue::String(c) && c@ == (if i < s.len() { seq![s[i]] } else { Seq::empty() }))),
        this is String && old(interp).fuel > 0 ==> r is Ok,
    decreases old(interp).fuel,
{
    interp.step()?;
    let s = this_text(interp, &this)?;
    let i = count_arg(interp, &args, 0, 0);
    let mut out: Vec<char> = Vec::new();
    if i < s.len() {
        out.push(s[i]);
    }
    Ok(text_value(out))
}

/// `s.charCodeAt(i)`: the code point at `i`, NaN out of range.
pub fn string_char_code_at(interp: &mut Interpreter, this: JsValue, args: Vec<JsValue>) -> (r: Result<
    JsValue,
    JsError,
>)
    ensures
        final(interp).spends(old(interp), r is Err),
        plain_text(this) matches Some(s) ==> (count_arg_spec(args@, 0, 0) matches Some(i) ==> (r matches Ok(v)
            ==> (if i < s.len() {
            v == JsValue::Number(spec_int((s[i] as u32) as int))
        } else {
            v == JsValue::Number(JsNumber::NaN)
        }))),
        this is String && old(interp).fuel > 0 ==> r is Ok,
    decreases old(interp).fuel,
{
    interp.step()?;
    let s = this_text(interp, &this)?;
    let i = count_arg(interp, &args, 0, 0);
    if i < s.len() {
        let c = s[i] as u32;
        Ok(JsValue::Number(JsNumber::from_u64(c as u64)))
    } else {
        Ok(JsValue::Number(JsNumber::NaN))
    }
}

/// A position as a number value, or -1.
fn position_value(r: Option<usize>) -> (v: JsValue)
    ensures
        (match r {
            Some(i) => is_count(v, i as int),
            None => v == JsValue::Number(spec_int(-1)),
        }),
{
    match r {
        Some(i) => JsValue::from_usize(i),
        None => JsValue::Number(JsNumber::from_i64(-1)),
    }
}

/// `s.indexOf(p, from)`: the first position of `p` at or after `from`, or -1.
pub fn string_index_of(interp: &mut Interpreter, this: JsValue, args: Vec<JsValue>) -> (r: Result<
    JsValue,
    JsError,
>)
    ensures
        final(interp).spends(old(interp), r is Err),
        plain_text(this) matches Some(s) ==> (text_arg_spec(args@, 0) matches Some(p) ==> (count_arg_spec(args@, 1, 0) matches Some(
            from,
        ) ==> (r matches Ok(v) ==> (if from >= s.len() || find_from(s, p, from) == -1 {
            v == JsValue::Number(spec_int(-1))
        } else {
            is_count(v, find_from(s, p, from))
        })))),
        this is String && direct_arg(args@, 0) && old(interp).fuel > 0 ==> r is Ok,
    decreases old(interp).fuel,
{
    interp.step()?;
    let s = this_text(interp, &this)?;
    let p = text_arg(interp, &args, 0)?;
    let from = count_arg(interp, &args, 1, 0);
    if from >= s.len() {
        return Ok(position_value(None));
    }
    Ok(position_value(find_text(s.as_slice(), p.as_slice(), from)))
}

/// `s.lastIndexOf(p, from)`: the last position of `p` at or before `from` (default: the end).
pub fn string_last_index_of(interp: &mut Interpreter, this: JsValue, args: Vec<JsValue>) -> (r: Result<
    JsValue,
    JsError,
>)
    ensures
        final(interp).spends(old(interp), r is Err),
        args@.len() < 2 ==> (plain_text(this) matches Some(s) ==> (text_arg_spec(args@, 0) matches Some(p) ==> (p.len()
            > 0 ==> (r matches Ok(v) ==> (if rfind_upto(s, p, s.len() - p.len()) == -1 {
            v == JsValue::Number(spec_int(-1))
        } else {
            is_count(v, rfind_upto(s, p, s.len() - p.len()))
        }))))),
        this is String && direct_arg(args@, 0) && old(interp).fuel > 0 ==> r is Ok,
    decreases old(interp).fuel,
{
    interp.step()?;
    let s = this_text(interp, &this)?;
    let p = text_arg(interp, &args, 0)?;
    let len = s.len();
    let from: usize = if args.len() > 1 {
        let n = interp.to_number_primitive(&args[1]);
        if n.is_nan() {
            len
        } else {
            count_arg(interp, &args, 1, 0)
        }
    } else {
        len
    };
    if p.len() == 0 {
        return Ok(JsValue::from_usize(if from < len { from } else { len }));
    }
    if p.len() > len {
        proof {
            assert(rfind_upto(s@, p@, s@.len() - p@.len()) == -1);
        }
        return Ok(position_value(None));
    }
    let upto = if from < len - p.len() {
        from
    } else {
        len - p.len()
    };
    Ok(position_value(rfind_text(s.as_slice(), p.as_slice(), upto)))
}

/// `s.at(i)`: the character at `i` (negative from the end) as a string, else `undefined`.
pub fn string_at(interp: &mut Interpreter, this: JsValue, args: Vec<JsValue>) -> (r: Result<
    JsValue,
    JsError,
>)
    ensures
        final(interp).spends(old(interp), r is Err),
        plain_text(this) matches Some(s) ==> (int_arg_value(if args@.len() > 0 { args@[0] } else { JsValue::Undefined }) matches Some(n) ==> (r matches Ok(v) ==> (if 0 <= (if n < 0 { s.len() + n } else { n }) < s.len() {
            v matches JsValue::String(c) && c@ == seq![s[if n < 0 { s.len() + n } else { n }]]
        } else {
            v == JsValue::Undefined
        }))),
        this is String && old(interp).fuel > 0 ==> r is Ok,
    decreases old(interp).fuel,
{
    interp.step()?;
    let s = this_text(interp, &this)?;
    let n = int_arg(interp, &args, 0) as i128;
    let len = s.len() as i128;
    let k = if n < 0 {
        len + n
    } else {
        n
    };
    if k < 0 || k >= len {
        return Ok(JsValue::Undefined);
    }
    let mut out: Vec<char> = Vec::new();
    out.push(s[k as usize]);
    Ok(text_value(out))
}

/// `s.includes(p, from)`: whether `p` occurs at or after `from`.
pub fn string_includes(interp: &mut Interpreter, this: JsValue, args: Vec<JsValue>) -> (r: Result<
    JsValue,
    JsError,
>)
    ensures
        final(interp).spends(old(interp), r is Err),
        plain_text(this) matches Some(s) ==> (text_arg_spec(args@, 0) matches Some(p) ==> (count_arg_spec(args@, 1, 0) matches Some(
            from,
        ) ==> (r matches Ok(v) ==> v == JsValue::Boolean(
            if from >= s.len() {
                p.len() == 0
            } else {
                find_from(s, p, from) != -1
            },
        )))),
        this is String && direct_arg(args@, 0) && old(interp).fuel > 0 ==> r is Ok,
    decreases old(interp).fuel,
{
    interp.step()?;
    let s = this_text(interp, &this)?;
    let p = text_arg(interp, &args, 0)?;
    let from = count_arg(interp, &args, 1, 0);
    if from >= s.len() {
        return Ok(JsValue::Boolean(p.len() == 0));
    }
    Ok(JsValue::Boolean(find_text(s.as_slice(), p.as_slice(), from).is_some()))
}

/// `s.startsWith(p, pos)`: whether `p` occurs at `pos`.
pub fn string_starts_with(interp: &mut Interpreter, this: JsValue, args: Vec<JsValue>) -> (r: Result<
    JsValue,
    JsError,
>)
    ensures
        final(interp).spends(old(interp), r is Err),
        plain_text(this) matches Some(s) ==> (text_arg_spec(args@, 0) matches Some(p) ==> (count_arg_spec(args@, 1, 0) matches Some(
            pos,
        ) ==> (r matches Ok(v) ==> v == JsValue::Boolean(
            if pos >= s.len() {
                p.len() == 0
            } else {
                occurs_at(s, p, pos)
            },
        )))),
        this is String && direct_arg(args@, 0) && old(interp).fuel > 0 ==> r is Ok,
    decreases old(interp).fuel,
{
    interp.step()?;
    let s = this_text(interp, &this)?;
    let p = text_arg(interp, &args, 0)?;
    let pos = count_arg(interp, &args, 1, 0);
    if pos >= s.len() {
        return Ok(JsValue::Boolean(p.len() == 0));
    }
    Ok(JsValue::Boolean(starts_with_at(s.as_slice(), pos, p.as_slice())))
}

/// `s.endsWith(p, end)`: whether `p` ends at `end` (default: the end).
pub fn string_ends_with(interp: &mut Interpreter, this: JsValue, args: Vec<JsValue>) -> (r: Result<
    JsValue,
    JsError,
>)
    ensures
        final(interp).spends(old(interp), r is Err),
        plain_text(this) matches Some(s) ==> (text_arg_spec(args@, 0) matches Some(p) ==> (count_arg_spec(
            args@,
            1,
            s.len() as int,
        ) matches Some(e) ==> (r matches Ok(v) ==> v == JsValue::Boolean(
            p.len() <= (if e < s.len() { e } else { s.len() as int }) && occurs_at(
                s,
                p,
                (if e < s.len() { e } else { s.len() as int }) - p.len(),
            ),
        )))),
        this is String && direct_arg(args@, 0) && old(interp).fuel > 0 ==> r is Ok,
    decreases old(interp).fuel,
{
    interp.step()?;
    let s = this_text(interp, &this)?;
    let p = text_arg(interp, &args, 0)?;
    let e = count_arg(interp, &args, 1, s.len());
    let end = if e < s.len() {
        e
    } else {
        s.len()
    };
    if p.len() > end {
        return Ok(JsValue::Boolean(false));
    }
    Ok(JsValue::Boolean(starts_with_at(s.as_slice(), end - p.len(), p.as_slice())))
}

/// `s.slice(start, end)`: the characters from `start` to `end` (negative from the end).
pub fn string_slice(interp: &mut Interpreter, this: JsValue, args: Vec<JsValue>) -> (r: Result<
    JsValue,
    JsError,
>)
    ensures
        final(interp).spends(old(interp), r is Err),
        plain_text(this) matches Some(s) ==> (position_arg(args@, 0, 0, s.len() as int) matches Some(st) ==> (position_arg(args@, 1, s.len() as int, s.len() as int) matches Some(en) ==> (r matches Ok(v)
            ==> v matches JsValue::String(c) && c@ == (if st < en { s.subrange(st, en) } else { Seq::empty() })))),
        this is String && old(interp).fuel > 0 ==> r is Ok,
    decreases old(interp).fuel,
{
    interp.step()?;
    let s = this_text(interp, &this)?;
    let len = s.len();
    let start = position(interp, &args, 0, 0, len);
    let end = position(interp, &args, 1, len, len);
    if start >= end {
        return Ok(text_value(Vec::new()));
    }
    Ok(text_value(sub_text(&s, start, end)))
}

/// `s.substring(a, b)`: the characters between `a` and `b` (clamped, in either order).
pub fn string_substring(interp: &mut Interpreter, this: JsValue, args: Vec<JsValue>) -> (r: Result<
    JsValue,
    JsError,
>)
    ensures
        final(interp).spends(old(interp), r is Err),
        plain_text(this) matches Some(s) ==> (count_arg_spec(args@, 0, 0) matches Some(a0) ==> (count_arg_spec(
            args@,
            1,
            s.len() as int,
        ) matches Some(b0) ==> (r matches Ok(v) ==> v matches JsValue::String(c) && c@ == ({
            let a = if a0 < s.len() { a0 } else { s.len() as int };
            let b = if b0 < s.len() { b0 } else { s.len() as int };
            if a <= b { s.subrange(a, b) } else { s.subrange(b, a) }
        })))),
        this is String && old(interp).fuel > 0 ==> r is Ok,
    decreases old(interp).fuel,
{
    interp.step()?;
    let s = this_text(interp, &this)?;
    let len = s.len();
    let a0 = count_arg(interp, &args, 0, 0);
    let b0 = count_arg(interp, &args, 1, len);
    let a = if a0 < len {
        a0
    } else {
        len
    };
    let b = if b0 < len {
        b0
    } else {
        len
    };
    if a <= b {
        Ok(text_value(sub_text(&s, a, b)))
    } else {
        Ok(text_value(sub_text(&s, b, a)))
    }
}

/// What `char::to_lowercase` yields for `c`.
pub uninterp spec fn lowercase_of(c: char) -> Seq<char>;

/// What `char::to_uppercase` yields for `c`.
pub uninterp spec fn uppercase_of(c: char) -> Seq<char>;

/// Calls `char::to_lowercase` and collects what it yields; the contract names that result
/// and states it only for ASCII, where Unicode's lowercase mapping turns `A`..`Z` into
/// `a`..`z` and keeps every other character.
#[verifier::external_body]
fn char_lowercase(c: char) -> (r: Vec<char>)
    ensures
        r@ == lowercase_of(c),
        ('A' <= c && c <= 'Z') ==> r@ == seq![((c as u32) + 32) as char],
        ((c as u32) < 128 && !('A' <= c && c <= 'Z')) ==> r@ == seq![c],
{
    c.to_lowercase().collect()
}

/// Calls `char::to_uppercase` and collects what it yields; the contract names that result
/// and states it only for ASCII, where Unicode's uppercase mapping turns `a`..`z` into
/// `A`..`Z` and keeps every other character.
#[verifier::external_body]
fn char_uppercase(c: char) -> (r: Vec<char>)
    ensures
        r@ == uppercase_of(c),
        ('a' <= c && c <= 'z') ==> r@ == seq![((c as u32) - 32) as char],
        ((c as u32) < 128 && !('a' <= c && c <= 'z')) ==> r@ == seq![c],
{
    c.to_uppercase().collect()
}

/// `s` with every character mapped (lower case when `lower`, else upper case).
pub open spec fn case_mapped(s: Seq<char>, lower: bool) -> Seq<char>
    decreases s.len(),
{
    if s.len() == 0 {
        Seq::empty()
    } else {
        case_mapped(s.drop_last(), lower) + (if lower {
            lowercase_of(s.last())
        } else {
            uppercase_of(s.last())
        })
    }
}

/// Maps the case of every character.
fn map_case(s: &Vec<char>, lower: bool) -> (r: Vec<char>)
    ensures
        r@ == case_mapped(s@, lower),
{
    let mut out: Vec<char> = Vec::new();
    let mut i: usize = 0;
    while i < s.len()
        invariant
            i <= s@.len(),
            out@ == case_mapped(s@.take(i as int), lower),
        decreases s@.len() - i,
    {
        let m = if lower {
            char_lowercase(s[i])
        } else {
            char_uppercase(s[i])
        };
        append_chars(&mut out, m.as_slice());
        proof {
            assert(s@.take(i + 1).drop_last() =~= s@.take(i as int));
            assert(out@ =~= case_mapped(s@.take(i + 1), lower));
        }
        i = i + 1;
    }
    proof {
        assert(s@.take(s@.len() as int) =~= s@);
    }
    out
}

/// `s.toLowerCase()`.
pub fn string_to_lower_case(interp: &mut Interpreter, this: JsValue, args: Vec<JsValue>) -> (r: Result<
    JsValue,
    JsError,
>)
    ensures
        final(interp).spends(old(interp), r is Err),
        plain_text(this) matches Some(s) ==> (r matches Ok(v) ==> v matches JsValue::String(c) && c@ == case_mapped(s, true)),
    decreases old(interp).fuel,
{
    interp.step()?;
    let s = this_text(interp, &this)?;
    Ok(text_value(map_case(&s, true)))
}

/// `s.toUpperCase()`.
pub fn string_to_upper_case(interp: &mut Interpreter, this: JsValue, args: Vec<JsValue>) -> (r: Result<
    JsValue,
    JsError,
>)
    ensures
        final(interp).spends(old(interp), r is Err),
        plain_text(this) matches Some(s) ==> (r matches Ok(v) ==> v matches JsValue::String(c) && c@ == case_mapped(s, false)),
    decreases old(interp).fuel,
{
    interp.step()?;
    let s = this_text(interp, &this)?;
    Ok(text_value(map_case(&s, false)))
}

/// Number of white-space characters at the start of `s`.
pub open spec fn leading_space(s: Seq<char>, i: int) -> int
    decreases s.len() - i,
{
    if i < 0 || i >= s.len() || !is_js_space(s[i]) {
        i
    } else {
        leading_space(s, i + 1)
    }
}

/// End of `s` without its trailing white space, not going below `lo`.
pub open spec fn trailing_end(s: Seq<char>, lo: int, hi: int) -> int
    decreases hi - lo,
{
    if hi <= lo || hi > s.len() || !is_js_space(s[hi - 1]) {
        hi
    } else {
        trailing_end(s, lo, hi - 1)
    }
}

/// Trims white space at the start (`start`) and at the end (`end`).
fn trim_text(s: &Vec<char>, start: bool, end: bool) -> (r: Vec<char>)
    ensures
        ({
            let lo = if start { leading_space(s@, 0) } else { 0 };
            let hi = if end { trailing_end(s@, lo, s@.len() as int) } else { s@.len() as int };
            r@ == s@.subrange(lo, hi)
        }),
{
    let mut lo: usize = 0;
    if start {
        while lo < s.len() && is_space_char(s[lo])
            invariant
                lo <= s@.len(),
                leading_space(s@, 0) == leading_space(s@, lo as int),
            decreases s@.len() - lo,
        {
            lo = lo + 1;
        }
    }
    let mut hi: usize = s.len();
    if end {
        while hi > lo && is_space_char(s[hi - 1])
            invariant
                lo <= hi <= s@.len(),
                trailing_end(s@, lo as int, s@.len() as int) == trailing_end(s@, lo as int, hi as int),
            decreases hi,
        {
            hi = hi - 1;
        }
    }
    sub_text(s, lo, hi)
}

/// `s.trim()`.
pub fn string_trim(interp: &mut Interpreter, this: JsValue, args: Vec<JsValue>) -> (r: Result<
    JsValue,
    JsError,
>)
    ensures
        final(interp).spends(old(interp), r is Err),
        plain_text(this) matches Some(s) ==> (r matches Ok(v) ==> v matches JsValue::String(c) && c@
            == s.subrange(leading_space(s, 0), trailing_end(s, leading_space(s, 0), s.len() as int))),
    decreases old(interp).fuel,
{
    interp.step()?;
    let s = this_text(interp, &this)?;
    Ok(text_value(trim_text(&s, true, true)))
}

/// `s.trimStart()`.
pub fn string_trim_start(interp: &mut Interpreter, this: JsValue, args: Vec<JsValue>) -> (r: Result<
    JsValue,
    JsError,
>)
    ensures
        final(interp).spends(old(interp), r is Err),
        plain_text(this) matches Some(s) ==> (r matches Ok(v) ==> v matches JsValue::String(c) && c@
            == s.subrange(leading_space(s, 0), s.len() as int)),
    decreases old(interp).fuel,
{
    interp.step()?;
    let s = this_text(interp, &this)?;
    Ok(text_value(trim_text(&s, true, false)))
}

/// `s.trimEnd()`.
pub fn string_trim_end(interp: &mut Interpreter, this: JsValue, args: Vec<JsValue>) -> (r: Result<
    JsValue,
    JsError,
>)
    ensures
        final(interp).spends(old(interp), r is Err),
        plain_text(this) matches Some(s) ==> (r matches Ok(v) ==> v matches JsValue::String(c) && c@
            == s.subrange(0, trailing_end(s, 0, s.len() as int))),
    decreases old(interp).fuel,
{
    interp.step()?;
    let s = this_text(interp, &this)?;
    Ok(text_value(trim_text(&s, false, true)))
}

/// The texts of a sequence of string values.
pub open spec fn string_views(v: Seq<JsValue>) -> Seq<Seq<char>> {
    Seq::new(
        v.len(),
        |i: int|
            match v[i] {
                JsValue::String(c) => c@,
                _ => Seq::empty(),
            },
    )
}

/// The pieces of `s[start..]` cut at the occurrences of the non-empty `sep`; with a
/// `limit`, at most that many, the last piece holding the rest.
pub open spec fn split_pieces(s: Seq<char>, sep: Seq<char>, start: int, limit: Option<int>) -> Seq<Seq<char>>
    decreases s.len() + 1 - start,
{
    if start < 0 || start > s.len() || (limit matches Some(l) && l <= 0) {
        Seq::empty()
    } else if limit == Some(1int) || sep.len() == 0 {
        seq![s.subrange(start, s.len() as int)]
    } else {
        let j = find_from(s, sep, start);
        if j < start || j + sep.len() > s.len() {
            seq![s.subrange(start, s.len() as int)]
        } else {
            seq![s.subrange(start, j)] + split_pieces(
                s,
                sep,
                j + sep.len(),
                match limit {
                    Some(l) => Some(l - 1),
                    None => None,
                },
            )
        }
    }
}

/// A found position lies in range.
proof fn lemma_find_from_range(s: Seq<char>, p: Seq<char>, i: int)
    ensures
        find_from(s, p, i) == -1 || (i <= find_from(s, p, i) && occurs_at(s, p, find_from(s, p, i))),
    decreases s.len() + 1 - i,
{
    if !(i < 0 || i + p.len() > s.len()) && !occurs_at(s, p, i) {
        lemma_find_from_range(s, p, i + 1);
    }
}

/// Splits `s` at the non-empty `sep`, into at most `limit` pieces when there is a limit.
fn split_text(s: &Vec<char>, sep: &Vec<char>, limit: Option<usize>) -> (r: Vec<JsValue>)
    requires
        sep@.len() > 0,
    ensures
        string_views(r@) == split_pieces(
            s@,
            sep@,
            0,
            match limit {
                Some(l) => Some(l as int),
                None => None,
            },
        ),
        forall|i: int| 0 <= i < r@.len() ==> #[trigger] r@[i] is String,
{
    let ghost lim0: Option<int> = match limit {
        Some(l) => Some(l as int),
        None => None,
    };
    let mut out: Vec<JsValue> = Vec::new();
    let mut start: usize = 0;
    let mut left = limit;
    loop
        invariant
            start <= s@.len(),
            sep@.len() > 0,
            string_views(out@) + split_pieces(
                s@,
                sep@,
                start as int,
                match left {
                    Some(l) => Some(l as int),
                    None => None,
                },
            ) == split_pieces(s@, sep@, 0, lim0),
            lim0 == (match limit {
                Some(l) => Some(l as int),
                None => None::<int>,
            }),
            forall|i: int| 0 <= i < out@.len() ==> #[trigger] out@[i] is String,
        decreases s@.len() + 1 - start,
    {
        let ghost before = out@;
        let ghost lim: Option<int> = match left {
            Some(l) => Some(l as int),
            None => None,
        };
        if let Some(l) = left {
            if l == 0 {
                proof {
                    assert(split_pieces(s@, sep@, start as int, lim) =~= Seq::<Seq<char>>::empty());
                    assert(string_views(out@) + Seq::<Seq<char>>::empty() =~= string_views(out@));
                }
                return out;
            }
            if l == 1 {
                out.push(JsValue::String(sub_text(s, start, s.len())));
                proof {
                    assert(string_views(out@) =~= string_views(before) + split_pieces(s@, sep@, start as int, lim));
                }
                return out;
            }
        }
        match find_text(s.as_slice(), sep.as_slice(), start) {
            None => {
                out.push(JsValue::String(sub_text(s, start, s.len())));
                proof {
                    assert(string_views(out@) =~= string_views(before) + split_pieces(s@, sep@, start as int, lim));
                }
                return out;
            },
            Some(j) => {
                proof {
                    lemma_find_from_range(s@, sep@, start as int);
                    assert(j + sep@.len() <= s@.len());
                    assert(sep@.len() == sep.len());
                    assert(s@.len() == s.len());
                }
                out.push(JsValue::String(sub_text(s, start, j)));
                let next = match left {
                    Some(l) => Some(l - 1),
                    None => None,
                };
                proof {
                    let nl: Option<int> = match next {
                        Some(l) => Some(l as int),
                        None => None,
                    };
                    assert(string_views(out@) =~= string_views(before) + seq![s@.subrange(start as int, j as int)]);
                    assert(string_views(out@) + split_pieces(s@, sep@, j + sep@.len(), nl) =~= string_views(before)
                        + split_pieces(s@, sep@, start as int, lim));
                }
                start = j + sep.len();
                left = next;
            },
        }
    }
}

/// `s.split(sep, limit)`: the pieces between occurrences of `sep` (characters when `sep` is
/// empty, the whole text when it is absent), at most `limit` of them.
pub fn string_split(interp: &mut Interpreter, this: JsValue, args: Vec<JsValue>) -> (r: Result<
    JsValue,
    JsError,
>)
    ensures
        final(interp).spends(old(interp), r is Err),
        args@.len() == 0 ==> (plain_text(this) matches Some(s) ==> (r matches Ok(JsValue::Object(rid))
            ==> (final(interp).array_at(rid) matches Some(t) && string_views(t) == seq![s]))),
        args@.len() == 1 ==> (plain_text(this) matches Some(s) ==> (plain_text(args@[0]) matches Some(sep) ==> (sep.len() > 0
            ==> (r matches Ok(JsValue::Object(rid)) ==> (final(interp).array_at(rid) matches Some(t)
            && string_views(t) == split_pieces(s, sep, 0, None)))))),
        r matches Ok(v) ==> v is Object,
        this is String && direct_arg(args@, 0) && old(interp).fuel > 0 ==> r is Ok,
    decreases old(interp).fuel,
{
    interp.step()?;
    let s = this_text(interp, &this)?;
    if args.len() == 0 {
        let mut one: Vec<JsValue> = Vec::new();
        one.push(JsValue::String(s));
        proof {
            assert(string_views(one@) =~= seq![s@]);
        }
        let id = interp.create_array(one);
        return Ok(JsValue::Object(id));
    }
    let sep = text_arg(interp, &args, 0)?;
    let limit: Option<usize> = if args.len() > 1 {
        Some(count_arg(interp, &args, 1, 0))
    } else {
        None
    };
    let parts = if sep.len() > 0 {
        split_text(&s, &sep, limit)
    } else {
        let cap = match limit {
            Some(l) => l,
            None => s.len(),
        };
        let mut out: Vec<JsValue> = Vec::new();
        let mut i: usize = 0;
        while i < s.len() && i < cap
            invariant
                i <= s@.len(),
            decreases s@.len() - i,
        {
            let mut c: Vec<char> = Vec::new();
            c.push(s[i]);
            out.push(JsValue::String(c));
            i = i + 1;
        }
        out
    };
    let id = interp.create_array(parts);
    Ok(JsValue::Object(id))
}

/// `s` repeated `n` times.
pub open spec fn repeated(s: Seq<char>, n: nat) -> Seq<char>
    decreases n,
{
    if n == 0 {
        Seq::empty()
    } else {
        repeated(s, (n - 1) as nat) + s
    }
}

/// `s.repeat(n)`: `s` written `n` times; a `RangeError` when the result would be too long.
pub fn string_repeat(interp: &mut Interpreter, this: JsValue, args: Vec<JsValue>) -> (r: Result<
    JsValue,
    JsError,
>)
    ensures
        final(interp).spends(old(interp), r is Err),
        plain_text(this) matches Some(s) ==> (count_arg_spec(args@, 0, 0) matches Some(n) ==> (r matches Ok(v)
            ==> v matches JsValue::String(c) && c@ == repeated(s, n as nat))),
        plain_text(this) matches Some(s) ==> (count_arg_spec(args@, 0, 0) matches Some(n) ==> (s.len() > 0 ==> (n
            * s.len() > MAX_STRING_LENGTH ==> r is Err))),
        this matches JsValue::String(s) ==> (old(interp).fuel > 0 ==> (count_arg_spec(args@, 0, 0) matches Some(n) ==> (n * s@.len() <= MAX_STRING_LENGTH ==> r is Ok))),
    decreases old(interp).fuel,
{
    interp.step()?;
    let s = this_text(interp, &this)?;
    let n = count_arg(interp, &args, 0, 0);
    if s.len() > 0 && n > MAX_STRING_LENGTH / s.len() {
        proof {
            assert(n * s@.len() > MAX_STRING_LENGTH) by (nonlinear_arith)
                requires
                    n > MAX_STRING_LENGTH as int / s@.len() as int,
                    s@.len() > 0,
            ;
        }
        return Err(raise(ErrorKind::RangeError, "Invalid string length"));
    }
    let mut out: Vec<char> = Vec::new();
    let mut k: usize = 0;
    while k < n
        invariant
            k <= n,
            out@ == repeated(s@, k as nat),
        decreases n - k,
    {
        append_chars(&mut out, s.as_slice());
        k = k + 1;
    }
    proof {
        if s@.len() > 0 && n * s@.len() > MAX_STRING_LENGTH {
            assert(n <= MAX_STRING_LENGTH as int / s@.len() as int);
            assert(n * s@.len() <= MAX_STRING_LENGTH) by (nonlinear_arith)
                requires
                    n <= MAX_STRING_LENGTH as int / s@.len() as int,
                    s@.len() > 0,
            ;
        }
    }
    Ok(text_value(out))
}

/// `s` with the first occurrence of `p` replaced by `t`.
pub open spec fn replaced_first(s: Seq<char>, p: Seq<char>, t: Seq<char>) -> Seq<char> {
    let j = find_from(s, p, 0);
    if j == -1 {
        s
    } else {
        s.subrange(0, j) + t + s.subrange(j + p.len(), s.len() as int)
    }
}

/// `s.replace(p, t)`: the first occurrence of `p` replaced by `t`.
pub fn string_replace(interp: &mut Interpreter, this: JsValue, args: Vec<JsValue>) -> (r: Result<
    JsValue,
    JsError,
>)
    ensures
        final(interp).spends(old(interp), r is Err),
        plain_text(this) matches Some(s) ==> (text_arg_spec(args@, 0) matches Some(p) ==> (text_arg_spec(args@, 1) matches Some(t) ==> (r matches Ok(v) ==> v matches JsValue::String(c) && c@ == replaced_first(s, p, t)))),
        this is String && direct_arg(args@, 0) && direct_arg(args@, 1) && old(interp).fuel > 0 ==> r is Ok,
    decreases old(interp).fuel,
{
    interp.step()?;
    let s = this_text(interp, &this)?;
    let p = text_arg(interp, &args, 0)?;
    let t = text_arg(interp, &args, 1)?;
    match find_text(s.as_slice(), p.as_slice(), 0) {
        None => Ok(text_value(s)),
        Some(j) => {
            proof {
                lemma_find_from_range(s@, p@, 0);
                assert(j + p@.len() <= s@.len());
                assert(p@.len() == p.len());
                assert(s@.len() == s.len());
            }
            let mut out = sub_text(&s, 0, j);
            append_chars(&mut out, t.as_slice());
            let rest = sub_text(&s, j + p.len(), s.len());
            append_chars(&mut out, rest.as_slice());
            Ok(text_value(out))
        },
    }
}

/// `s[start..]` with every occurrence of the non-empty `p` replaced by `t`.
pub open spec fn replaced_all_from(s: Seq<char>, p: Seq<char>, t: Seq<char>, start: int) -> Seq<char>
    decreases s.len() - start,
{
    if start < 0 || start > s.len() || p.len() == 0 {
        Seq::empty()
    } else {
        let j = find_from(s, p, start);
        if j == -1 || j < start || j + p.len() > s.len() {
            s.subrange(start, s.len() as int)
        } else {
            s.subrange(start, j) + t + replaced_all_from(s, p, t, j + p.len())
        }
    }
}

/// `t` before every character of `s` and at its end.
pub open spec fn interleaved(s: Seq<char>, t: Seq<char>) -> Seq<char>
    decreases s.len(),
{
    if s.len() == 0 {
        t
    } else {
        interleaved(s.drop_last(), t) + seq![s.last()] + t
    }
}

/// `s.replaceAll(p, t)`: every occurrence of `p` replaced by `t` (for an empty `p`, `t` goes
/// between all characters and at both ends).
pub fn string_replace_all(interp: &mut Interpreter, this: JsValue, args: Vec<JsValue>) -> (r: Result<
    JsValue,
    JsError,
>)
    ensures
        final(interp).spends(old(interp), r is Err),
        plain_text(this) matches Some(s) ==> (text_arg_spec(args@, 0) matches Some(p) ==> (text_arg_spec(args@, 1) matches Some(t) ==> (r matches Ok(v) ==> v matches JsValue::String(c) && c@ == (if p.len() == 0 {
            interleaved(s, t)
        } else {
            replaced_all_from(s, p, t, 0)
        })))),
        this is String && direct_arg(args@, 0) && direct_arg(args@, 1) && old(interp).fuel > 0 ==> r is Ok,
    decreases old(interp).fuel,
{
    interp.step()?;
    let s = this_text(interp, &this)?;
    let p = text_arg(interp, &args, 0)?;
    let t = text_arg(interp, &args, 1)?;
    if p.len() == 0 {
        let mut out = copy_chars(&t);
        let mut i: usize = 0;
        while i < s.len()
            invariant
                i <= s@.len(),
                out@ == interleaved(s@.take(i as int), t@),
            decreases s@.len() - i,
        {
            out.push(s[i]);
            append_chars(&mut out, t.as_slice());
            proof {
                assert(s@.take(i + 1).drop_last() =~= s@.take(i as int));
                assert(out@ =~= interleaved(s@.take(i + 1), t@));
            }
            i = i + 1;
        }
        proof {
            assert(s@.take(s@.len() as int) =~= s@);
            assert(s@.take(0) =~= Seq::<char>::empty());
        }
        return Ok(text_value(out));
    }
    Ok(text_value(replace_all_text(&s, &p, &t)))
}

/// `s` with every occurrence of the non-empty `p` replaced by `t`.
fn replace_all_text(s: &Vec<char>, p: &Vec<char>, t: &Vec<char>) -> (r: Vec<char>)
    requires
        p@.len() > 0,
    ensures
        r@ == replaced_all_from(s@, p@, t@, 0),
{
    let mut out: Vec<char> = Vec::new();
    let mut start: usize = 0;
    loop
        invariant
            start <= s@.len(),
            p@.len() > 0,
            out@ + replaced_all_from(s@, p@, t@, start as int) == replaced_all_from(s@, p@, t@, 0),
        decreases s@.len() - start,
    {
        match find_text(s.as_slice(), p.as_slice(), start) {
            None => {
                let rest = sub_text(s, start, s.len());
                let ghost before = out@;
                append_chars(&mut out, rest.as_slice());
                proof {
                    assert(out@ =~= before + replaced_all_from(s@, p@, t@, start as int));
                }
                return out;
            },
            Some(j) => {
                proof {
                    lemma_find_from_range(s@, p@, start as int);
                    assert(j + p@.len() <= s@.len());
                    assert(p@.len() == p.len());
                    assert(s@.len() == s.len());
                }
                let piece = sub_text(s, start, j);
                let ghost before = out@;
                append_chars(&mut out, piece.as_slice());
                append_chars(&mut out, t.as_slice());
                proof {
                    assert(out@ + replaced_all_from(s@, p@, t@, j + p@.len()) =~= before
                        + replaced_all_from(s@, p@, t@, start as int));
                }
                start = j + p.len();
            },
        }
    }
}

/// `n` characters of `pad` repeated.
pub open spec fn padding(pad: Seq<char>, n: int) -> Seq<char> {
    Seq::new(n as nat, |i: int| pad[i % (pad.len() as int)])
}

/// The pad text argument: `" "` when absent.
pub open spec fn pad_arg(args: Seq<JsValue>) -> Option<Seq<char>> {
    if args.len() < 2 {
        Some(" "@)
    } else {
        plain_text(args[1])
    }
}

/// `s` padded with `pad` to length `n`, before it (`at_start`) or after it.
pub open spec fn padded_text(s: Seq<char>, n: int, pad: Seq<char>, at_start: bool) -> Seq<char> {
    if s.len() >= n || pad.len() == 0 {
        s
    } else if at_start {
        padding(pad, n - s.len()) + s
    } else {
        s + padding(pad, n - s.len())
    }
}

/// `n` characters of the non-empty `pad` repeated.
fn make_padding(pad: &Vec<char>, n: usize) -> (r: Vec<char>)
    requires
        pad@.len() > 0,
    ensures
        r@ == padding(pad@, n as int),
{
    let mut out: Vec<char> = Vec::new();
    let mut i: usize = 0;
    while i < n
        invariant
            i <= n,
            pad@.len() > 0,
            out@ =~= padding(pad@, i as int),
        decreases n - i,
    {
        out.push(pad[i % pad.len()]);
        i = i + 1;
    }
    out
}

/// Shared part of `padStart` (`at_start`) and `padEnd`.
fn pad_string(interp: &mut Interpreter, this: JsValue, args: Vec<JsValue>, at_start: bool) -> (r: Result<
    JsValue,
    JsError,
>)
    ensures
        final(interp).spends(old(interp), r is Err),
        pad_arg(args@) matches Some(pad) ==> (plain_text(this) matches Some(s) ==> (count_arg_spec(args@, 0, 0) matches Some(n)
            ==> (r matches Ok(v) ==> (v matches JsValue::String(c) && c@ == padded_text(s, n, pad, at_start))))),
        this is String && direct_arg(args@, 1) && old(interp).fuel > 0 ==> (count_arg_spec(args@, 0, 0) matches Some(n) ==> (n <= MAX_STRING_LENGTH ==> r is Ok)),
    decreases old(interp).fuel,
{
    interp.step()?;
    let s = this_text(interp, &this)?;
    let n = count_arg(interp, &args, 0, 0);
    let pad = if args.len() < 2 {
        chars_of(" ")
    } else {
        text_arg(interp, &args, 1)?
    };
    proof {
        reveal_strlit(" ");
    }
    if s.len() >= n || pad.len() == 0 {
        return Ok(text_value(s));
    }
    if n > MAX_STRING_LENGTH {
        return Err(raise(ErrorKind::RangeError, "Invalid string length"));
    }
    let fill = make_padding(&pad, n - s.len());
    if at_start {
        let mut out = fill;
        append_chars(&mut out, s.as_slice());
        Ok(text_value(out))
    } else {
        let mut out = s;
        append_chars(&mut out, fill.as_slice());
        Ok(text_value(out))
    }
}

/// `s.padStart(n, pad)`: `s` with `pad` repeated in front up to length `n`.
pub fn string_pad_start(interp: &mut Interpreter, this: JsValue, args: Vec<JsValue>) -> (r: Result<
    JsValue,
    JsError,
>)
    ensures
        final(interp).spends(old(interp), r is Err),
        pad_arg(args@) matches Some(pad) ==> (plain_text(this) matches Some(s) ==> (count_arg_spec(args@, 0, 0) matches Some(n)
            ==> (r matches Ok(v) ==> (v matches JsValue::String(c) && c@ == padded_text(s, n, pad, true))))),
    decreases old(interp).fuel,
{
    interp.step()?;
    pad_string(interp, this, args, true)
}

/// `s.padEnd(n, pad)`: `s` with `pad` repeated after it up to length `n`.
pub fn string_pad_end(interp: &mut Interpreter, this: JsValue, args: Vec<JsValue>) -> (r: Result<
    JsValue,
    JsError,
>)
    ensures
        final(interp).spends(old(interp), r is Err),
        pad_arg(args@) matches Some(pad) ==> (plain_text(this) matches Some(s) ==> (count_arg_spec(args@, 0, 0) matches Some(n)
            ==> (r matches Ok(v) ==> (v matches JsValue::String(c) && c@ == padded_text(s, n, pad, false))))),
    decreases old(interp).fuel,
{
    interp.step()?;
    pad_string(interp, this, args, false)
}

/// The texts of `args` one after another, where all are known.
pub open spec fn joined_args(args: Seq<JsValue>) -> Option<Seq<char>>
    decreases args.len(),
{
    if args.len() == 0 {
        Some(Seq::empty())
    } else {
        match (joined_args(args.drop_last()), plain_text(args.last())) {
            (Some(a), Some(b)) => Some(a + b),
            _ => None,
        }
    }
}

/// `s.concat(...values)`: `s` followed by the texts of the values.
pub fn string_concat(interp: &mut Interpreter, this: JsValue, args: Vec<JsValue>) -> (r: Result<
    JsValue,
    JsError,
>)
    ensures
        final(interp).spends(old(interp), r is Err),
        plain_text(this) matches Some(s) ==> (joined_args(args@) matches Some(t) ==> (r matches Ok(v) ==> v
            matches JsValue::String(c) && c@ == s + t)),
        this is String && (forall|k: int| 0 <= k < args@.len() ==> #[trigger] args@[k] is String) && old(interp).fuel > 0 ==> r is Ok,
    decreases old(interp).fuel,
{
    interp.step()?;
    let mut out = this_text(interp, &this)?;
    let ghost s = out@;
    let mut i: usize = 0;
    while i < args.len()
        invariant
            interp.spends(old(interp), false),
            i <= args@.len(),
            joined_args(args@.take(i as int)) matches Some(t) ==> out@ == s + t,
        decreases args@.len() - i,
    {
        let t = match &args[i] {
            JsValue::String(t) => copy_chars(t),
            v => {
                interp.step()?;
                interp.to_js_string(v)?
            },
        };
        let ghost before = out@;
        append_chars(&mut out, t.as_slice());
        proof {
            assert(args@.take(i + 1).drop_last() =~= args@.take(i as int));
            assert(args@.take(i + 1).last() == args@[i as int]);
            if let Some(t2) = joined_args(args@.take(i + 1)) {
                assert(out@ =~= s + t2);
            }
        }
        i = i + 1;
    }
    proof {
        assert(args@.take(args@.len() as int) =~= args@);
    }
    Ok(text_value(out))
}

/// The code point of the character `String.fromCharCode` makes of a code: the code, or U+FFFD.
pub open spec fn char_of_code(code: int) -> u32 {
    if (0 <= code < 0xD800 || (0xE000 <= code <= 0x10FFFF)) {
        code as u32
    } else {
        0xFFFD
    }
}

/// `String.fromCharCode(...codes)`: the characters with the given code points.
pub fn string_from_char_code(interp: &mut Interpreter, this: JsValue, args: Vec<JsValue>) -> (r: Result<
    JsValue,
    JsError,
>)
    ensures
        *final(interp) == *old(interp),
        r matches Ok(JsValue::String(c)) && c@.len() == args@.len() && forall|i: int| 0 <= i < args@.len()
            ==> (int_arg_value(args@[i]) matches Some(n) ==> (0 <= n < 4294967296 ==> (#[trigger] c@[i]) as u32
            == char_of_code(n))),
{
    let mut out: Vec<char> = Vec::new();
    let mut i: usize = 0;
    while i < args.len()
        invariant
            i <= args@.len(),
            out@.len() == i,
            forall|j: int| 0 <= j < i ==> (int_arg_value(args@[j]) matches Some(n) ==> (0 <= n < 4294967296 ==> (
                #[trigger] out@[j]) as u32 == char_of_code(n))),
        decreases args@.len() - i,
    {
        let n = int_arg(interp, &args, i);
        let code: u32 = if n < 0 {
            0
        } else if n > 4294967295 {
            4294967295
        } else {
            n as u32
        };
        let c = match char_from_code(code) {
            Some(c) => c,
            None => '\u{FFFD}',
        };
        out.push(c);
        i = i + 1;
    }
    Ok(text_value(out))
}

/// `String(value)`: the text of the value (`""` without one).
pub fn string_constructor(interp: &mut Interpreter, this: JsValue, args: Vec<JsValue>) -> (r: Result<
    JsValue,
    JsError,
>)
    ensures
        final(interp).spends(old(interp), r is Err),
        text_arg_spec(args@, 0) matches Some(t) ==> (r matches Ok(v) ==> v matches JsValue::String(c) && c@ == t),
    decreases old(interp).fuel,
{
    interp.step()?;
    let t = text_arg(interp, &args, 0)?;
    Ok(text_value(t))
}

/// `s.toString()` and `s.valueOf()`: the text itself.
pub fn string_to_string(interp: &mut Interpreter, this: JsValue, args: Vec<JsValue>) -> (r: Result<
    JsValue,
    JsError,
>)
    ensures
        final(interp).spends(old(interp), r is Err),
        plain_text(this) matches Some(s) ==> (r matches Ok(v) ==> v matches JsValue::String(c) && c@ == s),
    decreases old(interp).fuel,
{
    interp.step()?;
    let s = this_text(interp, &this)?;
    Ok(text_value(s))
}

/// Installs the methods of `String.prototype` and the `String` function.
pub fn init_string(interp: &mut Interpreter)
    ensures
        final(interp).same_registers(old(interp)),
        final(interp).grows(old(interp)),
        final(interp).fuel == old(interp).fuel,
        global_set(
            old(interp).scopes@,
            final(interp).scopes@,
            "String"@,
            JsValue::Object((old(interp).heap@.len() + 24) as usize),
        ),
{
    let p = interp.string_prototype;
    interp.register_method(p, "charAt", NativeId::StringCharAt, 1);
    interp.register_method(p, "charCodeAt", NativeId::StringCharCodeAt, 1);
    interp.register_method(p, "indexOf", NativeId::StringIndexOf, 1);
    interp.register_method(p, "lastIndexOf", NativeId::StringLastIndexOf, 1);
    interp.register_method(p, "at", NativeId::StringAt, 1);
    interp.register_method(p, "includes", NativeId::StringIncludes, 1);
    interp.register_method(p, "startsWith", NativeId::StringStartsWith, 1);
    interp.register_method(p, "endsWith", NativeId::StringEndsWith, 1);
    interp.register_method(p, "slice", NativeId::StringSlice, 2);
    interp.register_method(p, "substring", NativeId::StringSubstring, 2);
    interp.register_method(p, "toLowerCase", NativeId::StringToLowerCase, 0);
    interp.register_method(p, "toUpperCase", NativeId::StringToUpperCase, 0);
    interp.register_method(p, "trim", NativeId::StringTrim, 0);
    interp.register_method(p, "trimStart", NativeId::StringTrimStart, 0);
    interp.register_method(p, "trimEnd", NativeId::StringTrimEnd, 0);
    interp.register_method(p, "split", NativeId::StringSplit, 2);
    interp.register_method(p, "repeat", NativeId::StringRepeat, 1);
    interp.register_method(p, "replace", NativeId::StringReplace, 2);
    interp.register_method(p, "replaceAll", NativeId::StringReplaceAll, 2);
    interp.register_method(p, "padStart", NativeId::StringPadStart, 2);
    interp.register_method(p, "padEnd", NativeId::StringPadEnd, 2);
    interp.register_method(p, "concat", NativeId::StringConcat, 1);
    interp.register_method(p, "toString", NativeId::StringToString, 0);
    interp.register_method(p, "valueOf", NativeId::StringToString, 0);
    let f = interp.create_native(NativeId::StringCtor, "String", 1);
    interp.register_method(f, "fromCharCode", NativeId::StringFromCharCode, 1);
    interp.put_own(f, chars_of("prototype"), JsValue::Object(p), false);
    interp.put_own(p, chars_of("constructor"), JsValue::Object(f), false);
    interp.define_global("String", JsValue::Object(f));
}

} // verus!
