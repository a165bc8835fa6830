//! Global functions: number parsing, number tests, URI coding, base64, cloning and `eval`.
use crate::builtins::helpers::{int_arg, plain_number, same_seq};
use crate::builtins::string::{direct_text, text_arg};
use crate::builtins::helpers::is_type_error;
use crate::interpreter::{global_set, new_object, scope_value, type_error, Interpreter, Scope};
use crate::number::{
    digit_run_end, digits_value, drop_trailing_spaces, is_dec_digit, is_digit_text, is_js_space, parse_radix_digits,
    skip_spaces, spec_int, string_to_number, trim_bounds,
    JsNumber,
};
use crate::lexer::slice_chars;
use crate::value::{copy_chars, same_value, ErrorKind, FunctionKind, JsError, JsValue, NativeId, ObjectKind};
use vstd::prelude::*;

verus! {

/// The radix argument of `parseInt`: 0 stands for 10; outside `2..=36` there is none.
pub open spec fn effective_radix(radix: int) -> Option<int> {
    if radix == 0 {
        Some(10)
    } else if 2 <= radix <= 36 {
        Some(radix)
    } else {
        None
    }
}

/// `parseInt` on text: after white space and a sign (and `0x` for radix 16), the longest
/// run of digits of the radix; NaN without a digit or with a bad radix.
pub fn parse_int_text(s: &[char], radix: i64) -> (r: JsNumber)
    ensures
        r.wf(),
        effective_radix(radix as int) is None ==> r is NaN,
        (forall|j: int| 0 <= j < s@.len() ==> is_js_space(#[trigger] s@[j])) ==> r is NaN,
        (radix == 10 || radix == 0) && is_digit_text(s@) ==> r.is_small_int() && r.int_value() == digits_value(s@),
        (radix == 10 || radix == 0) ==> (parsed_int(s@) matches Some(n) ==> r.is_small_int() && r.int_value() == n),
        (radix == 10 || radix == 0) && int_digits_start(s@) == int_digits_end(s@) ==> r is NaN,
{
    let (lo, hi) = trim_bounds(s);
    proof {
        lemma_digit_text_untrimmed(s@, lo as int, hi as int);
    }
    if lo == hi {
        return JsNumber::nan();
    }
    let base: u32 = if radix == 0 {
        10
    } else if 2 <= radix && radix <= 36 {
        radix as u32
    } else {
        return JsNumber::nan();
    };
    let mut i = lo;
    let mut neg = false;
    if s[i] == '-' {
        neg = true;
        i = i + 1;
    } else if s[i] == '+' {
        i = i + 1;
    }
    if base == 16 && i < hi && hi - i >= 2 && s[i] == '0' && (s[i + 1] == 'x' || s[i + 1] == 'X') {
        i = i + 2;
    }
    let (v, _end, any) = parse_radix_digits(s, i, hi, base);
    proof {
        if (radix == 10 || radix == 0) && is_digit_text(s@) {
            assert(s@.subrange(0, s@.len() as int) =~= s@);
        }
    }
    if !any {
        JsNumber::nan()
    } else if neg && !v.is_zero() {
        v.neg()
    } else {
        v
    }
}

/// Where the digits of `parseInt`'s text start: after leading white space and a sign.
pub open spec fn int_digits_start(s: Seq<char>) -> int {
    let lo = skip_spaces(s, 0);
    let hi = drop_trailing_spaces(s, lo, s.len() as int);
    if lo < hi && (s[lo] == '-' || s[lo] == '+') {
        lo + 1
    } else {
        lo
    }
}

/// Where the decimal digits of `parseInt`'s text end.
pub open spec fn int_digits_end(s: Seq<char>) -> int {
    digit_run_end(s, int_digits_start(s), drop_trailing_spaces(s, skip_spaces(s, 0), s.len() as int))
}

/// The integer that `parseInt` in base ten reads from `s`: its leading decimal digits
/// after white space and an optional sign, when there are from one to seventeen.
pub open spec fn parsed_int(s: Seq<char>) -> Option<int> {
    let lo = skip_spaces(s, 0);
    let st = int_digits_start(s);
    let e = int_digits_end(s);
    if st < e && e - st <= 17 {
        let v = digits_value(s.subrange(st, e)) as int;
        Some(if s[lo] == '-' { -v } else { v })
    } else {
        None
    }
}

/// A text of digits has no space to trim.
proof fn lemma_digit_text_untrimmed(s: Seq<char>, lo: int, hi: int)
    requires
        0 <= lo <= hi <= s.len(),
        forall|j: int| 0 <= j < lo ==> is_js_space(#[trigger] s[j]),
        forall|j: int| hi <= j < s.len() ==> is_js_space(#[trigger] s[j]),
    ensures
        is_digit_text(s) ==> lo == 0 && hi == s.len(),
{
    if is_digit_text(s) {
        if lo > 0 {
            assert(is_js_space(s[0]));
            assert(is_dec_digit(s[0]));
        }
        if hi < s.len() {
            assert(is_js_space(s[hi]));
            assert(is_dec_digit(s[hi]));
        }
    }
}

/// The end of the longest number-like prefix of `s[lo..hi]` that `parseFloat` reads
/// (sign, digits, one point, one exponent with its sign), and whether that prefix
/// has a digit before the exponent and, if it has an exponent, a digit after it.
fn float_prefix(s: &[char], lo: usize, hi: usize) -> (r: (usize, bool))
    requires
        lo <= hi <= s@.len(),
    ensures
        lo <= r.0 <= hi,
        r.1 ==> exists|j: int| lo <= j < r.0 && is_dec_digit(#[trigger] s@[j]),
        (lo < hi && forall|k: int| lo <= k < hi ==> is_dec_digit(#[trigger] s@[k])) ==> r.0 == hi && r.1,
{
    let ghost digits = lo < hi && forall|k: int| lo <= k < hi ==> is_dec_digit(#[trigger] s@[k]);
    let mut i = lo;
    if i < hi && (s[i] == '-' || s[i] == '+') {
        i = i + 1;
    }
    let mut has_dot = false;
    let mut has_exp = false;
    let mut mant_digits = false;
    let mut exp_digits = false;
    proof {
        if digits {
            assert(is_dec_digit(s@[lo as int]));
        }
    }
    while i < hi
        invariant
            lo <= i <= hi,
            hi <= s@.len(),
            mant_digits ==> exists|j: int| lo <= j < i && is_dec_digit(#[trigger] s@[j]),
            digits == (lo < hi && forall|k: int| lo <= k < hi ==> is_dec_digit(#[trigger] s@[k])),
            digits ==> !has_exp && (i > lo ==> mant_digits),
        ensures
            lo <= i <= hi,
            mant_digits ==> exists|j: int| lo <= j < i && is_dec_digit(#[trigger] s@[j]),
            digits ==> i == hi && mant_digits && !has_exp,
        decreases hi - i,
    {
        proof {
            if digits {
                assert(is_dec_digit(s@[i as int]));
            }
        }
        let c = s[i];
        if '0' <= c && c <= '9' {
            if has_exp {
                exp_digits = true;
            } else {
                mant_digits = true;
            }
            assert(is_dec_digit(s@[i as int]));
            i = i + 1;
        } else if c == '.' && !has_dot && !has_exp {
            has_dot = true;
            i = i + 1;
        } else if (c == 'e' || c == 'E') && !has_exp {
            has_exp = true;
            i = i + 1;
            if i < hi && (s[i] == '-' || s[i] == '+') {
                i = i + 1;
            }
        } else {
            break;
        }
    }
    (i, mant_digits && (!has_exp || exp_digits))
}

/// `parseFloat` on text: the longest number-like prefix after white space; NaN when that
/// prefix is not a number.
pub fn parse_float_text(s: &[char]) -> (r: JsNumber)
    ensures
        r.wf(),
        (forall|j: int| 0 <= j < s@.len() ==> !is_dec_digit(#[trigger] s@[j])) ==> r is NaN,
        is_digit_text(s@) ==> r == spec_int(digits_value(s@) as int),
{
    let (lo, hi) = trim_bounds(s);
    proof {
        lemma_digit_text_untrimmed(s@, lo as int, hi as int);
        if is_digit_text(s@) {
            assert(s@.subrange(0, s@.len() as int) =~= s@);
        }
    }
    if lo == hi {
        return JsNumber::nan();
    }
    let (end, ok) = float_prefix(s, lo, hi);
    if !ok {
        return JsNumber::nan();
    }
    let prefix = slice_chars(s, lo, end);
    string_to_number(prefix.as_slice())
}

/// The number argument `k` converts to without running program code (NaN when absent).
fn number_arg(interp: &Interpreter, args: &Vec<JsValue>, k: usize) -> (r: JsNumber)
    ensures
        r.wf(),
        k >= args@.len() ==> r is NaN,
        k < args@.len() ==> (plain_number(args@[k as int]) matches Some(n) ==> r == n),
{
    if k >= args.len() {
        JsNumber::nan()
    } else {
        interp.to_number_primitive(&args[k])
    }
}

/// The number that `isNaN` and `isFinite` test: argument 0 converted, NaN when absent.
pub open spec fn tested_number(args: Seq<JsValue>) -> Option<JsNumber> {
    if args.len() == 0 {
        Some(JsNumber::NaN)
    } else {
        plain_number(args[0])
    }
}

/// `parseInt(string, radix)`.
pub fn global_parse_int(interp: &mut Interpreter, this: JsValue, args: Vec<JsValue>) -> (r: Result<
    JsValue,
    JsError,
>)
    ensures
        final(interp).spends(old(interp), r is Err) || *final(interp) == *old(interp),
        r matches Ok(v) ==> (v matches JsValue::Number(n) && n.wf()),
        args@.len() == 0 ==> (r matches Ok(JsValue::Number(n)) && n is NaN),
        args@.len() == 1 && args@[0] is String && is_digit_text(args@[0]->String_0@) ==> (r matches Ok(JsValue::Number(n))
            && n.is_small_int() && n.int_value() == digits_value(args@[0]->String_0@)),
        args@.len() == 1 && args@[0] is String && parsed_int(args@[0]->String_0@) is Some ==> (r matches Ok(
            JsValue::Number(n)) && n.is_small_int() && n.int_value() == parsed_int(args@[0]->String_0@).unwrap()),
        args@.len() == 1 && args@[0] is String && int_digits_start(args@[0]->String_0@) == int_digits_end(
            args@[0]->String_0@,
        ) ==> (r matches Ok(JsValue::Number(n)) && n is NaN),
    decreases old(interp).fuel,
{
    let s = match direct_text(&args) {
        Some(t) => t,
        None => {
            interp.step()?;
            text_arg(interp, &args, 0)?
        },
    };
    let radix: i64 = if args.len() > 1 {
        int_arg(interp, &args, 1)
    } else {
        10
    };
    Ok(JsValue::Number(parse_int_text(s.as_slice(), radix)))
}

/// `parseFloat(string)`.
pub fn global_parse_float(interp: &mut Interpreter, this: JsValue, args: Vec<JsValue>) -> (r: Result<
    JsValue,
    JsError,
>)
    ensures
        final(interp).spends(old(interp), r is Err) || *final(interp) == *old(interp),
        r matches Ok(v) ==> (v matches JsValue::Number(n) && n.wf()),
        args@.len() == 0 ==> (r matches Ok(JsValue::Number(n)) && n is NaN),
        args@.len() >= 1 && args@[0] is String && is_digit_text(args@[0]->String_0@) ==> r == Ok::<JsValue, JsError>(
            JsValue::Number(spec_int(digits_value(args@[0]->String_0@) as int))),
    decreases old(interp).fuel,
{
    let s = match direct_text(&args) {
        Some(t) => t,
        None => {
            interp.step()?;
            text_arg(interp, &args, 0)?
        },
    };
    Ok(JsValue::Number(parse_float_text(s.as_slice())))
}

/// `isNaN(value)`: whether the value converts to NaN.
pub fn global_is_nan(interp: &mut Interpreter, this: JsValue, args: Vec<JsValue>) -> (r: Result<
    JsValue,
    JsError,
>)
    ensures
        *final(interp) == *old(interp),
        r matches Ok(JsValue::Boolean(_)),
        tested_number(args@) matches Some(n) ==> r == Ok::<JsValue, JsError>(JsValue::Boolean(n is NaN)),
{
    let n = number_arg(interp, &args, 0);
    Ok(JsValue::Boolean(n.is_nan()))
}

/// `isFinite(value)`: whether the value converts to a finite number.
pub fn global_is_finite(interp: &mut Interpreter, this: JsValue, args: Vec<JsValue>) -> (r: Result<
    JsValue,
    JsError,
>)
    ensures
        *final(interp) == *old(interp),
        r matches Ok(JsValue::Boolean(_)),
        tested_number(args@) matches Some(n) ==> r == Ok::<JsValue, JsError>(JsValue::Boolean(n is Finite)),
{
    let n = number_arg(interp, &args, 0);
    Ok(JsValue::Boolean(n.is_finite()))
}

/// Characters that neither URI encoder escapes.
pub open spec fn is_uri_unescaped(c: char) -> bool {
    ('A' <= c <= 'Z') || ('a' <= c <= 'z') || ('0' <= c <= '9') || c == '-' || c == '_' || c == '.'
        || c == '!' || c == '~' || c == '*' || c == '\'' || c == '(' || c == ')'
}

/// Characters with a meaning in URIs, which `encodeURI` keeps and `decodeURI` leaves
/// escaped.
pub open spec fn is_uri_reserved(c: char) -> bool {
    c == ';' || c == '/' || c == '?' || c == ':' || c == '@' || c == '&' || c == '=' || c == '+'
        || c == '$' || c == ',' || c == '#'
}

/// The UTF-8 bytes of code point `v`.
pub open spec fn utf8_bytes(v: int) -> Seq<int> {
    if v < 0x80 {
        seq![v]
    } else if v < 0x800 {
        seq![0xC0 + v / 64, 0x80 + v % 64]
    } else if v < 0x10000 {
        seq![0xE0 + v / 4096, 0x80 + (v / 64) % 64, 0x80 + v % 64]
    } else {
        seq![0xF0 + v / 262144, 0x80 + (v / 4096) % 64, 0x80 + (v / 64) % 64, 0x80 + v % 64]
    }
}

/// The upper-case hexadecimal digit of `d` (0..16).
pub open spec fn hex_char(d: int) -> char {
    "0123456789ABCDEF"@[d]
}

/// `%XX` for each byte.
pub open spec fn percent_bytes(bytes: Seq<int>) -> Seq<char>
    decreases bytes.len(),
{
    if bytes.len() == 0 {
        Seq::empty()
    } else {
        percent_bytes(bytes.drop_last()) + seq!['%', hex_char(bytes.last() / 16), hex_char(bytes.last() % 16)]
    }
}

/// What one character becomes: itself when allowed, else its escaped UTF-8 bytes.
pub open spec fn encode_char(c: char, keep_reserved: bool) -> Seq<char> {
    if is_uri_unescaped(c) || (keep_reserved && is_uri_reserved(c)) {
        seq![c]
    } else {
        percent_bytes(utf8_bytes(c as int))
    }
}

/// `encodeURI` (`keep_reserved`) or `encodeURIComponent` of a text.
pub open spec fn uri_encoded(s: Seq<char>, keep_reserved: bool) -> Seq<char>
    decreases s.len(),
{
    if s.len() == 0 {
        Seq::empty()
    } else {
        uri_encoded(s.drop_last(), keep_reserved) + encode_char(s.last(), keep_reserved)
    }
}

/// `c` is an allowed character, computed.
fn uri_allowed(c: char, keep_reserved: bool) -> (b: bool)
    ensures
        b == (is_uri_unescaped(c) || (keep_reserved && is_uri_reserved(c))),
{
    let plain = ('A' <= c && c <= 'Z') || ('a' <= c && c <= 'z') || ('0' <= c && c <= '9') || c == '-'
        || c == '_' || c == '.' || c == '!' || c == '~' || c == '*' || c == '\'' || c == '(' || c
        == ')';
    let reserved = c == ';' || c == '/' || c == '?' || c == ':' || c == '@' || c == '&' || c == '='
        || c == '+' || c == '$' || c == ',' || c == '#';
    plain || (keep_reserved && reserved)
}

/// Hexadecimal digit `d` (below 16).
fn hex_digit(d: u32) -> (c: char)
    requires
        d < 16,
    ensures
        c == hex_char(d as int),
{
    let digits = crate::number::chars_of("0123456789ABCDEF");
    proof {
        reveal_strlit("0123456789ABCDEF");
    }
    digits[d as usize]
}

/// Appends `%XX` for each byte.
fn push_percent(out: &mut Vec<char>, bytes: &Vec<u32>)
    requires
        forall|i: int| 0 <= i < bytes@.len() ==> #[trigger] bytes@[i] < 256,
    ensures
        final(out)@ == old(out)@ + percent_bytes(bytes@.map_values(|b: u32| b as int)),
{
    let ghost ints = bytes@.map_values(|b: u32| b as int);
    let mut i: usize = 0;
    while i < bytes.len()
        invariant
            i <= bytes@.len(),
            ints == bytes@.map_values(|b: u32| b as int),
            forall|k: int| 0 <= k < bytes@.len() ==> #[trigger] bytes@[k] < 256,
            out@ == old(out)@ + percent_bytes(ints.take(i as int)),
        decreases bytes@.len() - i,
    {
        let b = bytes[i];
        out.push('%');
        out.push(hex_digit(b / 16));
        out.push(hex_digit(b % 16));
        proof {
            assert(ints.take(i + 1).drop_last() =~= ints.take(i as int));
            assert(ints.take(i + 1).last() == b as int);
        }
        i = i + 1;
    }
    assert(ints.take(bytes@.len() as int) =~= ints);
}

/// The UTF-8 bytes of a character.
fn utf8_of(c: char) -> (r: Vec<u32>)
    ensures
        r@.map_values(|b: u32| b as int) == utf8_bytes(c as int),
        forall|i: int| 0 <= i < r@.len() ==> #[trigger] r@[i] < 256,
{
    let v = c as u32;
    let mut r: Vec<u32> = Vec::new();
    proof {
        assert(v as int == c as int);
    }
    if v < 0x80 {
        r.push(v);
    } else if v < 0x800 {
        r.push(0xC0 + v / 64);
        r.push(0x80 + v % 64);
    } else if v < 0x10000 {
        r.push(0xE0 + v / 4096);
        r.push(0x80 + (v / 64) % 64);
        r.push(0x80 + v % 64);
    } else {
        assert(v <= 0x10FFFF);
        r.push(0xF0 + v / 262144);
        r.push(0x80 + (v / 4096) % 64);
        r.push(0x80 + (v / 64) % 64);
        r.push(0x80 + v % 64);
    }
    assert(r@.map_values(|b: u32| b as int) =~= utf8_bytes(c as int));
    r
}

/// Encodes a text as `encodeURI` (`keep_reserved`) or `encodeURIComponent` do.
pub fn encode_uri_text(s: &[char], keep_reserved: bool) -> (r: Vec<char>)
    ensures
        r@ == uri_encoded(s@, keep_reserved),
{
    let mut out: Vec<char> = Vec::new();
    let mut i: usize = 0;
    while i < s.len()
        invariant
            i <= s@.len(),
            out@ == uri_encoded(s@.take(i as int), keep_reserved),
        decreases s@.len() - i,
    {
        let c = s[i];
        if uri_allowed(c, keep_reserved) {
            out.push(c);
        } else {
            let bytes = utf8_of(c);
            push_percent(&mut out, &bytes);
        }
        proof {
            assert(s@.take(i + 1).drop_last() =~= s@.take(i as int));
            assert(s@.take(i + 1).last() == c);
        }
        i = i + 1;
    }
    assert(s@.take(s@.len() as int) =~= s@);
    out
}

/// The value of a hexadecimal digit of either case.
pub open spec fn hex_value(c: char) -> Option<int> {
    if '0' <= c <= '9' {
        Some(c as int - 48)
    } else if 'a' <= c <= 'f' {
        Some(c as int - 87)
    } else if 'A' <= c <= 'F' {
        Some(c as int - 55)
    } else {
        None
    }
}

/// The byte two characters after a `%` stand for: two hexadecimal digits, or `+`
/// and one digit.
pub open spec fn escaped_byte(a: char, b: char) -> Option<int> {
    match (hex_value(a), hex_value(b)) {
        (Some(x), Some(y)) => Some(16 * x + y),
        (None, Some(y)) => if a == '+' {
            Some(y)
        } else {
            None
        },
        _ => None,
    }
}

/// `decodeURI` (`keep_reserved`) or `decodeURIComponent` of a text: each valid escape
/// becomes the character with that byte's code, except reserved characters for
/// `decodeURI`; everything else stays.
pub open spec fn uri_decoded(s: Seq<char>, keep_reserved: bool) -> Seq<char>
    decreases s.len(),
{
    if s.len() == 0 {
        Seq::empty()
    } else if s[0] == '%' && s.len() >= 3 && escaped_byte(s[1], s[2]) is Some {
        let c = (escaped_byte(s[1], s[2])->Some_0) as char;
        (if keep_reserved && is_uri_reserved(c) {
            s.subrange(0, 3)
        } else {
            seq![c]
        }) + uri_decoded(s.subrange(3, s.len() as int), keep_reserved)
    } else if s[0] == '%' {
        let n: int = if s.len() >= 3 { 3 } else { s.len() as int };
        s.subrange(0, n) + uri_decoded(s.subrange(n, s.len() as int), keep_reserved)
    } else {
        seq![s[0]] + uri_decoded(s.subrange(1, s.len() as int), keep_reserved)
    }
}

/// The value of a hexadecimal digit, computed.
fn hex_value_of(c: char) -> (r: Option<u32>)
    ensures
        r matches Some(v) ==> hex_value(c) == Some(v as int) && v < 16,
        r is None ==> hex_value(c) is None,
{
    if '0' <= c && c <= '9' {
        Some(c as u32 - 48)
    } else if 'a' <= c && c <= 'f' {
        Some(c as u32 - 87)
    } else if 'A' <= c && c <= 'F' {
        Some(c as u32 - 55)
    } else {
        None
    }
}

/// The escaped byte, computed.
fn escaped_byte_of(a: char, b: char) -> (r: Option<u32>)
    ensures
        r matches Some(v) ==> escaped_byte(a, b) == Some(v as int) && v < 256,
        r is None ==> escaped_byte(a, b) is None,
{
    match (hex_value_of(a), hex_value_of(b)) {
        (Some(x), Some(y)) => Some(16 * x + y),
        (None, Some(y)) => if a == '+' {
            Some(y)
        } else {
            None
        },
        _ => None,
    }
}

/// Decodes a text as `decodeURI` (`keep_reserved`) or `decodeURIComponent` do.
pub fn decode_uri_text(s: &[char], keep_reserved: bool) -> (r: Vec<char>)
    ensures
        r@ == uri_decoded(s@, keep_reserved),
{
    let mut out: Vec<char> = Vec::new();
    let mut i: usize = 0;
    assert(s@.subrange(0, s@.len() as int) =~= s@);
    while i < s.len()
        invariant
            i <= s@.len(),
            out@ + uri_decoded(s@.subrange(i as int, s@.len() as int), keep_reserved) == uri_decoded(s@, keep_reserved),
        decreases s@.len() - i,
    {
        let ghost rest = s@.subrange(i as int, s@.len() as int);
        let ghost out0 = out@;
        let c = s[i];
        let mut escaped: Option<u32> = None;
        if c == '%' && s.len() - i >= 3 {
            escaped = escaped_byte_of(s[i + 1], s[i + 2]);
        }
        let step: usize;
        if let Some(b) = escaped {
            let d = (b as u8) as char;
            proof {
                assert(rest[0] == c && rest[1] == s@[i + 1] && rest[2] == s@[i + 2]);
            }
            if keep_reserved && (d == ';' || d == '/' || d == '?' || d == ':' || d == '@' || d == '&' || d
                == '=' || d == '+' || d == '$' || d == ',' || d == '#') {
                out.push('%');
                out.push(s[i + 1]);
                out.push(s[i + 2]);
            } else {
                out.push(d);
            }
            step = 3;
        } else if c == '%' {
            let n: usize = if s.len() - i >= 3 {
                3
            } else {
                s.len() - i
            };
            let mut k: usize = 0;
            while k < n
                invariant
                    k <= n,
                    i + n <= s@.len(),
                    s@.len() == s.len(),
                    out@ == out0 + s@.subrange(i as int, i + k),
                decreases n - k,
            {
                out.push(s[i + k]);
                proof {
                    assert(s@.subrange(i as int, i + k + 1) =~= s@.subrange(i as int, i + k).push(s@[i + k]));
                }
                k = k + 1;
            }
            step = n;
        } else {
            out.push(c);
            step = 1;
        }
        proof {
            let piece = out@.subrange(out0.len() as int, out@.len() as int);
            assert(out@ =~= out0 + piece);
            assert(rest.subrange(step as int, rest.len() as int) =~= s@.subrange(i + step, s@.len() as int));
            assert(uri_decoded(rest, keep_reserved) == piece + uri_decoded(rest.subrange(step as int, rest.len() as int), keep_reserved)) by {
                if step == 3 && escaped is Some {
                    assert(rest.subrange(0, 3) =~= seq!['%', s@[i + 1], s@[i + 2]]);
                } else if c == '%' {
                    assert(rest.subrange(0, step as int) =~= s@.subrange(i as int, i + step));
                }
            }
            assert(out0 + uri_decoded(rest, keep_reserved) =~= out@ + uri_decoded(s@.subrange(i + step, s@.len() as int), keep_reserved));
        }
        i = i + step;
    }
    assert(s@.subrange(i as int, s@.len() as int) =~= Seq::<char>::empty());
    assert(out@ + Seq::<char>::empty() =~= out@);
    out
}

/// Base64 digit `v` (below 64).
pub open spec fn b64_char(v: int) -> char {
    "ABCDEFGHIJKLMNOPQRSTUVWXYZabcdefghijklmnopqrstuvwxyz0123456789+/"@[v]
}

/// Base64 text of bytes, padded with `=`.
pub open spec fn base64_of(b: Seq<int>) -> Seq<char>
    decreases b.len(),
{
    if b.len() == 0 {
        Seq::empty()
    } else if b.len() == 1 {
        seq![b64_char(b[0] / 4), b64_char((b[0] % 4) * 16), '=', '=']
    } else if b.len() == 2 {
        seq![b64_char(b[0] / 4), b64_char((b[0] % 4) * 16 + b[1] / 16), b64_char((b[1] % 16) * 4), '=']
    } else {
        seq![
            b64_char(b[0] / 4),
            b64_char((b[0] % 4) * 16 + b[1] / 16),
            b64_char((b[1] % 16) * 4 + b[2] / 64),
            b64_char(b[2] % 64),
        ] + base64_of(b.subrange(3, b.len() as int))
    }
}

/// The code points of a text.
pub open spec fn codes(s: Seq<char>) -> Seq<int> {
    s.map_values(|c: char| (c as u32) as int)
}

/// Every character is in the Latin-1 range.
pub open spec fn is_latin1(s: Seq<char>) -> bool {
    forall|i: int| 0 <= i < s.len() ==> (#[trigger] s[i]) as u32 <= 255
}

/// Base64 digit `v`, computed.
fn b64_digit(v: u32) -> (c: char)
    requires
        v < 64,
    ensures
        c == b64_char(v as int),
{
    let digits = crate::number::chars_of("ABCDEFGHIJKLMNOPQRSTUVWXYZabcdefghijklmnopqrstuvwxyz0123456789+/");
    proof {
        reveal_strlit("ABCDEFGHIJKLMNOPQRSTUVWXYZabcdefghijklmnopqrstuvwxyz0123456789+/");
    }
    digits[v as usize]
}

/// Base64 text of a Latin-1 text.
pub fn base64_encode(s: &[char]) -> (r: Vec<char>)
    requires
        is_latin1(s@),
    ensures
        r@ == base64_of(codes(s@)),
{
    let ghost b = codes(s@);
    let n = s.len();
    let mut out: Vec<char> = Vec::new();
    let mut i: usize = 0;
    assert(b.subrange(0, b.len() as int) =~= b);
    while i < n
        invariant
            i <= n,
            n == s@.len(),
            b == codes(s@),
            b.len() == n,
            is_latin1(s@),
            out@ + base64_of(b.subrange(i as int, n as int)) == base64_of(b),
        decreases n - i,
    {
        let ghost rest = b.subrange(i as int, n as int);
        let ghost out0 = out@;
        let c0 = s[i];
        let b0 = c0 as u32;
        proof {
            assert(rest[0] == b[i as int]);
            assert(b[i as int] == ((s@[i as int]) as u32) as int);
            assert((s@[i as int]) as u32 <= 255);
        }
        out.push(b64_digit(b0 / 4));
        let step: usize;
        if n - i == 1 {
            out.push(b64_digit((b0 % 4) * 16));
            out.push('=');
            out.push('=');
            step = 1;
        } else {
            let c1 = s[i + 1];
            let b1 = c1 as u32;
            proof {
                assert(rest[1] == b[i + 1]);
                assert(b[i + 1] == ((s@[i + 1]) as u32) as int);
                assert((s@[i + 1]) as u32 <= 255);
            }
            out.push(b64_digit((b0 % 4) * 16 + b1 / 16));
            if n - i == 2 {
                out.push(b64_digit((b1 % 16) * 4));
                out.push('=');
                step = 2;
            } else {
                let c2 = s[i + 2];
                let b2 = c2 as u32;
                proof {
                    assert(rest[2] == b[i + 2]);
                    assert(b[i + 2] == ((s@[i + 2]) as u32) as int);
                    assert((s@[i + 2]) as u32 <= 255);
                }
                out.push(b64_digit((b1 % 16) * 4 + b2 / 64));
                out.push(b64_digit(b2 % 64));
                step = 3;
            }
        }
        proof {
            let piece = out@.subrange(out0.len() as int, out@.len() as int);
            assert(out@ =~= out0 + piece);
            if step == 3 {
                assert(rest.subrange(3, rest.len() as int) =~= b.subrange(i + 3, n as int));
                assert(base64_of(rest) == piece + base64_of(b.subrange(i + 3, n as int)));
            } else {
                assert(b.subrange(i + step, n as int) =~= Seq::<int>::empty());
                assert(base64_of(rest) =~= piece);
                assert(piece + base64_of(b.subrange(i + step, n as int)) =~= piece);
            }
            assert(out0 + base64_of(rest) =~= out@ + base64_of(b.subrange(i + step, n as int)));
        }
        i = i + step;
    }
    assert(b.subrange(n as int, n as int) =~= Seq::<int>::empty());
    assert(out@ + Seq::<char>::empty() =~= out@);
    out
}

/// The characters that are Unicode white space.
pub open spec fn is_unicode_space(c: char) -> bool {
    ('\u{9}' <= c <= '\u{D}') || c == ' ' || c == '\u{85}' || c == '\u{A0}' || c == '\u{1680}'
        || ('\u{2000}' <= c <= '\u{200A}') || c == '\u{2028}' || c == '\u{2029}' || c == '\u{202F}'
        || c == '\u{205F}' || c == '\u{3000}'
}

/// Unicode white space, computed.
fn unicode_space(c: char) -> (b: bool)
    ensures
        b == is_unicode_space(c),
{
    ('\u{9}' <= c && c <= '\u{D}') || c == ' ' || c == '\u{85}' || c == '\u{A0}' || c == '\u{1680}'
        || ('\u{2000}' <= c && c <= '\u{200A}') || c == '\u{2028}' || c == '\u{2029}' || c
        == '\u{202F}' || c == '\u{205F}' || c == '\u{3000}'
}

/// The text without its white space.
pub open spec fn without_spaces(s: Seq<char>) -> Seq<char>
    decreases s.len(),
{
    if s.len() == 0 {
        s
    } else if is_unicode_space(s.last()) {
        without_spaces(s.drop_last())
    } else {
        without_spaces(s.drop_last()).push(s.last())
    }
}

/// The value of a base64 digit; `=` counts as 0.
pub open spec fn b64_value(c: char) -> Option<int> {
    if 'A' <= c <= 'Z' {
        Some(c as int - 65)
    } else if 'a' <= c <= 'z' {
        Some(c as int - 71)
    } else if '0' <= c <= '9' {
        Some(c as int + 4)
    } else if c == '+' {
        Some(62)
    } else if c == '/' {
        Some(63)
    } else if c == '=' {
        Some(0)
    } else {
        None
    }
}

/// The value of a base64 digit, computed.
fn b64_value_of(c: char) -> (r: Option<u32>)
    ensures
        r matches Some(v) ==> b64_value(c) == Some(v as int) && v < 64,
        r is None ==> b64_value(c) is None,
{
    if 'A' <= c && c <= 'Z' {
        Some(c as u32 - 65)
    } else if 'a' <= c && c <= 'z' {
        Some(c as u32 - 71)
    } else if '0' <= c && c <= '9' {
        Some(c as u32 + 4)
    } else if c == '+' {
        Some(62)
    } else if c == '/' {
        Some(63)
    } else if c == '=' {
        Some(0)
    } else {
        None
    }
}

/// The four characters of base64 text from `k` on are digits where they are read: the
/// first two always, the third unless it is `=`, the fourth unless it or the third is `=`.
pub open spec fn quad_ok(c: Seq<char>, k: int) -> bool {
    &&& b64_value(c[k]) is Some
    &&& b64_value(c[k + 1]) is Some
    &&& (c[k + 2] != '=' ==> b64_value(c[k + 2]) is Some)
    &&& (c[k + 2] != '=' && c[k + 3] != '=' ==> b64_value(c[k + 3]) is Some)
}

/// Base64 text (white space removed) that decodes: whole quads, each readable.
pub open spec fn base64_ok(c: Seq<char>) -> bool {
    &&& c.len() % 4 == 0
    &&& forall|k: int| 0 <= k < c.len() && k % 4 == 0 ==> #[trigger] quad_ok(c, k)
}

/// Appends the bytes that the quad of base64 digits at `k` encodes; false when a digit
/// that is read is not a base64 digit.
fn decode_quad(clean: &Vec<char>, k: usize, out: &mut Vec<char>) -> (ok: bool)
    requires
        k + 4 <= clean@.len(),
    ensures
        ok <==> quad_ok(clean@, k as int),
{
    let n = clean.len();
    assert(k + 4 <= n);
    let c2 = clean[k + 2];
    let c3 = clean[k + 3];
    let v0 = match b64_value_of(clean[k]) {
        Some(v) => v,
        None => {
            return false;
        },
    };
    let v1 = match b64_value_of(clean[k + 1]) {
        Some(v) => v,
        None => {
            return false;
        },
    };
    out.push(((v0 * 4 + v1 / 16) % 256) as u8 as char);
    if c2 != '=' {
        let v2 = match b64_value_of(c2) {
            Some(v) => v,
            None => {
                return false;
            },
        };
        out.push((((v1 % 16) * 16 + v2 / 4) % 256) as u8 as char);
        if c3 != '=' {
            let v3 = match b64_value_of(c3) {
                Some(v) => v,
                None => {
                    return false;
                },
            };
            out.push((((v2 % 4) * 64 + v3) % 256) as u8 as char);
        }
    }
    true
}

/// Decodes base64 text (white space removed) into a Latin-1 text; an error message when
/// the length is not a multiple of four or a character is not a base64 digit.
pub fn base64_decode(s: &[char]) -> (r: Result<Vec<char>, &'static str>)
    ensures
        without_spaces(s@).len() % 4 != 0 ==> r is Err,
        r is Ok <==> base64_ok(without_spaces(s@)),
{
    let mut clean: Vec<char> = Vec::new();
    let mut i: usize = 0;
    while i < s.len()
        invariant
            i <= s@.len(),
            clean@ == without_spaces(s@.take(i as int)),
        decreases s@.len() - i,
    {
        proof {
            assert(s@.take(i + 1).drop_last() =~= s@.take(i as int));
        }
        if !unicode_space(s[i]) {
            clean.push(s[i]);
        }
        i = i + 1;
    }
    assert(s@.take(s@.len() as int) =~= s@);
    if clean.len() % 4 != 0 {
        return Err("invalid length");
    }
    let mut out: Vec<char> = Vec::new();
    let mut k: usize = 0;
    while clean.len() - k >= 4
        invariant
            k <= clean@.len(),
            k % 4 == 0,
            clean@.len() % 4 == 0,
            clean@ == without_spaces(s@),
            forall|j: int| 0 <= j < k && j % 4 == 0 ==> #[trigger] quad_ok(clean@, j),
        decreases clean@.len() - k,
    {
        if !decode_quad(&clean, k, &mut out) {
            proof {
                assert(0 <= k < clean@.len() && (k as int) % 4 == 0);
            }
            return Err("invalid character");
        }
        proof {
            assert(quad_ok(clean@, k as int));
            assert forall|j: int| 0 <= j < k + 4 && j % 4 == 0 implies #[trigger] quad_ok(clean@, j) by {
                if j != k as int {
                    assert(j < k);
                }
            }
        }
        k = k + 4;
    }
    proof {
        assert(k == clean@.len());
    }
    Ok(out)
}

/// `encodeURI(text)`.
pub fn global_encode_uri(interp: &mut Interpreter, this: JsValue, args: Vec<JsValue>) -> (r: Result<
    JsValue,
    JsError,
>)
    ensures
        final(interp).spends(old(interp), r is Err) || *final(interp) == *old(interp),
        crate::builtins::string::text_arg_spec(args@, 0) matches Some(t) ==> (r matches Ok(v) ==> (v matches JsValue::String(u)
            && u@ == uri_encoded(t, true))),
        crate::builtins::string::direct_arg(args@, 0) ==> r is Ok && *final(interp) == *old(interp),
    decreases old(interp).fuel,
{
    let s = match direct_text(&args) {
        Some(t) => t,
        None => {
            interp.step()?;
            text_arg(interp, &args, 0)?
        },
    };
    Ok(JsValue::String(encode_uri_text(s.as_slice(), true)))
}

/// `encodeURIComponent(text)`.
pub fn global_encode_uri_component(interp: &mut Interpreter, this: JsValue, args: Vec<JsValue>) -> (r:
    Result<JsValue, JsError>)
    ensures
        final(interp).spends(old(interp), r is Err) || *final(interp) == *old(interp),
        crate::builtins::string::text_arg_spec(args@, 0) matches Some(t) ==> (r matches Ok(v) ==> (v matches JsValue::String(u)
            && u@ == uri_encoded(t, false))),
        crate::builtins::string::direct_arg(args@, 0) ==> r is Ok && *final(interp) == *old(interp),
    decreases old(interp).fuel,
{
    let s = match direct_text(&args) {
        Some(t) => t,
        None => {
            interp.step()?;
            text_arg(interp, &args, 0)?
        },
    };
    Ok(JsValue::String(encode_uri_text(s.as_slice(), false)))
}

/// `decodeURI(text)`.
pub fn global_decode_uri(interp: &mut Interpreter, this: JsValue, args: Vec<JsValue>) -> (r: Result<
    JsValue,
    JsError,
>)
    ensures
        final(interp).spends(old(interp), r is Err) || *final(interp) == *old(interp),
        crate::builtins::string::text_arg_spec(args@, 0) matches Some(t) ==> (r matches Ok(v) ==> (v matches JsValue::String(u)
            && u@ == uri_decoded(t, true))),
        crate::builtins::string::direct_arg(args@, 0) ==> r is Ok && *final(interp) == *old(interp),
    decreases old(interp).fuel,
{
    let s = match direct_text(&args) {
        Some(t) => t,
        None => {
            interp.step()?;
            text_arg(interp, &args, 0)?
        },
    };
    Ok(JsValue::String(decode_uri_text(s.as_slice(), true)))
}

/// `decodeURIComponent(text)`.
pub fn global_decode_uri_component(interp: &mut Interpreter, this: JsValue, args: Vec<JsValue>) -> (r:
    Result<JsValue, JsError>)
    ensures
        final(interp).spends(old(interp), r is Err) || *final(interp) == *old(interp),
        crate::builtins::string::text_arg_spec(args@, 0) matches Some(t) ==> (r matches Ok(v) ==> (v matches JsValue::String(u)
            && u@ == uri_decoded(t, false))),
        crate::builtins::string::direct_arg(args@, 0) ==> r is Ok && *final(interp) == *old(interp),
    decreases old(interp).fuel,
{
    let s = match direct_text(&args) {
        Some(t) => t,
        None => {
            interp.step()?;
            text_arg(interp, &args, 0)?
        },
    };
    Ok(JsValue::String(decode_uri_text(s.as_slice(), false)))
}

/// Every character of `s` is in the Latin-1 range, computed.
fn latin1_only(s: &[char]) -> (b: bool)
    ensures
        b == is_latin1(s@),
{
    let mut i: usize = 0;
    while i < s.len()
        invariant
            i <= s@.len(),
            forall|j: int| 0 <= j < i ==> (#[trigger] s@[j]) as u32 <= 255,
        decreases s@.len() - i,
    {
        if s[i] as u32 > 255 {
            return false;
        }
        i = i + 1;
    }
    true
}

/// `btoa(text)`: base64 of a Latin-1 text; `TypeError` for other characters.
pub fn global_btoa(interp: &mut Interpreter, this: JsValue, args: Vec<JsValue>) -> (r: Result<
    JsValue,
    JsError,
>)
    ensures
        final(interp).spends(old(interp), r is Err) || *final(interp) == *old(interp),
        args@.len() > 0 ==> (args@[0] matches JsValue::String(t) ==> (!is_latin1(t@) ==> is_type_error(r))),
        crate::builtins::string::text_arg_spec(args@, 0) matches Some(t) ==> (r matches Ok(v) ==> (v matches JsValue::String(u)
            && u@ == base64_of(codes(t)))),
    decreases old(interp).fuel,
{
    let s = match direct_text(&args) {
        Some(t) => t,
        None => {
            interp.step()?;
            text_arg(interp, &args, 0)?
        },
    };
    if !latin1_only(s.as_slice()) {
        return Err(type_error("The string to be encoded contains characters outside of the Latin1 range"));
    }
    Ok(JsValue::String(base64_encode(s.as_slice())))
}

/// `atob(text)`: the Latin-1 text that base64 `text` encodes (white space ignored);
/// `TypeError` when it is not base64.
pub fn global_atob(interp: &mut Interpreter, this: JsValue, args: Vec<JsValue>) -> (r: Result<
    JsValue,
    JsError,
>)
    ensures
        final(interp).spends(old(interp), r is Err) || *final(interp) == *old(interp),
        args@.len() > 0 ==> (args@[0] matches JsValue::String(t) ==> (without_spaces(t@).len() % 4 != 0
            ==> is_type_error(r))),
        args@.len() > 0 ==> (args@[0] matches JsValue::String(t) ==> (base64_ok(without_spaces(t@)) <==> r is Ok)
            && (!base64_ok(without_spaces(t@)) ==> is_type_error(r))),
    decreases old(interp).fuel,
{
    let s = match direct_text(&args) {
        Some(t) => t,
        None => {
            interp.step()?;
            text_arg(interp, &args, 0)?
        },
    };
    match base64_decode(s.as_slice()) {
        Ok(out) => Ok(JsValue::String(out)),
        Err(msg) => {
            let mut text = crate::number::chars_of("The string to be decoded is not correctly encoded: ");
            let m = crate::number::chars_of(msg);
            crate::number::append_chars(&mut text, m.as_slice());
            Err(JsError::Raised(ErrorKind::TypeError, text))
        },
    }
}

/// No element is an object.
pub open spec fn primitives_only(s: Seq<JsValue>) -> bool {
    forall|i: int| 0 <= i < s.len() ==> !(#[trigger] s[i] is Object)
}

/// A deep copy of `v`: arrays, maps, wrappers and ordinary objects are copied with their
/// contents; functions give a `TypeError`; primitives are themselves.
fn clone_value(interp: &mut Interpreter, v: &JsValue) -> (r: Result<JsValue, JsError>)
    ensures
        final(interp).spends(old(interp), r is Err),
        !(*v is Object) ==> (r matches Ok(w) ==> same_value(w, *v)),
        !(*v is Object) && old(interp).fuel > 0 ==> r is Ok,
        (old(interp).fuel > 0 && *v is Object && v->Object_0 < old(interp).heap@.len()
            && old(interp).heap@[v->Object_0 as int].kind is Function) ==> is_type_error(r),
        !(*v is Object) && old(interp).fuel > 0 ==> final(interp).heap@ == old(interp).heap@
            && final(interp).fuel == old(interp).fuel - 1,
        (*v is Object && old(interp).array_at(v->Object_0) is Some && primitives_only(
            old(interp).array_at(v->Object_0).unwrap(),
        ) && old(interp).fuel > 1 + 2 * old(interp).array_at(v->Object_0).unwrap().len()) ==> (r
            == Ok::<JsValue, JsError>(JsValue::Object(old(interp).heap.len())) && (final(interp).array_at(
            old(interp).heap.len(),
        ) matches Some(t) && same_seq(t, old(interp).array_at(v->Object_0).unwrap()))),
    decreases old(interp).fuel,
{
    interp.step()?;
    let id = match v {
        JsValue::Object(id) => *id,
        _ => {
            return Ok(v.copy());
        },
    };
    if id >= interp.heap.len() {
        return Ok(v.copy());
    }
    let (tag, items, entries, b, n, text): (u8, Vec<JsValue>, Vec<(JsValue, JsValue)>, bool, crate::number::JsNumber, Vec<char>) = match &interp.heap[id].kind {
        ObjectKind::Function(_) => {
            return Err(type_error("Function cannot be cloned with structuredClone"));
        },
        ObjectKind::Array(elems) => (0, crate::interpreter::copy_values(elems), Vec::new(), false, crate::number::JsNumber::zero(), Vec::new()),
        ObjectKind::MapData(t) => (
            1,
            Vec::new(),
            crate::table::table_copy(t),
            false,
            crate::number::JsNumber::zero(),
            Vec::new(),
        ),
        ObjectKind::BooleanBox(x) => (2, Vec::new(), Vec::new(), *x, crate::number::JsNumber::zero(), Vec::new()),
        ObjectKind::NumberBox(x) => (3, Vec::new(), Vec::new(), false, *x, Vec::new()),
        ObjectKind::StringBox(x) => (4, Vec::new(), Vec::new(), false, crate::number::JsNumber::zero(), copy_chars(x)),
        _ => (5, Vec::new(), Vec::new(), false, crate::number::JsNumber::zero(), Vec::new()),
    };
    proof {
        assert(!(old(interp).heap@[id as int].kind is Function));
        assert(tag != 0 ==> old(interp).array_at(id) is None);
    }
    if tag == 0 {
        let ghost s = old(interp).array_at(id).unwrap();
        let ghost plain = primitives_only(s) && old(interp).fuel > 1 + 2 * s.len();
        let mut out: Vec<JsValue> = Vec::new();
        let mut i: usize = 0;
        while i < items.len()
            invariant
                i <= items@.len(),
                interp.spends(old(interp), false),
                s == old(interp).array_at(id).unwrap(),
                plain == (primitives_only(s) && old(interp).fuel > 1 + 2 * s.len()),
                plain ==> same_seq(items@, s) && interp.heap@ == old(interp).heap@ && interp.fuel + 1 + 2 * i
                    >= old(interp).fuel && same_seq(out@, s.take(i as int)),
                *v == JsValue::Object(id),
                id < old(interp).heap@.len(),
                !(old(interp).heap@[id as int].kind is Function),
            decreases items@.len() - i,
        {
            proof {
                if plain {
                    assert(same_value(items@[i as int], s[i as int]));
                }
            }
            interp.step()?;
            let c = clone_value(interp, &items[i])?;
            out.push(c);
            proof {
                if plain {
                    assert(same_value(c, s[i as int]));
                    assert forall|j: int| 0 <= j < i + 1 implies same_value(#[trigger] out@[j], s.take(i + 1)[j]) by {
                        if j < i {
                            assert(same_value(out@[j], s.take(i as int)[j]));
                        }
                    }
                }
            }
            i = i + 1;
        }
        proof {
            if plain {
                assert(s.take(items@.len() as int) =~= s);
            }
        }
        return Ok(JsValue::Object(interp.create_array(out)));
    }
    if tag == 1 {
        let mut out = crate::table::table_new();
        let mut i: usize = 0;
        while i < entries.len()
            invariant
                i <= entries@.len(),
                interp.spends(old(interp), false),
                *v == JsValue::Object(id),
                id < old(interp).heap@.len(),
                !(old(interp).heap@[id as int].kind is Function),
                old(interp).array_at(id) is None,
            decreases entries@.len() - i,
        {
            interp.step()?;
            let k = clone_value(interp, &entries[i].0)?;
            interp.step()?;
            let w = clone_value(interp, &entries[i].1)?;
            crate::table::table_put(&mut out, k, w);
            i = i + 1;
        }
        let p = interp.map_prototype;
        return Ok(JsValue::Object(interp.allocate(new_object(ObjectKind::MapData(out), Some(p)))));
    }
    if tag == 2 {
        let p = interp.boolean_prototype;
        return Ok(JsValue::Object(interp.allocate(new_object(ObjectKind::BooleanBox(b), Some(p)))));
    }
    if tag == 3 {
        let p = interp.number_prototype;
        return Ok(JsValue::Object(interp.allocate(new_object(ObjectKind::NumberBox(n), Some(p)))));
    }
    if tag == 4 {
        let p = interp.string_prototype;
        return Ok(JsValue::Object(interp.allocate(new_object(ObjectKind::StringBox(text), Some(p)))));
    }
    let mut pairs: Vec<(Vec<char>, JsValue)> = Vec::new();
    let np = interp.heap[id].props.len();
    let mut i: usize = 0;
    while i < np
        invariant
            i <= np,
            id < interp.heap@.len(),
            np == interp.heap@[id as int].props@.len(),
        decreases np - i,
    {
        pairs.push((copy_chars(&interp.heap[id].props[i].key), interp.heap[id].props[i].value.copy()));
        i = i + 1;
    }
    let result = interp.create_object();
    let mut j: usize = 0;
    while j < pairs.len()
        invariant
            j <= pairs@.len(),
            interp.spends(old(interp), false),
            *v == JsValue::Object(id),
            id < old(interp).heap@.len(),
            !(old(interp).heap@[id as int].kind is Function),
            old(interp).array_at(id) is None,
        decreases pairs@.len() - j,
    {
        interp.step()?;
        let c = clone_value(interp, &pairs[j].1)?;
        let key = copy_chars(&pairs[j].0);
        interp.set_property(result, crate::value::PropertyKey::Name(key), c);
        j = j + 1;
    }
    Ok(JsValue::Object(result))
}

/// `structuredClone(value)`: a deep copy of the value.
pub fn global_structured_clone(interp: &mut Interpreter, this: JsValue, args: Vec<JsValue>) -> (r: Result<
    JsValue,
    JsError,
>)
    ensures
        final(interp).spends(old(interp), r is Err),
        !(crate::builtins::maps::nth_arg(args@, 0) is Object) ==> (r matches Ok(w) ==> same_value(w, crate::builtins::maps::nth_arg(args@, 0))),
        !(crate::builtins::maps::nth_arg(args@, 0) is Object) && old(interp).fuel > 1 ==> r is Ok,
        (old(interp).fuel > 1 && crate::builtins::maps::nth_arg(args@, 0) is Object
            && crate::builtins::maps::nth_arg(args@, 0)->Object_0 < old(interp).heap@.len()
            && old(interp).heap@[crate::builtins::maps::nth_arg(args@, 0)->Object_0 as int].kind is Function)
            ==> is_type_error(r),
        (crate::builtins::maps::nth_arg(args@, 0) is Object && old(interp).array_at(
            crate::builtins::maps::nth_arg(args@, 0)->Object_0,
        ) is Some && primitives_only(old(interp).array_at(crate::builtins::maps::nth_arg(args@, 0)->Object_0).unwrap())
            && old(interp).fuel > 2 + 2 * old(interp).array_at(crate::builtins::maps::nth_arg(args@, 0)->Object_0).unwrap().len())
            ==> (r == Ok::<JsValue, JsError>(JsValue::Object(old(interp).heap.len())) && (final(interp).array_at(
            old(interp).heap.len(),
        ) matches Some(t) && same_seq(t, old(interp).array_at(crate::builtins::maps::nth_arg(args@, 0)->Object_0).unwrap()))),
    decreases old(interp).fuel,
{
    interp.step()?;
    let v = crate::interpreter::arg_at(&args, 0);
    clone_value(interp, &v)
}

/// `eval(code)`: runs a string of code in the global scope and gives its value; other
/// values are returned as they are.
pub fn global_eval(interp: &mut Interpreter, this: JsValue, args: Vec<JsValue>) -> (r: Result<
    JsValue,
    JsError,
>)
    ensures
        final(interp).spends(old(interp), r is Err) || *final(interp) == *old(interp),
        args@.len() == 0 ==> r == Ok::<JsValue, JsError>(JsValue::Undefined),
        args@.len() > 0 && !(args@[0] is String) ==> (r matches Ok(w) && same_value(w, args@[0])),
    decreases old(interp).fuel,
{
    if args.len() == 0 {
        return Ok(JsValue::Undefined);
    }
    match &args[0] {
        JsValue::String(code) => {
            interp.step()?;
            eval_code_in_scope(interp, code.as_slice(), true)
        },
        v => Ok(v.copy()),
    }
}

/// Runs `code` with the global object as `this`, in the global scope (`use_global_scope`)
/// or the current one.
pub fn eval_code_in_scope(interp: &mut Interpreter, code: &[char], use_global_scope: bool) -> (r: Result<
    JsValue,
    JsError,
>)
    ensures
        final(interp).spends(old(interp), r is Err) || *final(interp) == *old(interp),
    decreases old(interp).fuel,
{
    let this_value = JsValue::Object(interp.global);
    interp.step()?;
    eval_code_in_scope_with_this(interp, code, use_global_scope, this_value)
}

/// Runs `code` in a new scope under the global scope (`use_global_scope`) or the current
/// one, with `this_value` as `this`; white-space-only code gives `undefined`. The scope
/// and `this` of the caller are restored afterwards.
pub fn eval_code_in_scope_with_this(
    interp: &mut Interpreter,
    code: &[char],
    use_global_scope: bool,
    this_value: JsValue,
) -> (r: Result<JsValue, JsError>)
    ensures
        final(interp).spends(old(interp), r is Err) || *final(interp) == *old(interp),
        final(interp).env == old(interp).env,
        final(interp).this_val == old(interp).this_val,
        (forall|j: int| 0 <= j < code@.len() ==> is_js_space(#[trigger] code@[j])) ==> r == Ok::<JsValue, JsError>(JsValue::Undefined),
    decreases old(interp).fuel,
{
    let (lo, hi) = trim_bounds(code);
    if lo == hi {
        return Ok(JsValue::Undefined);
    }
    let program = match crate::parser::parse_chars(code) {
        Ok(p) => p,
        Err(e) => {
            let mut msg = crate::number::chars_of("eval: ");
            if let JsError::Raised(_, m) = &e {
                crate::number::append_chars(&mut msg, m.as_slice());
            }
            return Err(JsError::Raised(ErrorKind::SyntaxError, msg));
        },
    };
    interp.step()?;
    let saved_env = interp.env;
    let mut saved_this = this_value;
    std::mem::swap(&mut interp.this_val, &mut saved_this);
    let parent = if use_global_scope {
        0
    } else {
        saved_env
    };
    let scope = interp.push_scope(parent);
    interp.env = scope;
    let result = interp.execute(&program);
    interp.env = saved_env;
    interp.this_val = saved_this;
    result
}

/// Installs the global functions and `globalThis`.
#[verifier::rlimit(50)]
pub fn init_global_functions(interp: &mut Interpreter)
    ensures
        final(interp).heap@.len() == old(interp).heap@.len() + 12,
        final(interp).same_registers(old(interp)),
        final(interp).grows(old(interp)),
        final(interp).fuel == old(interp).fuel,
        function_globals(
            old(interp).scopes@,
            final(interp).scopes@,
            old(interp).heap@.len() as int,
            old(interp).global,
        ),
        forall|i: int| 0 <= i < old(interp).heap@.len() ==> #[trigger] final(interp).heap@[i] == old(interp).heap@[i],
        forall|j: int| 0 <= j < 12 ==> final(interp).heap@[old(interp).heap@.len() + j].kind == ObjectKind::Function(
            FunctionKind::Native(#[trigger] function_global_ids()[j]),
        ),
{
    let g = interp.global;
    let ghost h0 = interp.heap@.len();
    interp.define_global("globalThis", JsValue::Object(g));
    global_function(interp, "parseInt", NativeId::GlobalParseInt, 2);
    proof {
        assert(forall|j: int| 0 <= j < 1 ==> (#[trigger] interp.heap@[h0 + j]).kind == ObjectKind::Function(
            FunctionKind::Native(function_global_ids()[j]),
        ));
    }
    global_function(interp, "parseFloat", NativeId::GlobalParseFloat, 1);
    proof {
        assert(forall|j: int| 0 <= j < 2 ==> (#[trigger] interp.heap@[h0 + j]).kind == ObjectKind::Function(
            FunctionKind::Native(function_global_ids()[j]),
        ));
    }
    global_function(interp, "isNaN", NativeId::GlobalIsNaN, 1);
    proof {
        assert(forall|j: int| 0 <= j < 3 ==> (#[trigger] interp.heap@[h0 + j]).kind == ObjectKind::Function(
            FunctionKind::Native(function_global_ids()[j]),
        ));
    }
    global_function(interp, "isFinite", NativeId::GlobalIsFinite, 1);
    proof {
        assert(forall|j: int| 0 <= j < 4 ==> (#[trigger] interp.heap@[h0 + j]).kind == ObjectKind::Function(
            FunctionKind::Native(function_global_ids()[j]),
        ));
    }
    global_function(interp, "encodeURI", NativeId::GlobalEncodeUri, 1);
    proof {
        assert(forall|j: int| 0 <= j < 5 ==> (#[trigger] interp.heap@[h0 + j]).kind == ObjectKind::Function(
            FunctionKind::Native(function_global_ids()[j]),
        ));
    }
    global_function(interp, "decodeURI", NativeId::GlobalDecodeUri, 1);
    proof {
        assert(forall|j: int| 0 <= j < 6 ==> (#[trigger] interp.heap@[h0 + j]).kind == ObjectKind::Function(
            FunctionKind::Native(function_global_ids()[j]),
        ));
    }
    global_function(interp, "encodeURIComponent", NativeId::GlobalEncodeUriComponent, 1);
    proof {
        assert(forall|j: int| 0 <= j < 7 ==> (#[trigger] interp.heap@[h0 + j]).kind == ObjectKind::Function(
            FunctionKind::Native(function_global_ids()[j]),
        ));
    }
    global_function(interp, "decodeURIComponent", NativeId::GlobalDecodeUriComponent, 1);
    proof {
        assert(forall|j: int| 0 <= j < 8 ==> (#[trigger] interp.heap@[h0 + j]).kind == ObjectKind::Function(
            FunctionKind::Native(function_global_ids()[j]),
        ));
    }
    global_function(interp, "btoa", NativeId::GlobalBtoa, 1);
    proof {
        assert(forall|j: int| 0 <= j < 9 ==> (#[trigger] interp.heap@[h0 + j]).kind == ObjectKind::Function(
            FunctionKind::Native(function_global_ids()[j]),
        ));
    }
    global_function(interp, "atob", NativeId::GlobalAtob, 1);
    proof {
        assert(forall|j: int| 0 <= j < 10 ==> (#[trigger] interp.heap@[h0 + j]).kind == ObjectKind::Function(
            FunctionKind::Native(function_global_ids()[j]),
        ));
    }
    global_function(interp, "structuredClone", NativeId::GlobalStructuredClone, 1);
    proof {
        assert(forall|j: int| 0 <= j < 11 ==> (#[trigger] interp.heap@[h0 + j]).kind == ObjectKind::Function(
            FunctionKind::Native(function_global_ids()[j]),
        ));
    }
    global_function(interp, "eval", NativeId::GlobalEval, 1);
    proof {
        assert(forall|j: int| 0 <= j < 12 ==> (#[trigger] interp.heap@[h0 + j]).kind == ObjectKind::Function(
            FunctionKind::Native(function_global_ids()[j]),
        ));
    }
    proof {
        reveal_strlit("globalThis");
        reveal_strlit("parseInt");
        reveal_strlit("parseFloat");
        reveal_strlit("isNaN");
        reveal_strlit("isFinite");
        reveal_strlit("encodeURI");
        reveal_strlit("decodeURI");
        reveal_strlit("encodeURIComponent");
        reveal_strlit("decodeURIComponent");
        reveal_strlit("btoa");
        reveal_strlit("atob");
        reveal_strlit("structuredClone");
        reveal_strlit("eval");
        let names = function_global_names();
        assert forall|a: int, b: int| 0 <= a < 12 && 0 <= b < 12 && a != b implies #[trigger] names[a]
            != #[trigger] names[b] by {
            if names[a] == names[b] {
                assert(names[a].len() == names[b].len());
                assert(names[a][0] == names[b][0]);
                assert(names[a][names[a].len() - 1] == names[b][names[b].len() - 1]);
                assert(names[a][names[a].len() - 2] == names[b][names[b].len() - 2]);
            }
        }
        assert forall|j: int| 0 <= j < 12 implies #[trigger] names[j] != "globalThis"@ by {
            if names[j] == "globalThis"@ {
                assert(names[j].len() == 10);
                assert(names[j][0] == 'g');
            }
        }
        if old(interp).scopes@.len() > 0 {
            assert forall|j: int| 0 <= j < 12 implies scope_value(interp.scopes@, 0, #[trigger] names[j])
                == Some(JsValue::Object((h0 + j) as usize)) by {
                assert(names[0] != names[j] || j == 0);
                assert(names[1] != names[j] || j == 1);
                assert(names[2] != names[j] || j == 2);
                assert(names[3] != names[j] || j == 3);
                assert(names[4] != names[j] || j == 4);
                assert(names[5] != names[j] || j == 5);
                assert(names[6] != names[j] || j == 6);
                assert(names[7] != names[j] || j == 7);
                assert(names[8] != names[j] || j == 8);
                assert(names[9] != names[j] || j == 9);
                assert(names[10] != names[j] || j == 10);
                assert(names[11] != names[j] || j == 11);
            }
        }
        assert forall|k: Seq<char>| k != "globalThis"@ && !names.contains(k) implies #[trigger] scope_value(
            interp.scopes@,
            0,
            k,
        ) == scope_value(old(interp).scopes@, 0, k) by {
            assert(names[0] != k);
            assert(names[1] != k);
            assert(names[2] != k);
            assert(names[3] != k);
            assert(names[4] != k);
            assert(names[5] != k);
            assert(names[6] != k);
            assert(names[7] != k);
            assert(names[8] != k);
            assert(names[9] != k);
            assert(names[10] != k);
            assert(names[11] != k);
        }
    }
}

/// The built-ins that the global functions are, in the order of `function_global_names`.
pub open spec fn function_global_ids() -> Seq<NativeId> {
    seq![
        NativeId::GlobalParseInt,
        NativeId::GlobalParseFloat,
        NativeId::GlobalIsNaN,
        NativeId::GlobalIsFinite,
        NativeId::GlobalEncodeUri,
        NativeId::GlobalDecodeUri,
        NativeId::GlobalEncodeUriComponent,
        NativeId::GlobalDecodeUriComponent,
        NativeId::GlobalBtoa,
        NativeId::GlobalAtob,
        NativeId::GlobalStructuredClone,
        NativeId::GlobalEval,
    ]
}

/// The names that `init_global_functions` binds to built-in functions, in order.
pub open spec fn function_global_names() -> Seq<Seq<char>> {
    seq![
        "parseInt"@,
        "parseFloat"@,
        "isNaN"@,
        "isFinite"@,
        "encodeURI"@,
        "decodeURI"@,
        "encodeURIComponent"@,
        "decodeURIComponent"@,
        "btoa"@,
        "atob"@,
        "structuredClone"@,
        "eval"@,
    ]
}

/// The global bindings that `init_global_functions` leaves: `globalThis` bound to the
/// global object `g`, the functions allocated in order from heap index `first`, and
/// every other global as it was.
pub open spec fn function_globals(before: Seq<Scope>, after: Seq<Scope>, first: int, g: usize) -> bool {
    &&& after.len() == before.len()
    &&& before.len() > 0 ==> scope_value(after, 0, "globalThis"@) == Some(JsValue::Object(g))
    &&& before.len() > 0 ==> forall|j: int| 0 <= j < 12 ==> scope_value(
        after,
        0,
        #[trigger] function_global_names()[j],
    ) == Some(JsValue::Object((first + j) as usize))
    &&& forall|k: Seq<char>| k != "globalThis"@ && !function_global_names().contains(k) ==> #[trigger] scope_value(
        after,
        0,
        k,
    ) == scope_value(before, 0, k)
}

/// A built-in function bound to a global name.
fn global_function(interp: &mut Interpreter, name: &str, id: NativeId, arity: usize)
    ensures
        final(interp).same_registers(old(interp)),
        final(interp).grows(old(interp)),
        final(interp).fuel == old(interp).fuel,
        final(interp).heap@.len() == old(interp).heap@.len() + 1,
        forall|i: int| 0 <= i < old(interp).heap@.len() ==> #[trigger] final(interp).heap@[i] == old(interp).heap@[i],
        final(interp).heap@[old(interp).heap@.len() as int].kind == ObjectKind::Function(FunctionKind::Native(id)),
        global_set(
            old(interp).scopes@,
            final(interp).scopes@,
            name@,
            JsValue::Object(old(interp).heap@.len() as usize),
        ),
{
    let f = interp.create_native(id, name, arity);
    interp.define_global(name, JsValue::Object(f));
}

} // verus!
