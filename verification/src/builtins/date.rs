//! `Date`: timestamps in milliseconds since 1970 (UTC) and their calendar fields.
use crate::builtins::helpers::{is_range_error, is_type_error};
use crate::builtins::string::{direct_text, text_arg};
use crate::interpreter::{global_set, raise, type_error, Interpreter};
use crate::number::{chars_of, is_js_space, spec_int, trim_bounds, JsNumber};
use crate::value::{ErrorKind, JsError, JsValue, NativeId, ObjectKind};
use vstd::prelude::*;

verus! {

pub const MS_PER_SECOND: i64 = 1000;
pub const MS_PER_MINUTE: i64 = 60000;
pub const MS_PER_HOUR: i64 = 3600000;
pub const MS_PER_DAY: i64 = 86400000;

/// Largest magnitude of a timestamp that the calendar fields are computed for (2^53).
pub const TS_LIMIT: i64 = 9007199254740992;

/// The civil date `(year, month 1..=12, day 1..=31)` of a day count since 1970-01-01,
/// in the proleptic Gregorian calendar.
pub open spec fn civil_from_days(days: int) -> (int, int, int) {
    let z = days + 719468;
    let era = z / 146097;
    let doe = z - era * 146097;
    let yoe = (doe - doe / 1460 + doe / 36524 - doe / 146096) / 365;
    let y = yoe + era * 400;
    let doy = doe - (365 * yoe + yoe / 4 - yoe / 100);
    let mp = (5 * doy + 2) / 153;
    let d = doy - (153 * mp + 2) / 5 + 1;
    let m = if mp < 10 { mp + 3 } else { mp - 9 };
    (if m <= 2 { y + 1 } else { y }, m, d)
}

/// The day count since 1970-01-01 of the civil date `(y, m, d)` (month 1..=12).
pub open spec fn days_from_civil(y: int, m: int, d: int) -> int {
    let y2 = if m <= 2 { y - 1 } else { y };
    let mm = if m <= 2 { m + 12 } else { m };
    let era = y2 / 400;
    let yoe = y2 - era * 400;
    let doy = (153 * (mm - 3) + 2) / 5 + d - 1;
    let doe = yoe * 365 + yoe / 4 - yoe / 100 + doy;
    era * 146097 + doe - 719468
}

/// The fields of a timestamp: year, month (1..=12), day, hour, minute, second,
/// millisecond and weekday (0 is Sunday).
pub struct DateFields {
    pub year: i64,
    pub month: i64,
    pub day: i64,
    pub hour: i64,
    pub minute: i64,
    pub second: i64,
    pub ms: i64,
    pub weekday: i64,
}

/// The fields of the timestamp `t` (milliseconds).
pub open spec fn fields_of(t: int) -> DateFields {
    let days = t / 86400000;
    let tod = t % 86400000;
    let c = civil_from_days(days);
    DateFields {
        year: c.0 as i64,
        month: c.1 as i64,
        day: c.2 as i64,
        hour: (tod / 3600000) as i64,
        minute: ((tod % 3600000) / 60000) as i64,
        second: ((tod % 60000) / 1000) as i64,
        ms: (tod % 1000) as i64,
        weekday: ((days % 7 + 4) % 7) as i64,
    }
}

/// The integral timestamp a `Date` holds, when it is finite (truncated, within 2^53).
pub open spec fn date_millis(n: JsNumber) -> Option<int> {
    match n {
        JsNumber::Finite { .. } => if n.is_small_int() && -TS_LIMIT <= n.int_value() <= TS_LIMIT {
            Some(n.int_value())
        } else {
            None
        },
        _ => None,
    }
}

/// The timestamp of `v` if it is a `Date`.
pub open spec fn date_value(interp: &Interpreter, v: JsValue) -> Option<JsNumber> {
    match v {
        JsValue::Object(id) => if id < interp.heap@.len() {
            match interp.heap@[id as int].kind {
                ObjectKind::DateValue(n) => Some(n),
                _ => None,
            }
        } else {
            None
        },
        _ => None,
    }
}

/// Floor division of `a` by a positive `b`, computed on non-negative numbers only.
fn floor_div(a: i64, b: i64) -> (r: i64)
    requires
        0 < b <= 1000000000,
        -4611686018427387904 < a < 4611686018427387904,
    ensures
        r == a / b,
{
    if a >= 0 {
        a / b
    } else {
        let q = (-a + b - 1) / b;
        proof {
            let ai = a as int;
            let bi = b as int;
            vstd::arithmetic::div_mod::lemma_fundamental_div_mod(ai, bi);
            let q0 = ai / bi;
            let r0 = ai % bi;
            assert(-ai + bi - 1 == (-q0) * bi + (bi - 1 - r0)) by (nonlinear_arith)
                requires
                    ai == bi * q0 + r0,
            ;
            vstd::arithmetic::div_mod::lemma_fundamental_div_mod_converse(-ai + bi - 1, bi, -q0, bi - 1 - r0);
        }
        -q
    }
}

/// The civil date of a day count.
fn civil(days: i64) -> (r: (i64, i64, i64))
    requires
        -200000000 <= days <= 200000000,
    ensures
        r == (civil_from_days(days as int).0 as i64, civil_from_days(days as int).1 as i64, civil_from_days(days as int).2 as i64),
        1 <= r.1 <= 12,
        1 <= r.2 <= 31,
        -1000000 <= r.0 <= 1000000,
{
    let z = days + 719468;
    let era = floor_div(z, 146097);
    let doe = z - era * 146097;
    assert(0 <= doe < 146097) by {
        vstd::arithmetic::div_mod::lemma_fundamental_div_mod(z as int, 146097);
    }
    let yoe = (doe - doe / 1460 + doe / 36524 - doe / 146096) / 365;
    let y = yoe + era * 400;
    let doy = doe - (365 * yoe + yoe / 4 - yoe / 100);
    assert(0 <= yoe <= 399 && 0 <= doy <= 365) by (nonlinear_arith)
        requires
            0 <= doe < 146097,
            yoe == (doe - doe / 1460 + doe / 36524 - doe / 146096) / 365,
            doy == doe - (365 * yoe + yoe / 4 - yoe / 100),
    ;
    let mp = (5 * doy + 2) / 153;
    let d = doy - (153 * mp + 2) / 5 + 1;
    let m = if mp < 10 {
        mp + 3
    } else {
        mp - 9
    };
    assert(0 <= mp <= 11 && 1 <= d <= 31) by (nonlinear_arith)
        requires
            0 <= doy <= 365,
            mp == (5 * doy + 2) / 153,
            d == doy - (153 * mp + 2) / 5 + 1,
    ;
    let year = if m <= 2 {
        y + 1
    } else {
        y
    };
    (year, m, d)
}

/// The fields of a timestamp in range.
fn fields(t: i64) -> (r: DateFields)
    requires
        -TS_LIMIT <= t <= TS_LIMIT,
    ensures
        r == fields_of(t as int),
        1 <= r.month <= 12,
        1 <= r.day <= 31,
        0 <= r.hour < 24,
        0 <= r.minute < 60,
        0 <= r.second < 60,
        0 <= r.ms < 1000,
        0 <= r.weekday < 7,
        -1000000 <= r.year <= 1000000,
{
    let days = floor_div(t, MS_PER_DAY);
    let tod = t - days * MS_PER_DAY;
    proof {
        vstd::arithmetic::div_mod::lemma_fundamental_div_mod(t as int, 86400000);
        assert(tod as int == (t as int) % 86400000);
        assert(-200000000 <= days <= 200000000) by (nonlinear_arith)
            requires
                days == (t as int) / 86400000,
                -TS_LIMIT <= t <= TS_LIMIT,
        ;
    }
    let (year, month, day) = civil(days);
    let wd = floor_div(days, 7);
    let dmod = days - wd * 7;
    proof {
        vstd::arithmetic::div_mod::lemma_fundamental_div_mod(days as int, 7);
        assert(dmod as int == (days as int) % 7);
    }
    DateFields {
        year,
        month,
        day,
        hour: tod / MS_PER_HOUR,
        minute: (tod % MS_PER_HOUR) / MS_PER_MINUTE,
        second: (tod % MS_PER_MINUTE) / MS_PER_SECOND,
        ms: tod % MS_PER_SECOND,
        weekday: (dmod + 4) % 7,
    }
}

/// The timestamp of a number, when it is finite and in range.
fn millis_of(n: JsNumber) -> (r: Option<i64>)
    requires
        n.wf(),
    ensures
        r matches Some(t) ==> date_millis(n) == Some(t as int) && -TS_LIMIT <= t <= TS_LIMIT,
        (r is None && n is Finite) ==> date_millis(n) is None,
{
    match n {
        JsNumber::Finite { exp, mant, .. } => {
            if exp == 0 && mant <= TS_LIMIT as u64 {
                Some(n.to_integer_clamped())
            } else {
                None
            }
        },
        _ => None,
    }
}

/// The length of `n` in decimal, its sign counted.
pub open spec fn padded_len(n: i64) -> int {
    crate::number::dec_digits((if n < 0 { -n } else { n as int }) as nat).len() + (if n < 0 { 1int } else { 0int })
}

/// `n` in decimal, zero-padded to `width` characters with its sign counted.
#[verifier::opaque]
pub open spec fn padded_text(n: i64, width: int) -> Seq<char> {
    (if n < 0 {
        seq!['-']
    } else {
        Seq::<char>::empty()
    }) + Seq::new(
        (if padded_len(n) < width {
            width - padded_len(n)
        } else {
            0
        }) as nat,
        |_i: int| '0',
    ) + crate::number::dec_digits((if n < 0 { -n } else { n as int }) as nat)
}

/// Appends `n` in decimal, zero-padded to `width` characters with its sign counted.
fn push_padded(out: &mut Vec<char>, n: i64, width: usize)
    requires
        -1000000000 <= n <= 1000000000,
    ensures
        final(out)@ == old(out)@ + (if n < 0 { seq!['-'] } else { Seq::<char>::empty() }) + Seq::new(
            (if padded_len(n) < width { width - padded_len(n) } else { 0 }) as nat,
            |_i: int| '0',
        ) + crate::number::dec_digits((if n < 0 { -n } else { n as int }) as nat),
        final(out)@ == old(out)@ + padded_text(n, width as int),
{
    proof {
        reveal(padded_text);
    }
    let digits = crate::number::u64_to_dec((if n < 0 { -n } else { n }) as u64);
    assert(digits@.len() <= 10) by {
        crate::number::lemma_dec_digits_len((if n < 0 { -n } else { n as int }) as nat);
    }
    let mut len = digits.len();
    if n < 0 {
        len = len + 1;
    }
    let ghost start = out@;
    if n < 0 {
        out.push('-');
    }
    let ghost signed = out@;
    if len < width {
        crate::number::push_repeat(out, '0', width - len);
    }
    let ghost padded = out@;
    assert(padded =~= signed + Seq::new((if len < width { width - len } else { 0 }) as nat, |_i: int| '0'));
    crate::number::append_chars(out, digits.as_slice());
}

/// Three-letter names.
fn name_of(names: &str, k: i64) -> (r: Vec<char>)
    requires
        0 <= k,
    ensures
        3 * k + 3 <= names@.len() ==> r@ == names@.subrange(3 * k, 3 * k + 3),
        3 * k + 3 > names@.len() ==> r@.len() == 0,
{
    let all = chars_of(names);
    let mut out: Vec<char> = Vec::new();
    if k as u64 >= all.len() as u64 {
        return out;
    }
    if let Some(st) = (k as usize).checked_mul(3) {
        if st < all.len() && all.len() - st >= 3 {
            out.push(all[st]);
            out.push(all[st + 1]);
            out.push(all[st + 2]);
            assert(out@ =~= names@.subrange(3 * k, 3 * k + 3));
        }
    }
    out
}

/// `Date.prototype.toString` text of a timestamp.
/// Three letters of `names` for entry `k`, nothing past its end.
pub open spec fn name_text(names: Seq<char>, k: int) -> Seq<char> {
    if 3 * k + 3 <= names.len() {
        names.subrange(3 * k, 3 * k + 3)
    } else {
        Seq::empty()
    }
}

/// The text `Date.prototype.toString` gives for the time value `n`:
/// `Www Mmm DD YYYY hh:mm:ss GMT+0000 (UTC)`, or `Invalid Date`.
pub open spec fn display_text(n: JsNumber) -> Seq<char> {
    if n.wf() && date_millis(n) is Some {
        let f = fields_of(date_millis(n)->0);
        name_text("SunMonTueWedThuFriSat"@, f.weekday as int) + seq![' '] + name_text(
            "JanFebMarAprMayJunJulAugSepOctNovDec"@,
            f.month - 1,
        ) + seq![' '] + padded_text(f.day, 2) + seq![' '] + padded_text(f.year, 4) + seq![' ']
            + time_text(f) + " GMT+0000 (UTC)"@
    } else {
        "Invalid Date"@
    }
}

pub fn date_display(n: JsNumber) -> (r: Vec<char>)
    ensures
        r@ == display_text(n),
{
    if !n.check_wf() {
        return chars_of("Invalid Date");
    }
    match millis_of(n) {
        Some(t) => {
            let f = fields(t);
            let mut out = name_of("SunMonTueWedThuFriSat", f.weekday);
            let ghost s0 = out@;
            assert(s0 == name_text("SunMonTueWedThuFriSat"@, f.weekday as int));
            out.push(' ');
            let m = name_of("JanFebMarAprMayJunJulAugSepOctNovDec", f.month - 1);
            crate::number::append_chars(&mut out, m.as_slice());
            out.push(' ');
            let ghost s1 = out@;
            assert(s1 =~= s0 + seq![' '] + name_text("JanFebMarAprMayJunJulAugSepOctNovDec"@, f.month - 1)
                + seq![' ']);
            push_padded(&mut out, f.day, 2);
            out.push(' ');
            let ghost s2 = out@;
            assert(s2 =~= s1 + padded_text(f.day, 2) + seq![' ']);
            push_padded(&mut out, f.year, 4);
            out.push(' ');
            let ghost s3 = out@;
            assert(s3 =~= s2 + padded_text(f.year, 4) + seq![' ']);
            push_time(&mut out, &f);
            let tail = chars_of(" GMT+0000 (UTC)");
            crate::number::append_chars(&mut out, tail.as_slice());
            assert(out@ =~= s3 + time_text(f) + " GMT+0000 (UTC)"@);
            assert(out@ =~= display_text(n));
            out
        },
        None => chars_of("Invalid Date"),
    }
}

/// Appends `HH:MM:SS`.
/// `hh:mm:ss` of the fields.
pub open spec fn time_text(f: DateFields) -> Seq<char> {
    padded_text(f.hour, 2) + seq![':'] + padded_text(f.minute, 2) + seq![':'] + padded_text(f.second, 2)
}

fn push_time(out: &mut Vec<char>, f: &DateFields)
    requires
        0 <= f.hour < 24,
        0 <= f.minute < 60,
        0 <= f.second < 60,
    ensures
        final(out)@ == old(out)@ + time_text(*f),
{
    let ghost o0 = out@;
    push_padded(out, f.hour, 2);
    out.push(':');
    assert(out@ =~= o0 + padded_text(f.hour, 2) + seq![':']);
    let ghost o1 = out@;
    push_padded(out, f.minute, 2);
    out.push(':');
    assert(out@ =~= o1 + padded_text(f.minute, 2) + seq![':']);
    let ghost o2 = out@;
    push_padded(out, f.second, 2);
    assert(out@ =~= o0 + time_text(*f));
}

/// The timestamp of calendar fields as `Date.UTC` computes it: years 0..=99 stand for
/// 1900..=1999, months count from 0 and overflow into years, days overflow into months.
pub open spec fn timestamp_of(year: int, month: int, day: int, hour: int, minute: int, second: int, ms: int) -> int {
    let y = if 0 <= year < 100 { year + 1900 } else { year };
    let total = y * 12 + month;
    let base = days_from_civil(total / 12, total % 12 + 1, 1);
    (base + day - 1) * 86400000 + hour * 3600000 + minute * 60000 + second * 1000 + ms
}

/// The day count of a civil date.
fn days_civil(y: i64, m: i64, d: i64) -> (r: i64)
    requires
        -4000000000 <= y <= 4000000000,
        1 <= m <= 12,
        1 <= d <= 31,
    ensures
        r == days_from_civil(y as int, m as int, d as int),
        -2000000000000 <= r <= 2000000000000,
{
    let y2 = if m <= 2 {
        y - 1
    } else {
        y
    };
    let mm = if m <= 2 {
        m + 12
    } else {
        m
    };
    let era = floor_div(y2, 400);
    let yoe = y2 - era * 400;
    proof {
        vstd::arithmetic::div_mod::lemma_fundamental_div_mod(y2 as int, 400);
    }
    let doy = (153 * (mm - 3) + 2) / 5 + d - 1;
    let doe = yoe * 365 + yoe / 4 - yoe / 100 + doy;
    assert(-20000000 <= era <= 20000000) by (nonlinear_arith)
        requires
            era == (y2 as int) / 400,
            -4000000001 <= y2 <= 4000000000,
    ;
    era * 146097 + doe - 719468
}

/// `timestamp_of`, as a number: NaN when it does not fit in 64 bits.
fn timestamp(year: i64, month: i64, day: i64, hour: i64, minute: i64, second: i64, ms: i64) -> (r: JsNumber)
    requires
        -2147483648 <= year <= 2147483647,
        -2147483648 <= month <= 2147483647,
        -2147483648 <= day <= 2147483647,
        0 <= hour <= 4294967295,
        0 <= minute <= 4294967295,
        0 <= second <= 4294967295,
        0 <= ms <= 4294967295,
    ensures
        r.wf(),
        (-100000000000000000 < timestamp_of(year as int, month as int, day as int, hour as int, minute as int, second as int, ms as int) < 100000000000000000)
            ==> r == spec_int(timestamp_of(year as int, month as int, day as int, hour as int, minute as int, second as int, ms as int)),
{
    let y = if 0 <= year && year < 100 {
        year + 1900
    } else {
        year
    };
    let total = y * 12 + month;
    let ny = floor_div(total, 12);
    let nm = total - ny * 12 + 1;
    proof {
        vstd::arithmetic::div_mod::lemma_fundamental_div_mod(total as int, 12);
        assert(-4000000000 <= ny <= 4000000000) by (nonlinear_arith)
            requires
                ny == (total as int) / 12,
                -30000000000 <= total <= 30000000000,
        ;
    }
    let base = days_civil(ny, nm, 1);
    let t: i128 = (base as i128 + day as i128 - 1) * 86400000 + hour as i128 * 3600000 + minute as i128 * 60000
        + second as i128 * 1000 + ms as i128;
    if -100000000000000000 < t && t < 100000000000000000 {
        JsNumber::from_i64(t as i64)
    } else {
        JsNumber::nan()
    }
}

/// Reads `s[lo..hi]` as an integer the way the standard library reads `i32`
/// (`signed`) or `u32`: an optional sign, at least one digit, nothing else, in range.
/// The number of sign characters that open the field `s[lo..hi]`: a `+`, or a `-`
/// where the field may be negative.
pub open spec fn field_sign_len(s: Seq<char>, lo: int, hi: int, signed: bool) -> int {
    if lo < hi && (s[lo] == '+' || (signed && s[lo] == '-')) {
        1
    } else {
        0
    }
}

/// The value of the integer field `s[lo..hi]`: an optional sign, then one or more
/// decimal digits whose value fits (a signed field in 32-bit signed range, another
/// below 2^32).
pub open spec fn int_field_value(s: Seq<char>, lo: int, hi: int, signed: bool) -> Option<int> {
    let k = field_sign_len(s, lo, hi, signed);
    let d = s.subrange(lo + k, hi);
    let neg = k == 1 && s[lo] == '-';
    let limit = if !signed {
        4294967295int
    } else if neg {
        2147483648int
    } else {
        2147483647int
    };
    if d.len() > 0 && (forall|j: int| 0 <= j < d.len() ==> crate::number::is_dec_digit(#[trigger] d[j]))
        && crate::number::digits_value(d) <= limit {
        Some(
            if neg {
                -crate::number::digits_value(d)
            } else {
                crate::number::digits_value(d) as int
            },
        )
    } else {
        None
    }
}

/// A string of digits is worth at least any of its prefixes.
proof fn lemma_digits_prefix(d: Seq<char>, k: int)
    requires
        0 <= k <= d.len(),
        forall|j: int| 0 <= j < d.len() ==> crate::number::is_dec_digit(#[trigger] d[j]),
    ensures
        crate::number::digits_value(d.subrange(0, k)) <= crate::number::digits_value(d),
    decreases d.len(),
{
    if k < d.len() {
        let e = d.drop_last();
        assert forall|j: int| 0 <= j < e.len() implies crate::number::is_dec_digit(#[trigger] e[j]) by {
            assert(e[j] == d[j]);
        }
        lemma_digits_prefix(e, k);
        assert(e.subrange(0, k) =~= d.subrange(0, k));
    } else {
        assert(d.subrange(0, k) =~= d);
    }
}

fn parse_int_field(s: &[char], lo: usize, hi: usize, signed: bool) -> (r: Option<i64>)
    requires
        lo <= hi <= s@.len(),
    ensures
        r matches Some(v) ==> (signed ==> -2147483648 <= v <= 2147483647) && (!signed ==> 0 <= v <= 4294967295),
        match int_field_value(s@, lo as int, hi as int, signed) {
            Some(x) => r == Some(x as i64),
            None => r is None,
        },
{
    let mut i = lo;
    let mut neg = false;
    if i < hi && (s[i] == '+' || (signed && s[i] == '-')) {
        neg = s[i] == '-';
        i = i + 1;
    }
    let ghost start = i as int;
    let ghost d = s@.subrange(start, hi as int);
    assert(start == lo + field_sign_len(s@, lo as int, hi as int, signed));
    if i == hi {
        return None;
    }
    let limit: i64 = if !signed {
        4294967295
    } else if neg {
        2147483648
    } else {
        2147483647
    };
    let mut v: i64 = 0;
    assert(d.subrange(0, 0) =~= Seq::<char>::empty());
    while i < hi
        invariant
            lo <= start <= i <= hi,
            hi <= s@.len(),
            d == s@.subrange(start, hi as int),
            0 <= v <= limit,
            limit <= 4294967295,
            v == crate::number::digits_value(d.subrange(0, i - start)),
            forall|j: int| 0 <= j < i - start ==> crate::number::is_dec_digit(#[trigger] d[j]),
            start == lo + field_sign_len(s@, lo as int, hi as int, signed),
            neg == (field_sign_len(s@, lo as int, hi as int, signed) == 1 && s@[lo as int] == '-'),
            limit == (if !signed {
                4294967295int
            } else if neg {
                2147483648int
            } else {
                2147483647int
            }),
        decreases hi - i,
    {
        let c = s[i];
        if c < '0' || c > '9' {
            assert(d[i - start] == c);
            assert(!crate::number::is_dec_digit(d[i - start]));
            return None;
        }
        assert(d[i - start] == c);
        assert(d.subrange(0, i - start + 1).drop_last() =~= d.subrange(0, i - start));
        v = v * 10 + (c as u32 - 48) as i64;
        if v > limit {
            proof {
                if forall|j: int| 0 <= j < d.len() ==> crate::number::is_dec_digit(#[trigger] d[j]) {
                    lemma_digits_prefix(d, i - start + 1);
                }
            }
            return None;
        }
        i = i + 1;
    }
    assert(d.subrange(0, d.len() as int) =~= d);
    if neg {
        Some(-v)
    } else {
        Some(v)
    }
}

/// Position of the first `c` in `s[lo..hi]`, or `hi`.
/// The first position of `c` in `s[lo..hi]`, or `hi` when there is none.
pub open spec fn first_char(s: Seq<char>, lo: int, hi: int, c: char) -> int
    decreases hi - lo,
{
    if lo >= hi {
        hi
    } else if s[lo] == c {
        lo
    } else {
        first_char(s, lo + 1, hi, c)
    }
}

fn find_char(s: &[char], lo: usize, hi: usize, c: char) -> (r: usize)
    requires
        lo <= hi <= s@.len(),
    ensures
        lo <= r <= hi,
        r < hi ==> s@[r as int] == c,
        r == first_char(s@, lo as int, hi as int, c),
{
    let mut i = lo;
    while i < hi && s[i] != c
        invariant
            lo <= i <= hi,
            hi <= s@.len(),
            first_char(s@, lo as int, hi as int, c) == first_char(s@, i as int, hi as int, c),
        decreases hi - i,
    {
        i = i + 1;
    }
    i
}

/// Days in `month` (1..=12) of `year` in the Gregorian calendar.
pub open spec fn month_length(year: int, month: int) -> int {
    let a = if year < 0 { -year } else { year };
    if month == 2 {
        if a % 4 == 0 && (a % 100 != 0 || a % 400 == 0) {
            29
        } else {
            28
        }
    } else if month == 4 || month == 6 || month == 9 || month == 11 {
        30
    } else {
        31
    }
}

/// `month_length`, computed.
fn days_in_month(year: i64, month: i64) -> (r: i64)
    requires
        1 <= month <= 12,
        -4294967296 <= year <= 4294967296,
    ensures
        r == month_length(year as int, month as int),
{
    let a: u64 = if year < 0 {
        (-year) as u64
    } else {
        year as u64
    };
    if month == 2 {
        if a % 4 == 0 && (a % 100 != 0 || a % 400 == 0) {
            29
        } else {
            28
        }
    } else if month == 4 || month == 6 || month == 9 || month == 11 {
        30
    } else {
        31
    }
}

/// Reads `HH[:MM[:SS]][.mmm]` from `s[lo..hi]`: hour, minute, second and milliseconds.
/// The milliseconds of the fraction `s[lo..hi]` after a time's dot: one to three
/// digits, scaled to thousandths.
pub open spec fn fraction_ms(s: Seq<char>, lo: int, hi: int) -> Option<int> {
    match int_field_value(s, lo, hi, false) {
        Some(v) => if hi - lo == 1 && v <= 9 {
            Some(v * 100)
        } else if hi - lo == 2 && v <= 99 {
            Some(v * 10)
        } else if hi - lo == 3 && v <= 999 {
            Some(v)
        } else {
            None
        },
        None => None,
    }
}

/// The field `s[lo..hi]` read as an unsigned integer, zero when it is not one.
pub open spec fn field_or_zero(s: Seq<char>, lo: int, hi: int) -> int {
    match int_field_value(s, lo, hi, false) {
        Some(v) => v,
        None => 0,
    }
}

/// The time `hh[:mm[:ss]][.fff]` written in `s[lo..hi]`, as hours, minutes, seconds
/// and milliseconds: the hour must be an integer field, a minute or second that is
/// not one counts as zero, and hours above 23 or minutes or seconds above 59 are
/// refused.
pub open spec fn time_value(s: Seq<char>, lo: int, hi: int) -> Option<(int, int, int, int)> {
    let dot = first_char(s, lo, hi, '.');
    let ms = if dot < hi {
        fraction_ms(s, dot + 1, hi)
    } else {
        Some(0int)
    };
    let c1 = first_char(s, lo, dot, ':');
    let c2 = first_char(s, c1 + 1, dot, ':');
    let c3 = first_char(s, c2 + 1, dot, ':');
    let minute = if c1 < dot {
        field_or_zero(s, c1 + 1, c2)
    } else {
        0
    };
    let second = if c1 < dot && c2 < dot {
        field_or_zero(s, c2 + 1, c3)
    } else {
        0
    };
    match (ms, int_field_value(s, lo, c1, false)) {
        (Some(f), Some(hour)) => if hour > 23 || minute > 59 || second > 59 {
            None
        } else {
            Some((hour, minute, second, f))
        },
        _ => None,
    }
}

fn parse_time(s: &[char], lo: usize, hi: usize) -> (r: Option<(i64, i64, i64, i64)>)
    requires
        lo <= hi <= s@.len(),
    ensures
        r matches Some((h, m, sec, ms)) ==> 0 <= h <= 23 && 0 <= m <= 59 && 0 <= sec <= 59 && 0 <= ms <= 999,
        match time_value(s@, lo as int, hi as int) {
            Some((h, m, sec, ms)) => r == Some((h as i64, m as i64, sec as i64, ms as i64)),
            None => r is None,
        },
{
    let dot = find_char(s, lo, hi, '.');
    let mut ms: i64 = 0;
    if dot < hi {
        let v = parse_int_field(s, dot + 1, hi, false)?;
        let n = hi - (dot + 1);
        if n == 1 && v <= 9 {
            ms = v * 100;
        } else if n == 2 && v <= 99 {
            ms = v * 10;
        } else if n == 3 && v <= 999 {
            ms = v;
        } else {
            return None;
        }
    }
    let c1 = find_char(s, lo, dot, ':');
    let hour = parse_int_field(s, lo, c1, false)?;
    let mut minute: i64 = 0;
    let mut second: i64 = 0;
    if c1 < dot {
        let c2 = find_char(s, c1 + 1, dot, ':');
        minute = match parse_int_field(s, c1 + 1, c2, false) {
            Some(v) => v,
            None => 0,
        };
        if c2 < dot {
            let c3 = find_char(s, c2 + 1, dot, ':');
            second = match parse_int_field(s, c2 + 1, c3, false) {
                Some(v) => v,
                None => 0,
            };
        }
    }
    if hour > 23 || minute > 59 || second > 59 {
        return None;
    }
    Some((hour, minute, second, ms))
}

/// Reads an ISO 8601 date (`YYYY[-MM[-DD]][THH:MM[:SS[.mmm]]][Z]`) as a timestamp; NaN
/// when it is not one.
/// The end of `s[lo..hi]` once trailing `Z`s are dropped.
pub open spec fn drop_trailing_z(s: Seq<char>, lo: int, hi: int) -> int
    decreases hi - lo,
{
    if hi > lo && s[hi - 1] == 'Z' {
        drop_trailing_z(s, lo, hi - 1)
    } else {
        hi
    }
}

/// The fields of the date `YYYY[-MM[-DD]][Thh:mm[:ss][.fff][Z]]` written in `s[lo..hi]`:
/// year, month (1-based), day, hours, minutes, seconds and milliseconds. The year must
/// be an integer field; a month or day that is not one counts as 1; the month must
/// lie in 1..=12 and the day in that month's length.
#[verifier::opaque]
pub open spec fn date_fields(s: Seq<char>, lo: int, hi: int) -> Option<(int, int, int, int, int, int, int)> {
    let t = first_char(s, lo, hi, 'T');
    let d1 = first_char(s, lo, t, '-');
    let d2 = first_char(s, d1 + 1, t, '-');
    let d3 = first_char(s, d2 + 1, t, '-');
    let month = if d1 < t {
        match int_field_value(s, d1 + 1, d2, false) {
            Some(v) => v,
            None => 1,
        }
    } else {
        1
    };
    let day = if d1 < t && d2 < t {
        match int_field_value(s, d2 + 1, d3, false) {
            Some(v) => v,
            None => 1,
        }
    } else {
        1
    };
    let time = if t < hi {
        time_value(s, t + 1, drop_trailing_z(s, t + 1, hi))
    } else {
        Some((0int, 0int, 0int, 0int))
    };
    if lo == hi {
        None
    } else {
        match (int_field_value(s, lo, d1, true), time) {
            (Some(year), Some((h, m, sec, ms))) => if month < 1 || month > 12 || day < 1 || day > month_length(
                year,
                month,
            ) {
                None
            } else {
                Some((year, month, day, h, m, sec, ms))
            },
            _ => None,
        }
    }
}

/// The time value of the date text `s` (white space around it ignored), when it is in
/// the range that the number type holds exactly.
pub open spec fn date_text_time(s: Seq<char>) -> Option<int> {
    let lo = crate::number::skip_spaces(s, 0);
    let hi = crate::number::drop_trailing_spaces(s, lo, s.len() as int);
    match date_fields(s, lo, hi) {
        Some((y, mo, d, h, mi, sec, ms)) => Some(timestamp_of(y, mo - 1, d, h, mi, sec, ms)),
        None => None,
    }
}

#[verifier::spinoff_prover]
#[verifier::rlimit(60)]
pub fn parse_date_text(s: &[char]) -> (r: JsNumber)
    ensures
        r.wf(),
        (forall|j: int| 0 <= j < s@.len() ==> is_js_space(#[trigger] s@[j])) ==> r is NaN,
        match date_text_time(s@) {
            Some(v) => -100000000000000000 < v < 100000000000000000 ==> r == spec_int(v),
            None => r is NaN,
        },
{
    let (lo, hi) = trim_bounds(s);
    if lo == hi {
        proof {
            reveal(date_fields);
        }
        return JsNumber::nan();
    }
    let t = find_char(s, lo, hi, 'T');
    let date_end = t;
    let d1 = find_char(s, lo, date_end, '-');
    let year = match parse_int_field(s, lo, d1, true) {
        Some(v) => v,
        None => {
            proof {
                reveal(date_fields);
            }
            return JsNumber::nan();
        },
    };
    let mut month: i64 = 1;
    let mut day: i64 = 1;
    let ghost d2s = first_char(s@, d1 + 1, t as int, '-');
    let ghost d3s = first_char(s@, d2s + 1, t as int, '-');
    if d1 < date_end {
        let d2 = find_char(s, d1 + 1, date_end, '-');
        month = match parse_int_field(s, d1 + 1, d2, false) {
            Some(v) => v,
            None => 1,
        };
        if d2 < date_end {
            let d3 = find_char(s, d2 + 1, date_end, '-');
            day = match parse_int_field(s, d2 + 1, d3, false) {
                Some(v) => v,
                None => 1,
            };
        }
    }
    let ghost spec_month = if (d1 as int) < t {
        match int_field_value(s@, d1 + 1, d2s, false) {
            Some(v) => v,
            None => 1,
        }
    } else {
        1
    };
    let ghost spec_day = if (d1 as int) < t && d2s < t {
        match int_field_value(s@, d2s + 1, d3s, false) {
            Some(v) => v,
            None => 1,
        }
    } else {
        1
    };
    assert(month == spec_month && day == spec_day);
    if month < 1 || month > 12 || day < 1 || day > days_in_month(year, month) {
        proof {
            reveal(date_fields);
        }
        return JsNumber::nan();
    }
    let (h, m, sec, ms) = if t < hi {
        let mut end = hi;
        while end > t + 1 && s[end - 1] == 'Z'
            invariant
                t + 1 <= end <= hi,
                hi <= s@.len(),
                drop_trailing_z(s@, t + 1, hi as int) == drop_trailing_z(s@, t + 1, end as int),
            decreases end,
        {
            end = end - 1;
        }
        match parse_time(s, t + 1, end) {
            Some(x) => x,
            None => {
                proof {
                    reveal(date_fields);
                }
                return JsNumber::nan();
            },
        }
    } else {
        (0, 0, 0, 0)
    };
    proof {
        assert(date_fields(s@, lo as int, hi as int) == Some(
            (year as int, month as int, day as int, h as int, m as int, sec as int, ms as int),
        )) by {
            reveal(date_fields);
        }
    }
    timestamp(year, month - 1, day, h, m, sec, ms)
}

/// A number as a stored timestamp: its integer part, NaN when it is not finite.
fn time_clip(n: JsNumber) -> (r: JsNumber)
    requires
        n.wf(),
    ensures
        r.wf(),
        !(n is Finite) ==> r is NaN,
        (n is Finite && n.is_small_int() && -TS_LIMIT <= n.int_value() <= TS_LIMIT) ==> r == n,
{
    match n {
        JsNumber::Finite { exp, mant, .. } => {
            if exp == 0 && mant <= TS_LIMIT as u64 {
                n
            } else {
                JsNumber::from_i64(n.to_integer_clamped())
            }
        },
        _ => JsNumber::nan(),
    }
}

/// The current time in milliseconds, as a number.
fn now_number() -> (r: JsNumber)
    ensures
        r.wf(),
{
    let t = crate::clock::clock_millis();
    JsNumber::from_u64(t)
}

/// The `Date` object `this` names and its timestamp, or a `TypeError`.
fn this_date(interp: &Interpreter, this: &JsValue) -> (r: Result<(usize, JsNumber), JsError>)
    ensures
        r matches Ok((id, n)) ==> *this == JsValue::Object(id) && date_value(interp, *this) == Some(n),
        r is Ok <==> date_value(interp, *this) is Some,
        r is Err ==> is_type_error(r),
{
    if let JsValue::Object(id) = this {
        if *id < interp.heap.len() {
            if let ObjectKind::DateValue(n) = interp.heap[*id].kind {
                return Ok((*id, n));
            }
        }
    }
    Err(type_error("this is not a Date"))
}

/// Stores a timestamp in `Date` object `id`.
fn store(interp: &mut Interpreter, id: usize, n: JsNumber)
    requires
        id < old(interp).heap@.len(),
    ensures
        final(interp).heap@[id as int].kind == ObjectKind::DateValue(n),
        final(interp).unchanged_but(old(interp), id as int),
        final(interp).heap@[id as int].props == old(interp).heap@[id as int].props,
        final(interp).heap@[id as int].proto == old(interp).heap@[id as int].proto,
{
    interp.heap[id].kind = ObjectKind::DateValue(n);
}

/// The field of `f` that `which` selects: 0 year, 1 month (0..=11), 2 day, 3 weekday,
/// 4 hour, 5 minute, 6 second, 7 millisecond.
pub open spec fn field_value(f: DateFields, which: int) -> int {
    if which == 0 {
        f.year as int
    } else if which == 1 {
        f.month - 1
    } else if which == 2 {
        f.day as int
    } else if which == 3 {
        f.weekday as int
    } else if which == 4 {
        f.hour as int
    } else if which == 5 {
        f.minute as int
    } else if which == 6 {
        f.second as int
    } else {
        f.ms as int
    }
}

/// What the getter for field `which` returns for a `Date` holding `n`.
pub open spec fn getter_result(n: JsNumber, which: int) -> JsNumber {
    match date_millis(n) {
        Some(t) => spec_int(field_value(fields_of(t), which)),
        None => JsNumber::NaN,
    }
}

/// A calendar field of `this`; NaN for an invalid date; `TypeError` for a non-date.
fn get_field(interp: &Interpreter, this: &JsValue, which: u8) -> (r: Result<JsValue, JsError>)
    ensures
        date_value(interp, *this) is None ==> is_type_error(r),
        date_value(interp, *this) matches Some(n) ==> (n.wf() ==> r == Ok::<JsValue, JsError>(
            JsValue::Number(getter_result(n, which as int)),
        )),
{
    let (_, n) = this_date(interp, this)?;
    if !n.check_wf() {
        return Ok(JsValue::Number(JsNumber::nan()));
    }
    match millis_of(n) {
        Some(t) => {
            let f = fields(t);
            let v = if which == 0 {
                f.year
            } else if which == 1 {
                f.month - 1
            } else if which == 2 {
                f.day
            } else if which == 3 {
                f.weekday
            } else if which == 4 {
                f.hour
            } else if which == 5 {
                f.minute
            } else if which == 6 {
                f.second
            } else {
                f.ms
            };
            Ok(JsValue::Number(JsNumber::from_i64(v)))
        },
        None => Ok(JsValue::Number(JsNumber::nan())),
    }
}

/// `d.getTime()` and `d.valueOf()`: the timestamp.
pub fn date_get_time(interp: &mut Interpreter, this: JsValue, args: Vec<JsValue>) -> (r: Result<JsValue, JsError>)
    ensures
        *final(interp) == *old(interp),
        date_value(old(interp), this) is None ==> is_type_error(r),
        date_value(old(interp), this) matches Some(n) ==> r == Ok::<JsValue, JsError>(JsValue::Number(n)),
{
    let (_, n) = this_date(interp, &this)?;
    Ok(JsValue::Number(n))
}

/// `d.getFullYear()`: the year (UTC); NaN for an invalid date.
pub fn date_get_full_year(interp: &mut Interpreter, this: JsValue, args: Vec<JsValue>) -> (r: Result<JsValue, JsError>)
    ensures
        *final(interp) == *old(interp),
        date_value(old(interp), this) is None ==> is_type_error(r),
        date_value(old(interp), this) matches Some(n) ==> (n.wf() ==> r == Ok::<JsValue, JsError>(
            JsValue::Number(getter_result(n, 0)),
        )),
{
    get_field(interp, &this, 0)
}

/// `d.getMonth()`: the month, from 0 (UTC); NaN for an invalid date.
pub fn date_get_month(interp: &mut Interpreter, this: JsValue, args: Vec<JsValue>) -> (r: Result<JsValue, JsError>)
    ensures
        *final(interp) == *old(interp),
        date_value(old(interp), this) is None ==> is_type_error(r),
        date_value(old(interp), this) matches Some(n) ==> (n.wf() ==> r == Ok::<JsValue, JsError>(
            JsValue::Number(getter_result(n, 1)),
        )),
{
    get_field(interp, &this, 1)
}

/// `d.getDate()`: the day of the month (UTC); NaN for an invalid date.
pub fn date_get_date(interp: &mut Interpreter, this: JsValue, args: Vec<JsValue>) -> (r: Result<JsValue, JsError>)
    ensures
        *final(interp) == *old(interp),
        date_value(old(interp), this) is None ==> is_type_error(r),
        date_value(old(interp), this) matches Some(n) ==> (n.wf() ==> r == Ok::<JsValue, JsError>(
            JsValue::Number(getter_result(n, 2)),
        )),
{
    get_field(interp, &this, 2)
}

/// `d.getDay()`: the weekday, 0 for Sunday (UTC); NaN for an invalid date.
pub fn date_get_day(interp: &mut Interpreter, this: JsValue, args: Vec<JsValue>) -> (r: Result<JsValue, JsError>)
    ensures
        *final(interp) == *old(interp),
        date_value(old(interp), this) is None ==> is_type_error(r),
        date_value(old(interp), this) matches Some(n) ==> (n.wf() ==> r == Ok::<JsValue, JsError>(
            JsValue::Number(getter_result(n, 3)),
        )),
{
    get_field(interp, &this, 3)
}

/// `d.getHours()`: the hour (UTC); NaN for an invalid date.
pub fn date_get_hours(interp: &mut Interpreter, this: JsValue, args: Vec<JsValue>) -> (r: Result<JsValue, JsError>)
    ensures
        *final(interp) == *old(interp),
        date_value(old(interp), this) is None ==> is_type_error(r),
        date_value(old(interp), this) matches Some(n) ==> (n.wf() ==> r == Ok::<JsValue, JsError>(
            JsValue::Number(getter_result(n, 4)),
        )),
{
    get_field(interp, &this, 4)
}

/// `d.getMinutes()`: the minute (UTC); NaN for an invalid date.
pub fn date_get_minutes(interp: &mut Interpreter, this: JsValue, args: Vec<JsValue>) -> (r: Result<JsValue, JsError>)
    ensures
        *final(interp) == *old(interp),
        date_value(old(interp), this) is None ==> is_type_error(r),
        date_value(old(interp), this) matches Some(n) ==> (n.wf() ==> r == Ok::<JsValue, JsError>(
            JsValue::Number(getter_result(n, 5)),
        )),
{
    get_field(interp, &this, 5)
}

/// `d.getSeconds()`: the second (UTC); NaN for an invalid date.
pub fn date_get_seconds(interp: &mut Interpreter, this: JsValue, args: Vec<JsValue>) -> (r: Result<JsValue, JsError>)
    ensures
        *final(interp) == *old(interp),
        date_value(old(interp), this) is None ==> is_type_error(r),
        date_value(old(interp), this) matches Some(n) ==> (n.wf() ==> r == Ok::<JsValue, JsError>(
            JsValue::Number(getter_result(n, 6)),
        )),
{
    get_field(interp, &this, 6)
}

/// `d.getMilliseconds()`: the millisecond (UTC); NaN for an invalid date.
pub fn date_get_milliseconds(interp: &mut Interpreter, this: JsValue, args: Vec<JsValue>) -> (r: Result<JsValue, JsError>)
    ensures
        *final(interp) == *old(interp),
        date_value(old(interp), this) is None ==> is_type_error(r),
        date_value(old(interp), this) matches Some(n) ==> (n.wf() ==> r == Ok::<JsValue, JsError>(
            JsValue::Number(getter_result(n, 7)),
        )),
{
    get_field(interp, &this, 7)
}

/// `d.toISOString()`: `YYYY-MM-DDTHH:MM:SS.mmmZ`; `RangeError` for an invalid date.
pub fn date_to_iso_string(interp: &mut Interpreter, this: JsValue, args: Vec<JsValue>) -> (r: Result<JsValue, JsError>)
    ensures
        *final(interp) == *old(interp),
        date_value(old(interp), this) is None ==> is_type_error(r),
        date_value(old(interp), this) matches Some(n) ==> (n.wf() ==> (r is Ok <==> date_millis(n) is Some)),
        date_value(old(interp), this) matches Some(n) ==> (n.wf() ==> (date_millis(n) is None ==> is_range_error(r))),
        r matches Ok(v) ==> v is String,
{
    let (_, n) = this_date(interp, &this)?;
    if !n.check_wf() {
        return Err(raise(ErrorKind::RangeError, "Invalid Date"));
    }
    match millis_of(n) {
        Some(t) => {
            let f = fields(t);
            let mut out: Vec<char> = Vec::new();
            push_padded(&mut out, f.year, 4);
            out.push('-');
            push_padded(&mut out, f.month, 2);
            out.push('-');
            push_padded(&mut out, f.day, 2);
            out.push('T');
            push_time(&mut out, &f);
            out.push('.');
            push_padded(&mut out, f.ms, 3);
            out.push('Z');
            Ok(JsValue::String(out))
        },
        None => Err(raise(ErrorKind::RangeError, "Invalid Date")),
    }
}

/// `d.toString()`: `Www Mmm DD YYYY HH:MM:SS GMT+0000 (UTC)`, or `Invalid Date`.
pub fn date_to_string(interp: &mut Interpreter, this: JsValue, args: Vec<JsValue>) -> (r: Result<JsValue, JsError>)
    ensures
        *final(interp) == *old(interp),
        r is Err <==> date_value(old(interp), this) is None,
        r is Err ==> is_type_error(r),
        r matches Ok(v) ==> v is String,
{
    let (_, n) = this_date(interp, &this)?;
    Ok(JsValue::String(date_display(n)))
}

/// `d.toDateString()`: `Www Mmm DD YYYY`, or `Invalid Date`.
pub fn date_to_date_string(interp: &mut Interpreter, this: JsValue, args: Vec<JsValue>) -> (r: Result<JsValue, JsError>)
    ensures
        *final(interp) == *old(interp),
        r is Err <==> date_value(old(interp), this) is None,
        r is Err ==> is_type_error(r),
        r matches Ok(v) ==> v is String,
{
    let (_, n) = this_date(interp, &this)?;
    if !n.check_wf() {
        return Ok(JsValue::String(chars_of("Invalid Date")));
    }
    match millis_of(n) {
        Some(t) => {
            let f = fields(t);
            let mut out = name_of("SunMonTueWedThuFriSat", f.weekday);
            out.push(' ');
            let m = name_of("JanFebMarAprMayJunJulAugSepOctNovDec", f.month - 1);
            crate::number::append_chars(&mut out, m.as_slice());
            out.push(' ');
            push_padded(&mut out, f.day, 2);
            out.push(' ');
            push_padded(&mut out, f.year, 4);
            Ok(JsValue::String(out))
        },
        None => Ok(JsValue::String(chars_of("Invalid Date"))),
    }
}

/// `d.toTimeString()`: `HH:MM:SS GMT+0000 (UTC)`, or `Invalid Date`.
pub fn date_to_time_string(interp: &mut Interpreter, this: JsValue, args: Vec<JsValue>) -> (r: Result<JsValue, JsError>)
    ensures
        *final(interp) == *old(interp),
        r is Err <==> date_value(old(interp), this) is None,
        r is Err ==> is_type_error(r),
        r matches Ok(v) ==> v is String,
{
    let (_, n) = this_date(interp, &this)?;
    if !n.check_wf() {
        return Ok(JsValue::String(chars_of("Invalid Date")));
    }
    match millis_of(n) {
        Some(t) => {
            let f = fields(t);
            let mut out: Vec<char> = Vec::new();
            push_time(&mut out, &f);
            crate::number::append_chars(&mut out, chars_of(" GMT+0000 (UTC)").as_slice());
            Ok(JsValue::String(out))
        },
        None => Ok(JsValue::String(chars_of("Invalid Date"))),
    }
}

/// `d.setTime(t)`: stores `t` (its integer part; NaN when not finite) and returns it.
pub fn date_set_time(interp: &mut Interpreter, this: JsValue, args: Vec<JsValue>) -> (r: Result<JsValue, JsError>)
    ensures
        final(interp).grows(old(interp)),
        r is Err <==> date_value(old(interp), this) is None,
        r is Err ==> is_type_error(r) && *final(interp) == *old(interp),
        r matches Ok(JsValue::Number(n)) ==> date_value(final(interp), this) == Some(n),
        r is Ok ==> (this matches JsValue::Object(id) ==> final(interp).unchanged_but(old(interp), id as int)),
        r is Ok ==> (args@.len() > 0 ==> (crate::builtins::helpers::plain_number(args@[0]) matches Some(x) ==> (
            (x is Finite && x.is_small_int() && -TS_LIMIT <= x.int_value() <= TS_LIMIT) ==> r == Ok::<JsValue, JsError>(JsValue::Number(x))))),
{
    let (id, _) = this_date(interp, &this)?;
    let x = if args.len() > 0 {
        interp.to_number_primitive(&args[0])
    } else {
        JsNumber::nan()
    };
    let n = time_clip(x);
    store(interp, id, n);
    Ok(JsValue::Number(n))
}

/// The calendar field that argument `k` gives: `default` when it is absent, the
/// integer part of a plain number saturated to `lo..=hi`, nothing for other values.
pub open spec fn field_spec(args: Seq<JsValue>, k: int, default: int, lo: int, hi: int) -> Option<int> {
    if k >= args.len() {
        Some(default)
    } else {
        match crate::builtins::helpers::int_arg_value(args[k]) {
            Some(n) => Some(
                if n < lo {
                    lo
                } else if n > hi {
                    hi
                } else {
                    n
                },
            ),
            None => None,
        }
    }
}

/// An argument converted as a calendar field: its integer part saturated to
/// `lo..=hi`, 0 for NaN, `default` when absent.
fn field_arg(interp: &Interpreter, args: &Vec<JsValue>, k: usize, default: i64, lo: i64, hi: i64) -> (r: i64)
    requires
        lo <= 0 <= hi,
        lo <= default <= hi,
    ensures
        lo <= r <= hi,
        k >= args@.len() ==> r == default,
        field_spec(args@, k as int, default as int, lo as int, hi as int) matches Some(v) ==> r == v,
{
    if k >= args.len() {
        return default;
    }
    let v = crate::builtins::helpers::int_arg(interp, args, k);
    if v < lo {
        lo
    } else if v > hi {
        hi
    } else {
        v
    }
}

/// The setters: arguments from position 0 replace the fields from `first` (0 year,
/// 1 month, 2 day, 3 hour, 4 minute, 5 second, 6 millisecond), at most `count` of them;
/// the new timestamp is stored and returned. An invalid date stays invalid (NaN).
fn set_fields(interp: &mut Interpreter, this: &JsValue, args: &Vec<JsValue>, first: usize, count: usize) -> (r: Result<JsValue, JsError>)
    requires
        first + count <= 7,
    ensures
        final(interp).grows(old(interp)),
        r is Err <==> date_value(old(interp), *this) is None,
        r is Err ==> is_type_error(r) && *final(interp) == *old(interp),
        r matches Ok(JsValue::Number(n)) ==> date_value(final(interp), *this) == Some(n) || *final(interp) == *old(interp),
        r is Ok ==> (*this matches JsValue::Object(id) ==> final(interp).unchanged_but(old(interp), id as int)
            || *final(interp) == *old(interp)),
        r matches Ok(v) ==> v is Number,
{
    let (id, n) = this_date(interp, this)?;
    if !n.check_wf() {
        return Ok(JsValue::Number(JsNumber::nan()));
    }
    let t = match millis_of(n) {
        Some(t) => t,
        None => {
            return Ok(JsValue::Number(JsNumber::nan()));
        },
    };
    let f = fields(t);
    let mut year = f.year;
    let mut month = f.month - 1;
    let mut day = f.day;
    let mut hour = f.hour;
    let mut minute = f.minute;
    let mut second = f.second;
    let mut ms = f.ms;
    let mut k: usize = 0;
    while k < count
        invariant
            first + count <= 7,
            -2147483648 <= year <= 2147483647,
            -2147483648 <= month <= 2147483647,
            -2147483648 <= day <= 2147483647,
            0 <= hour <= 4294967295,
            0 <= minute <= 4294967295,
            0 <= second <= 4294967295,
            0 <= ms <= 4294967295,
        decreases count - k,
    {
        if k < args.len() {
            let slot = first + k;
            if slot <= 2 {
                let v = field_arg(interp, args, k, 0, -2147483648, 2147483647);
                if slot == 0 {
                    year = v;
                } else if slot == 1 {
                    month = v;
                } else {
                    day = v;
                }
            } else {
                let v = field_arg(interp, args, k, 0, 0, 4294967295);
                if slot == 3 {
                    hour = v;
                } else if slot == 4 {
                    minute = v;
                } else if slot == 5 {
                    second = v;
                } else {
                    ms = v;
                }
            }
        }
        k = k + 1;
    }
    let ts = timestamp(year, month, day, hour, minute, second, ms);
    store(interp, id, ts);
    Ok(JsValue::Number(ts))
}

/// `d.setFullYear(year, month, day)`: replaces those fields, stores and returns the new timestamp; NaN
/// for an invalid date.
pub fn date_set_full_year(interp: &mut Interpreter, this: JsValue, args: Vec<JsValue>) -> (r: Result<JsValue, JsError>)
    ensures
        final(interp).grows(old(interp)),
        r is Err <==> date_value(old(interp), this) is None,
        r is Err ==> is_type_error(r) && *final(interp) == *old(interp),
        r matches Ok(JsValue::Number(n)) ==> date_value(final(interp), this) == Some(n) || *final(interp) == *old(interp),
        r matches Ok(v) ==> v is Number,
{
    set_fields(interp, &this, &args, 0, 3)
}

/// `d.setMonth(month, day)`: replaces those fields, stores and returns the new timestamp; NaN
/// for an invalid date.
pub fn date_set_month(interp: &mut Interpreter, this: JsValue, args: Vec<JsValue>) -> (r: Result<JsValue, JsError>)
    ensures
        final(interp).grows(old(interp)),
        r is Err <==> date_value(old(interp), this) is None,
        r is Err ==> is_type_error(r) && *final(interp) == *old(interp),
        r matches Ok(JsValue::Number(n)) ==> date_value(final(interp), this) == Some(n) || *final(interp) == *old(interp),
        r matches Ok(v) ==> v is Number,
{
    set_fields(interp, &this, &args, 1, 2)
}

/// `d.setDate(day)`: replaces those fields, stores and returns the new timestamp; NaN
/// for an invalid date.
pub fn date_set_date(interp: &mut Interpreter, this: JsValue, args: Vec<JsValue>) -> (r: Result<JsValue, JsError>)
    ensures
        final(interp).grows(old(interp)),
        r is Err <==> date_value(old(interp), this) is None,
        r is Err ==> is_type_error(r) && *final(interp) == *old(interp),
        r matches Ok(JsValue::Number(n)) ==> date_value(final(interp), this) == Some(n) || *final(interp) == *old(interp),
        r matches Ok(v) ==> v is Number,
{
    set_fields(interp, &this, &args, 2, 1)
}

/// `d.setHours(h, m, s, ms)`: replaces those fields, stores and returns the new timestamp; NaN
/// for an invalid date.
pub fn date_set_hours(interp: &mut Interpreter, this: JsValue, args: Vec<JsValue>) -> (r: Result<JsValue, JsError>)
    ensures
        final(interp).grows(old(interp)),
        r is Err <==> date_value(old(interp), this) is None,
        r is Err ==> is_type_error(r) && *final(interp) == *old(interp),
        r matches Ok(JsValue::Number(n)) ==> date_value(final(interp), this) == Some(n) || *final(interp) == *old(interp),
        r matches Ok(v) ==> v is Number,
{
    set_fields(interp, &this, &args, 3, 4)
}

/// `d.setMinutes(m, s, ms)`: replaces those fields, stores and returns the new timestamp; NaN
/// for an invalid date.
pub fn date_set_minutes(interp: &mut Interpreter, this: JsValue, args: Vec<JsValue>) -> (r: Result<JsValue, JsError>)
    ensures
        final(interp).grows(old(interp)),
        r is Err <==> date_value(old(interp), this) is None,
        r is Err ==> is_type_error(r) && *final(interp) == *old(interp),
        r matches Ok(JsValue::Number(n)) ==> date_value(final(interp), this) == Some(n) || *final(interp) == *old(interp),
        r matches Ok(v) ==> v is Number,
{
    set_fields(interp, &this, &args, 4, 3)
}

/// `d.setSeconds(s, ms)`: replaces those fields, stores and returns the new timestamp; NaN
/// for an invalid date.
pub fn date_set_seconds(interp: &mut Interpreter, this: JsValue, args: Vec<JsValue>) -> (r: Result<JsValue, JsError>)
    ensures
        final(interp).grows(old(interp)),
        r is Err <==> date_value(old(interp), this) is None,
        r is Err ==> is_type_error(r) && *final(interp) == *old(interp),
        r matches Ok(JsValue::Number(n)) ==> date_value(final(interp), this) == Some(n) || *final(interp) == *old(interp),
        r matches Ok(v) ==> v is Number,
{
    set_fields(interp, &this, &args, 5, 2)
}

/// `d.setMilliseconds(ms)`: replaces those fields, stores and returns the new timestamp; NaN
/// for an invalid date.
pub fn date_set_milliseconds(interp: &mut Interpreter, this: JsValue, args: Vec<JsValue>) -> (r: Result<JsValue, JsError>)
    ensures
        final(interp).grows(old(interp)),
        r is Err <==> date_value(old(interp), this) is None,
        r is Err ==> is_type_error(r) && *final(interp) == *old(interp),
        r matches Ok(JsValue::Number(n)) ==> date_value(final(interp), this) == Some(n) || *final(interp) == *old(interp),
        r matches Ok(v) ==> v is Number,
{
    set_fields(interp, &this, &args, 6, 1)
}

/// The timestamp of `Date.UTC`-style arguments: year, month from 0, day (1 when absent),
/// hours, minutes, seconds, milliseconds (0 when absent).
/// The time value of the calendar fields in `args` as `Date.UTC` reads them (year,
/// month from 0, day, hours, minutes, seconds, milliseconds), when each present one is
/// a plain number.
pub open spec fn utc_args_time(args: Seq<JsValue>) -> Option<int> {
    match (
        field_spec(args, 0, 0, -2147483648, 2147483647),
        field_spec(args, 1, 0, -2147483648, 2147483647),
        field_spec(args, 2, 1, -2147483648, 2147483647),
        field_spec(args, 3, 0, 0, 4294967295),
        field_spec(args, 4, 0, 0, 4294967295),
        field_spec(args, 5, 0, 0, 4294967295),
        field_spec(args, 6, 0, 0, 4294967295),
    ) {
        (Some(y), Some(mo), Some(d), Some(h), Some(mi), Some(s), Some(ms)) => Some(
            timestamp_of(y, mo, d, h, mi, s, ms),
        ),
        _ => None,
    }
}

fn timestamp_from_args(interp: &Interpreter, args: &Vec<JsValue>) -> (r: JsNumber)
    ensures
        r.wf(),
        utc_args_time(args@) matches Some(v) ==> (-100000000000000000 < v < 100000000000000000 ==> r
            == spec_int(utc_args_time(args@)->0)),
{
    let year = field_arg(interp, args, 0, 0, -2147483648, 2147483647);
    let month = field_arg(interp, args, 1, 0, -2147483648, 2147483647);
    let day = field_arg(interp, args, 2, 1, -2147483648, 2147483647);
    let hour = field_arg(interp, args, 3, 0, 0, 4294967295);
    let minute = field_arg(interp, args, 4, 0, 0, 4294967295);
    let second = field_arg(interp, args, 5, 0, 0, 4294967295);
    let ms = field_arg(interp, args, 6, 0, 0, 4294967295);
    timestamp(year, month, day, hour, minute, second, ms)
}

/// `this` is an object that `new Date` just made: ordinary, with `Date.prototype`.
pub open spec fn is_fresh_date(interp: &Interpreter, v: JsValue) -> bool {
    v matches JsValue::Object(id) && id < interp.heap@.len() && interp.heap@[id as int].kind is Ordinary
        && interp.heap@[id as int].proto == Some(interp.date_prototype)
}

/// `new Date(...)`: a date for now (no arguments), a timestamp, an ISO text, or calendar
/// fields; `Date()` without `new` gives the text of now.
pub fn date_constructor(interp: &mut Interpreter, this: JsValue, args: Vec<JsValue>) -> (r: Result<JsValue, JsError>)
    ensures
        final(interp).grows(old(interp)),
        !is_fresh_date(old(interp), this) ==> (r matches Ok(v) && v is String && *final(interp) == *old(interp)),
        is_fresh_date(old(interp), this) ==> (r == Ok::<JsValue, JsError>(this) && date_value(final(interp), this) is Some
            && (this matches JsValue::Object(id) && final(interp).unchanged_but(old(interp), id as int))),
        (is_fresh_date(old(interp), this) && args@.len() == 1) ==> (args@[0] matches JsValue::Number(x) ==> (
            (x is Finite && x.is_small_int() && -TS_LIMIT <= x.int_value() <= TS_LIMIT) ==> date_value(final(interp), this) == Some(x))),
{
    let fresh = match this {
        JsValue::Object(id) => id < interp.heap.len() && match interp.heap[id].kind {
            ObjectKind::Ordinary => interp.heap[id].proto == Some(interp.date_prototype),
            _ => false,
        },
        _ => false,
    };
    if !fresh {
        return Ok(JsValue::String(date_display(now_number())));
    }
    let id = match this {
        JsValue::Object(id) => id,
        _ => {
            return Ok(JsValue::String(date_display(now_number())));
        },
    };
    let ts = if args.len() == 0 {
        now_number()
    } else if args.len() == 1 {
        match &args[0] {
            JsValue::Number(x) => if x.check_wf() {
                time_clip(*x)
            } else {
                JsNumber::nan()
            },
            JsValue::String(t) => parse_date_text(t.as_slice()),
            _ => JsNumber::nan(),
        }
    } else {
        timestamp_from_args(interp, &args)
    };
    store(interp, id, ts);
    Ok(this)
}

/// `Date.now()`: the current time in milliseconds.
pub fn date_now(interp: &mut Interpreter, this: JsValue, args: Vec<JsValue>) -> (r: Result<JsValue, JsError>)
    ensures
        *final(interp) == *old(interp),
        r matches Ok(JsValue::Number(n)) && n.wf(),
{
    Ok(JsValue::Number(now_number()))
}

/// `Date.UTC(year, month, ...)`: the timestamp of the calendar fields.
pub fn date_utc(interp: &mut Interpreter, this: JsValue, args: Vec<JsValue>) -> (r: Result<JsValue, JsError>)
    ensures
        *final(interp) == *old(interp),
        r matches Ok(JsValue::Number(n)) && n.wf(),
        utc_args_time(args@) matches Some(v) ==> (-100000000000000000 < v < 100000000000000000 ==> r
            == Ok::<JsValue, JsError>(JsValue::Number(spec_int(utc_args_time(args@)->0)))),
{
    Ok(JsValue::Number(timestamp_from_args(interp, &args)))
}

/// `Date.parse(text)`: the timestamp of an ISO 8601 text, NaN otherwise.
/// `n` is what parsing the date text `t` gives: its time value where that is in the
/// range the number type holds exactly, NaN for a text that is no date.
pub open spec fn parsed_date(t: Seq<char>, n: JsNumber) -> bool {
    match date_text_time(t) {
        Some(v) => -100000000000000000 < v < 100000000000000000 ==> n == spec_int(v),
        None => n is NaN,
    }
}

pub fn date_parse(interp: &mut Interpreter, this: JsValue, args: Vec<JsValue>) -> (r: Result<JsValue, JsError>)
    ensures
        final(interp).spends(old(interp), r is Err) || *final(interp) == *old(interp),
        r matches Ok(v) ==> (v matches JsValue::Number(n) && n.wf()),
        args@.len() == 0 ==> (r matches Ok(JsValue::Number(n)) && n is NaN),
        (args@.len() > 0 && args@[0] is String) ==> *final(interp) == *old(interp) && (r matches Ok(
            JsValue::Number(n),
        ) && parsed_date(args@[0]->String_0@, n)),
    decreases old(interp).fuel,
{
    if args.len() == 0 {
        return Ok(JsValue::Number(JsNumber::nan()));
    }
    let s = match direct_text(&args) {
        Some(t) => t,
        None => {
            interp.step()?;
            text_arg(interp, &args, 0)?
        },
    };
    Ok(JsValue::Number(parse_date_text(s.as_slice())))
}

/// Installs the methods of `Date.prototype`.
pub fn init_date_prototype(interp: &mut Interpreter)
    ensures
        final(interp).grows(old(interp)),
        final(interp).same_state(old(interp)),
        final(interp).heap@.len() == old(interp).heap@.len() + 31,
{
    let p = interp.date_prototype;
    interp.register_method(p, "getTime", NativeId::DateGetTime, 0);
    interp.register_method(p, "getFullYear", NativeId::DateGetFullYear, 0);
    interp.register_method(p, "getMonth", NativeId::DateGetMonth, 0);
    interp.register_method(p, "getDate", NativeId::DateGetDate, 0);
    interp.register_method(p, "getDay", NativeId::DateGetDay, 0);
    interp.register_method(p, "getHours", NativeId::DateGetHours, 0);
    interp.register_method(p, "getMinutes", NativeId::DateGetMinutes, 0);
    interp.register_method(p, "getSeconds", NativeId::DateGetSeconds, 0);
    interp.register_method(p, "getMilliseconds", NativeId::DateGetMilliseconds, 0);
    interp.register_method(p, "getUTCFullYear", NativeId::DateGetFullYear, 0);
    interp.register_method(p, "getUTCMonth", NativeId::DateGetMonth, 0);
    interp.register_method(p, "getUTCDate", NativeId::DateGetDate, 0);
    interp.register_method(p, "getUTCDay", NativeId::DateGetDay, 0);
    interp.register_method(p, "getUTCHours", NativeId::DateGetHours, 0);
    interp.register_method(p, "getUTCMinutes", NativeId::DateGetMinutes, 0);
    interp.register_method(p, "getUTCSeconds", NativeId::DateGetSeconds, 0);
    interp.register_method(p, "getUTCMilliseconds", NativeId::DateGetMilliseconds, 0);
    interp.register_method(p, "setTime", NativeId::DateSetTime, 1);
    interp.register_method(p, "setFullYear", NativeId::DateSetFullYear, 3);
    interp.register_method(p, "setMonth", NativeId::DateSetMonth, 2);
    interp.register_method(p, "setDate", NativeId::DateSetDate, 1);
    interp.register_method(p, "setHours", NativeId::DateSetHours, 4);
    interp.register_method(p, "setMinutes", NativeId::DateSetMinutes, 3);
    interp.register_method(p, "setSeconds", NativeId::DateSetSeconds, 2);
    interp.register_method(p, "setMilliseconds", NativeId::DateSetMilliseconds, 1);
    interp.register_method(p, "toISOString", NativeId::DateToIsoString, 0);
    interp.register_method(p, "toJSON", NativeId::DateToIsoString, 0);
    interp.register_method(p, "valueOf", NativeId::DateGetTime, 0);
    interp.register_method(p, "toString", NativeId::DateToString, 0);
    interp.register_method(p, "toDateString", NativeId::DateToDateString, 0);
    interp.register_method(p, "toTimeString", NativeId::DateToTimeString, 0);
}
pub fn init_date(interp: &mut Interpreter)
    ensures
        final(interp).heap@.len() == old(interp).heap@.len() + 35,
        final(interp).same_registers(old(interp)),
        final(interp).grows(old(interp)),
        final(interp).fuel == old(interp).fuel,
        global_set(
            old(interp).scopes@,
            final(interp).scopes@,
            "Date"@,
            JsValue::Object((old(interp).heap@.len() + 31) as usize),
        ),
{
    init_date_prototype(interp);
    let f = interp.create_native(NativeId::DateCtor, "Date", 0);
    interp.register_method(f, "now", NativeId::DateNow, 0);
    interp.register_method(f, "UTC", NativeId::DateUtc, 7);
    interp.register_method(f, "parse", NativeId::DateParse, 1);
    let p = interp.date_prototype;
    interp.put_own(f, chars_of("prototype"), JsValue::Object(p), false);
    interp.put_own(p, chars_of("constructor"), JsValue::Object(f), false);
    interp.define_global("Date", JsValue::Object(f));
}

} // verus!
