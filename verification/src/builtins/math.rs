//! `Math`.
use crate::builtins::helpers::plain_number;
use crate::interpreter::{global_set, Interpreter};
use crate::number::{normalize, pow10, rounded_value, spec_int, JsNumber, NumOrder, RoundMode, MANT_LIMIT};
use crate::value::{JsError, JsValue, NativeId};
use vstd::prelude::*;

verus! {

/// The number argument `k`: NaN when absent, the plain conversion otherwise.
pub open spec fn num_arg_spec(args: Seq<JsValue>, k: int) -> Option<JsNumber> {
    if k >= args.len() {
        Some(JsNumber::NaN)
    } else {
        plain_number(args[k])
    }
}

/// The number argument `k`: NaN when absent.
pub fn num_arg(interp: &Interpreter, args: &Vec<JsValue>, k: usize) -> (r: JsNumber)
    ensures
        r.wf(),
        num_arg_spec(args@, k as int) matches Some(n) ==> r == n,
{
    if k >= args.len() {
        return JsNumber::NaN;
    }
    interp.to_number_primitive(&args[k])
}

/// A number result.
fn num_value(n: JsNumber) -> (r: Result<JsValue, JsError>)
    ensures
        r == Ok::<JsValue, JsError>(JsValue::Number(n)),
{
    Ok(JsValue::Number(n))
}

/// `Math.abs(x)`.
pub fn math_abs(interp: &mut Interpreter, this: JsValue, args: Vec<JsValue>) -> (r: Result<JsValue, JsError>)
    ensures
        *final(interp) == *old(interp),
        r matches Ok(JsValue::Number(y)) && y.wf() && (num_arg_spec(args@, 0) matches Some(x) ==> y == (match x {
            JsNumber::NaN => JsNumber::NaN,
            JsNumber::Infinity { .. } => JsNumber::Infinity { neg: false },
            JsNumber::Finite { mant, exp, .. } => JsNumber::Finite { neg: false, mant, exp },
        })),
{
    num_value(num_arg(interp, &args, 0).abs())
}

/// On a finite argument with a fraction, `r` is the integer that `mode` rounds it to,
/// keeping the argument's sign (so a result of zero from a negative argument is -0).
pub open spec fn rounds_to(args: Seq<JsValue>, r: Result<JsValue, JsError>, mode: RoundMode) -> bool {
    match num_arg_spec(args, 0) {
        Some(x) => (x is Finite && x->Finite_exp < 0) ==> (r matches Ok(JsValue::Number(y)) && y is Finite
            && y->Finite_exp == 0 && y->Finite_neg == x->Finite_neg && y.int_value() == rounded_value(x, mode)),
        None => true,
    }
}

/// Rounds argument 0 to an integer in `mode`.
fn round_arg(interp: &Interpreter, args: &Vec<JsValue>, mode: RoundMode) -> (r: Result<JsValue, JsError>)
    ensures
        rounds_to(args@, r, mode),
        r matches Ok(JsValue::Number(y)) && y.wf() && (y is Finite ==> y.is_integral()) && (num_arg_spec(
            args@,
            0,
        ) matches Some(x) ==> ((x.is_integral() || !(x is Finite)) ==> y == x)),
{
    num_value(num_arg(interp, args, 0).round_with(mode))
}

/// `Math.floor(x)`: the largest integer not above `x`.
pub fn math_floor(interp: &mut Interpreter, this: JsValue, args: Vec<JsValue>) -> (r: Result<JsValue, JsError>)
    ensures
        *final(interp) == *old(interp),
        rounds_to(args@, r, RoundMode::Floor),
        r matches Ok(JsValue::Number(y)) && y.wf() && (y is Finite ==> y.is_integral()) && (num_arg_spec(
            args@,
            0,
        ) matches Some(x) ==> ((x.is_integral() || !(x is Finite)) ==> y == x)),
{
    round_arg(interp, &args, RoundMode::Floor)
}

/// `Math.ceil(x)`: the smallest integer not below `x`.
pub fn math_ceil(interp: &mut Interpreter, this: JsValue, args: Vec<JsValue>) -> (r: Result<JsValue, JsError>)
    ensures
        *final(interp) == *old(interp),
        rounds_to(args@, r, RoundMode::Ceil),
        r matches Ok(JsValue::Number(y)) && y.wf() && (y is Finite ==> y.is_integral()) && (num_arg_spec(
            args@,
            0,
        ) matches Some(x) ==> ((x.is_integral() || !(x is Finite)) ==> y == x)),
{
    round_arg(interp, &args, RoundMode::Ceil)
}

/// `Math.round(x)`: the nearest integer, half-way cases away from zero.
pub fn math_round(interp: &mut Interpreter, this: JsValue, args: Vec<JsValue>) -> (r: Result<JsValue, JsError>)
    ensures
        *final(interp) == *old(interp),
        rounds_to(args@, r, RoundMode::HalfAway),
        r matches Ok(JsValue::Number(y)) && y.wf() && (y is Finite ==> y.is_integral()) && (num_arg_spec(
            args@,
            0,
        ) matches Some(x) ==> ((x.is_integral() || !(x is Finite)) ==> y == x)),
{
    round_arg(interp, &args, RoundMode::HalfAway)
}

/// `Math.trunc(x)`: `x` without its fraction.
pub fn math_trunc(interp: &mut Interpreter, this: JsValue, args: Vec<JsValue>) -> (r: Result<JsValue, JsError>)
    ensures
        *final(interp) == *old(interp),
        rounds_to(args@, r, RoundMode::Trunc),
        r matches Ok(JsValue::Number(y)) && y.wf() && (y is Finite ==> y.is_integral()) && (num_arg_spec(
            args@,
            0,
        ) matches Some(x) ==> ((x.is_integral() || !(x is Finite)) ==> y == x)),
{
    round_arg(interp, &args, RoundMode::Trunc)
}

/// The sign of a number: NaN, -1, 0 or 1.
pub open spec fn sign_of(x: JsNumber) -> JsNumber {
    match x {
        JsNumber::NaN => JsNumber::NaN,
        JsNumber::Infinity { neg } => spec_int(if neg { -1 } else { 1 }),
        JsNumber::Finite { neg, mant, .. } => if mant == 0 {
            spec_int(0)
        } else if neg {
            spec_int(-1)
        } else {
            spec_int(1)
        },
    }
}

/// `Math.sign(x)`.
pub fn math_sign(interp: &mut Interpreter, this: JsValue, args: Vec<JsValue>) -> (r: Result<JsValue, JsError>)
    ensures
        *final(interp) == *old(interp),
        r matches Ok(JsValue::Number(y)) && y.wf() && (num_arg_spec(args@, 0) matches Some(x) ==> y == sign_of(x)),
{
    let x = num_arg(interp, &args, 0);
    let y = match x {
        JsNumber::NaN => JsNumber::NaN,
        JsNumber::Infinity { neg } => if neg {
            JsNumber::from_i64(-1)
        } else {
            JsNumber::from_i64(1)
        },
        JsNumber::Finite { neg, mant, .. } => if mant == 0 {
            JsNumber::zero()
        } else if neg {
            JsNumber::from_i64(-1)
        } else {
            JsNumber::from_i64(1)
        },
    };
    num_value(y)
}

/// Shared loop of `Math.min` (`take_less`) and `Math.max`.
fn extreme(interp: &Interpreter, args: &Vec<JsValue>, take_less: bool) -> (r: JsNumber)
    ensures
        r.wf(),
        args@.len() == 0 ==> r == (JsNumber::Infinity { neg: !take_less }),
        (exists|i: int| 0 <= i < args@.len() && num_arg_spec(args@, i) == Some(JsNumber::NaN)) ==> r is NaN,
        (forall|i: int| 0 <= i < args@.len() ==> (#[trigger] num_arg_spec(args@, i) matches Some(x) && x.is_small_int()))
            ==> (args@.len() > 0 ==> r.is_small_int() && (forall|i: int| 0 <= i < args@.len() ==> (if take_less {
            r.int_value() <= (#[trigger] num_arg_spec(args@, i)).unwrap().int_value()
        } else {
            r.int_value() >= num_arg_spec(args@, i).unwrap().int_value()
        })) && (exists|i: int| 0 <= i < args@.len() && r == num_arg_spec(args@, i).unwrap())),
{
    let mut best = JsNumber::Infinity { neg: !take_less };
    let mut i: usize = 0;
    while i < args.len()
        invariant
            i <= args@.len(),
            best.wf(),
            i == 0 ==> best == (JsNumber::Infinity { neg: !take_less }),
            forall|j: int| 0 <= j < i ==> num_arg_spec(args@, j) != Some(JsNumber::NaN),
            (forall|j: int| 0 <= j < i ==> (#[trigger] num_arg_spec(args@, j) matches Some(x) && x.is_small_int())) ==> (i > 0
                ==> best.is_small_int() && (forall|j: int| 0 <= j < i ==> (if take_less {
                best.int_value() <= (#[trigger] num_arg_spec(args@, j)).unwrap().int_value()
            } else {
                best.int_value() >= num_arg_spec(args@, j).unwrap().int_value()
            })) && (exists|j: int| 0 <= j < i && best == num_arg_spec(args@, j).unwrap())),
        decreases args@.len() - i,
    {
        let n = num_arg(interp, args, i);
        if n.is_nan() {
            return JsNumber::NaN;
        }
        let better = match n.compare(&best) {
            NumOrder::Less => take_less,
            NumOrder::Greater => !take_less,
            _ => false,
        };
        if better || i == 0 {
            best = n;
        }
        i = i + 1;
    }
    best
}

/// `Math.min(...values)`: the smallest, NaN if any is NaN, +Infinity for none.
pub fn math_min(interp: &mut Interpreter, this: JsValue, args: Vec<JsValue>) -> (r: Result<JsValue, JsError>)
    ensures
        *final(interp) == *old(interp),
        r matches Ok(JsValue::Number(y)) && y.wf() && (args@.len() == 0 ==> y == (JsNumber::Infinity { neg: false }))
            && ((exists|i: int| 0 <= i < args@.len() && num_arg_spec(args@, i) == Some(JsNumber::NaN)) ==> y is NaN)
            && ((forall|i: int| 0 <= i < args@.len() ==> (#[trigger] num_arg_spec(args@, i) matches Some(x) && x.is_small_int()))
                && args@.len() > 0 ==> y.is_small_int()
                && (forall|i: int| 0 <= i < args@.len() ==> y.int_value() <= (#[trigger] num_arg_spec(args@, i)).unwrap().int_value())
                && (exists|i: int| 0 <= i < args@.len() && y == num_arg_spec(args@, i).unwrap())),
{
    num_value(extreme(interp, &args, true))
}

/// `Math.max(...values)`: the largest, NaN if any is NaN, -Infinity for none.
pub fn math_max(interp: &mut Interpreter, this: JsValue, args: Vec<JsValue>) -> (r: Result<JsValue, JsError>)
    ensures
        *final(interp) == *old(interp),
        r matches Ok(JsValue::Number(y)) && y.wf() && (args@.len() == 0 ==> y == (JsNumber::Infinity { neg: true }))
            && ((exists|i: int| 0 <= i < args@.len() && num_arg_spec(args@, i) == Some(JsNumber::NaN)) ==> y is NaN)
            && ((forall|i: int| 0 <= i < args@.len() ==> (#[trigger] num_arg_spec(args@, i) matches Some(x) && x.is_small_int()))
                && args@.len() > 0 ==> y.is_small_int()
                && (forall|i: int| 0 <= i < args@.len() ==> y.int_value() >= (#[trigger] num_arg_spec(args@, i)).unwrap().int_value())
                && (exists|i: int| 0 <= i < args@.len() && y == num_arg_spec(args@, i).unwrap())),
{
    num_value(extreme(interp, &args, false))
}

/// `Math.pow(x, y)`.
pub fn math_pow(interp: &mut Interpreter, this: JsValue, args: Vec<JsValue>) -> (r: Result<JsValue, JsError>)
    ensures
        *final(interp) == *old(interp),
        r matches Ok(JsValue::Number(y)) && y.wf(),
{
    let x = num_arg(interp, &args, 0);
    let y = num_arg(interp, &args, 1);
    num_value(x.pow(&y))
}

/// `Math.sqrt(x)`.
pub fn math_sqrt(interp: &mut Interpreter, this: JsValue, args: Vec<JsValue>) -> (r: Result<JsValue, JsError>)
    ensures
        *final(interp) == *old(interp),
        r matches Ok(JsValue::Number(y)) && y.wf() && (num_arg_spec(args@, 0) == Some(JsNumber::NaN) ==> y is NaN),
{
    num_value(num_arg(interp, &args, 0).sqrt())
}

/// log2(10) × 2^60.
pub const LOG2_10_Q60: u128 = 3829922337353294528;

/// log10(2) × 2^50.
pub const LOG10_2_Q50: u128 = 338929644074912;

/// log2(m) × 2^60 for `m >= 1`, with 60 bits of the fraction (rounded down).
fn log2_q60(m: u64) -> (r: i128)
    requires
        1 <= m < 4611686018427387904,
    ensures
        -64 * 1152921504606846976 <= r < 64 * 1152921504606846976,
{
    // y = m × 2^s with 2^62 <= y < 2^63: m / 2^(62 - s) with 62 fraction bits
    let mut y: u128 = m as u128;
    let mut s: u32 = 0;
    while y < 4611686018427387904 && s < 64
        invariant
            1 <= y < 9223372036854775808,
            s <= 64,
        decreases 64 - s,
    {
        y = y * 2;
        s = s + 1;
    }
    let mut frac: u128 = 0;
    let mut bit: u128 = 576460752303423488;
    let mut k: u32 = 0;
    while k < 60
        invariant
            k <= 60,
            y < 9223372036854775808,
            frac + 2 * bit <= 1152921504606846976,
        decreases 60 - k,
    {
        proof {
            assert(y * y < 9223372036854775808 * 9223372036854775808) by (nonlinear_arith)
                requires
                    y < 9223372036854775808,
            ;
        }
        y = y * y / 4611686018427387904;
        if y >= 9223372036854775808 {
            frac = frac + bit;
            y = y / 2;
        }
        bit = bit / 2;
        k = k + 1;
    }
    let b: i128 = 62 - (s as i128);
    b * 1152921504606846976 + frac as i128
}

/// A fixed-point value with 60 fraction bits, `±q / 2^60`, as a number.
fn from_q60(neg: bool, q: u128) -> (r: JsNumber)
    requires
        q < 2048 * 1152921504606846976,
    ensures
        r.wf(),
{
    let m = q * 10000000000000000 / 1152921504606846976;
    let exact = q * 10000000000000000 % 1152921504606846976 == 0;
    normalize(neg, m, -16, !exact)
}

/// Which logarithm `math_log` computes.
#[derive(Clone, Copy, PartialEq, Eq, Structural)]
pub enum LogBase {
    Two,
    Ten,
}

/// `log2(x)` or `log10(x)` of a finite positive number.
fn log_positive(neg: bool, mant: u64, exp: i32, base: LogBase) -> (r: JsNumber)
    requires
        !neg,
        mant >= 1,
        mant < MANT_LIMIT,
        -340 <= exp <= 292,
    ensures
        r.wf(),
{
    let l = log2_q60(mant);
    // log2(x) = log2(mant) + exp × log2(10), as a signed fixed-point value
    let t: i128 = (exp as i128) * (LOG2_10_Q60 as i128);
    let total = l + t;
    let lneg = total < 0;
    let lmag: u128 = if lneg {
        (-total) as u128
    } else {
        total as u128
    };
    match base {
        LogBase::Two => from_q60(lneg, lmag),
        LogBase::Ten => from_q60(lneg, lmag * LOG10_2_Q50 / 1125899906842624),
    }
}

/// The exponent `k` when `m == base^k`.
fn exact_power(m: u64, base: u64) -> (r: Option<u32>)
    requires
        base >= 2,
{
    let mut t = m;
    let mut k: u32 = 0;
    if t == 0 {
        return None;
    }
    while t % base == 0 && k < 64
        invariant
            t >= 1,
            base >= 2,
        decreases 64 - k,
    {
        proof {
            assert(t / base >= 1) by (nonlinear_arith)
                requires
                    t % base == 0,
                    t >= 1,
                    base >= 2,
            ;
        }
        t = t / base;
        k = k + 1;
    }
    if t == 1 {
        Some(k)
    } else {
        None
    }
}

/// The logarithm of `x` (NaN below zero, -Infinity at zero); exact for powers of the base.
fn log_of(x: JsNumber, base: LogBase) -> (r: JsNumber)
    requires
        x.wf(),
    ensures
        r.wf(),
        x is NaN ==> r is NaN,
        (x matches JsNumber::Finite { neg, mant, .. } && neg && mant != 0) ==> r is NaN,
        (x matches JsNumber::Finite { mant, .. } && mant == 0) ==> r == (JsNumber::Infinity { neg: true }),
{
    match x {
        JsNumber::NaN => JsNumber::NaN,
        JsNumber::Infinity { neg } => if neg {
            JsNumber::NaN
        } else {
            x
        },
        JsNumber::Finite { neg, mant, exp } => {
            if mant == 0 {
                return JsNumber::Infinity { neg: true };
            }
            if neg {
                return JsNumber::NaN;
            }
            match base {
                LogBase::Ten => {
                    if let Some(k) = exact_power(mant, 10) {
                        return JsNumber::from_i64(k as i64 + exp as i64);
                    }
                },
                LogBase::Two => {
                    if exp == 0 {
                        if let Some(k) = exact_power(mant, 2) {
                            return JsNumber::from_i64(k as i64);
                        }
                    }
                },
            }
            log_positive(neg, mant, exp, base)
        },
    }
}

/// `Math.log10(x)`.
pub fn math_log10(interp: &mut Interpreter, this: JsValue, args: Vec<JsValue>) -> (r: Result<JsValue, JsError>)
    ensures
        *final(interp) == *old(interp),
        r matches Ok(JsValue::Number(y)) && y.wf() && (num_arg_spec(args@, 0) == Some(JsNumber::NaN) ==> y is NaN),
{
    num_value(log_of(num_arg(interp, &args, 0), LogBase::Ten))
}

/// `Math.log2(x)`.
pub fn math_log2(interp: &mut Interpreter, this: JsValue, args: Vec<JsValue>) -> (r: Result<JsValue, JsError>)
    ensures
        *final(interp) == *old(interp),
        r matches Ok(JsValue::Number(y)) && y.wf() && (num_arg_spec(args@, 0) == Some(JsNumber::NaN) ==> y is NaN),
{
    num_value(log_of(num_arg(interp, &args, 0), LogBase::Two))
}

/// The integer cube root of `m` and whether it is exact.
fn icbrt(m: u128) -> (r: (u128, bool))
    requires
        m < 10000000000000000000000000000000000000u128,
    ensures
        r.1 == (r.0 * r.0 * r.0 == m),
        r.0 * r.0 * r.0 <= m,
{
    let mut lo: u128 = 0;
    let mut hi: u128 = 2199023255552;
    proof {
        assert(hi * hi * hi > m) by (nonlinear_arith)
            requires
                hi == 2199023255552,
                m < 10000000000000000000000000000000000000u128,
        ;
    }
    while hi - lo > 1
        invariant
            lo < hi <= 2199023255552,
            lo * lo * lo <= m,
            hi * hi * hi > m,
        decreases hi - lo,
    {
        let mid = lo + (hi - lo) / 2;
        proof {
            assert(mid * mid <= 2199023255552 * 2199023255552) by (nonlinear_arith)
                requires
                    mid <= 2199023255552,
            ;
            assert(mid * mid * mid <= 2199023255552 * 2199023255552 * 2199023255552) by (nonlinear_arith)
                requires
                    mid <= 2199023255552,
            ;
        }
        if mid * mid * mid <= m {
            lo = mid;
        } else {
            hi = mid;
        }
    }
    proof {
        assert(lo * lo <= 2199023255552 * 2199023255552) by (nonlinear_arith)
            requires
                lo <= 2199023255552,
        ;
        assert(lo * lo * lo <= 2199023255552 * 2199023255552 * 2199023255552) by (nonlinear_arith)
            requires
                lo <= 2199023255552,
        ;
    }
    (lo, lo * lo * lo == m)
}

/// The cube root of a number.
fn cbrt_of(x: JsNumber) -> (r: JsNumber)
    requires
        x.wf(),
    ensures
        r.wf(),
        !(x is Finite) ==> r == x,
{
    match x {
        JsNumber::Finite { neg, mant, exp } => {
            if mant == 0 {
                return x;
            }
            // scale the mantissa by 10^k (k in 18..=20) so that the exponent is a multiple of 3
            let e = exp as i64;
            let r3 = ((e % 3) + 3) % 3;
            let k: i64 = if r3 == 0 {
                18
            } else if r3 == 1 {
                19
            } else {
                20
            };
            let p: u128 = if k == 18 {
                1000000000000000000
            } else if k == 19 {
                10000000000000000000
            } else {
                100000000000000000000
            };
            proof {
                assert((mant as u128) * p < 10000000000000000000000000000000000000u128) by (nonlinear_arith)
                    requires
                        mant < 100000000000000000,
                        p <= 100000000000000000000u128,
                ;
            }
            let m = (mant as u128) * p;
            let (root, exact) = icbrt(m);
            normalize(neg, root, (e - k) / 3, !exact)
        },
        _ => x,
    }
}

/// `Math.cbrt(x)`.
pub fn math_cbrt(interp: &mut Interpreter, this: JsValue, args: Vec<JsValue>) -> (r: Result<JsValue, JsError>)
    ensures
        *final(interp) == *old(interp),
        r matches Ok(JsValue::Number(y)) && y.wf() && (num_arg_spec(args@, 0) == Some(JsNumber::NaN) ==> y is NaN),
{
    num_value(cbrt_of(num_arg(interp, &args, 0)))
}

/// `Math.hypot(...values)`: the square root of the sum of squares (0 for none).
pub fn math_hypot(interp: &mut Interpreter, this: JsValue, args: Vec<JsValue>) -> (r: Result<JsValue, JsError>)
    ensures
        *final(interp) == *old(interp),
        r matches Ok(JsValue::Number(y)) && y.wf() && (args@.len() == 0 ==> y == spec_int(0)),
{
    if args.len() == 0 {
        return num_value(JsNumber::zero());
    }
    let mut sum = JsNumber::zero();
    let mut i: usize = 0;
    while i < args.len()
        invariant
            i <= args@.len(),
            sum.wf(),
        decreases args@.len() - i,
    {
        let n = num_arg(interp, &args, i);
        let sq = n.mul(&n);
        sum = sum.add(&sq);
        i = i + 1;
    }
    num_value(sum.sqrt())
}

/// The random number `Math.random` derives from a nanosecond count: `nanos / 10^9`.
pub fn random_from_nanos(nanos: u32) -> (r: JsNumber)
    requires
        nanos < 1000000000,
    ensures
        r.wf(),
        r matches JsNumber::Finite { neg, mant, exp } && !neg && -9 <= exp <= 0 && mant * pow10((exp
            + 9) as nat) == nanos,
{
    if nanos == 0 {
        return JsNumber::zero();
    }
    let mut m: u64 = nanos as u64;
    let mut e: i32 = -9;
    proof {
        assert(pow10(0) == 1);
        assert(m * pow10(0) == nanos);
    }
    while m % 10 == 0 && e < 0
        invariant
            1 <= m <= nanos,
            -9 <= e <= 0,
            m * pow10((e + 9) as nat) == nanos,
        decreases m,
    {
        proof {
            assert(pow10((e + 10) as nat) == 10 * pow10((e + 9) as nat));
            assert((m / 10) * pow10((e + 10) as nat) == m * pow10((e + 9) as nat)) by (nonlinear_arith)
                requires
                    m % 10 == 0,
                    pow10((e + 10) as nat) == 10 * pow10((e + 9) as nat),
            ;
            assert(m / 10 >= 1) by (nonlinear_arith)
                requires
                    m % 10 == 0,
                    m >= 1,
            ;
        }
        m = m / 10;
        e = e + 1;
    }
    JsNumber::Finite { neg: false, mant: m, exp: e }
}

/// `Math.random()`: a number in `[0, 1)` taken from the sub-second part of the clock.
/// `y` is a number in [0, 1): non-negative, with `mant × 10^exp` below one (the exponent
/// is at least -9, so the value is `mant × 10^(exp + 9)` billionths).
pub open spec fn in_unit_interval(y: JsNumber) -> bool {
    y matches JsNumber::Finite { neg, mant, exp } && !neg && -9 <= exp <= 0 && mant * pow10((exp + 9) as nat)
        < 1000000000
}

pub fn math_random(interp: &mut Interpreter, this: JsValue, args: Vec<JsValue>) -> (r: Result<JsValue, JsError>)
    ensures
        *final(interp) == *old(interp),
        r matches Ok(JsValue::Number(y)) && y.wf() && y is Finite,
        r matches Ok(JsValue::Number(y)) && in_unit_interval(y),
{
    let n = crate::clock::clock_subsec_nanos();
    num_value(random_from_nanos(n))
}

/// Installs `Math` with its constants and functions.
pub fn init_math(interp: &mut Interpreter)
    ensures
        final(interp).same_registers(old(interp)),
        final(interp).grows(old(interp)),
        final(interp).fuel == old(interp).fuel,
        global_set(
            old(interp).scopes@,
            final(interp).scopes@,
            "Math"@,
            JsValue::Object(old(interp).heap@.len() as usize),
        ),
{
    let m = interp.create_object();
    interp.put_own(m, crate::number::chars_of("PI"), JsValue::Number(JsNumber::Finite { neg: false, mant: 3141592653589793, exp: -15 }), false);
    interp.put_own(m, crate::number::chars_of("E"), JsValue::Number(JsNumber::Finite { neg: false, mant: 2718281828459045, exp: -15 }), false);
    interp.put_own(m, crate::number::chars_of("LN2"), JsValue::Number(JsNumber::Finite { neg: false, mant: 6931471805599453, exp: -16 }), false);
    interp.put_own(m, crate::number::chars_of("LN10"), JsValue::Number(JsNumber::Finite { neg: false, mant: 2302585092994046, exp: -15 }), false);
    interp.put_own(m, crate::number::chars_of("LOG2E"), JsValue::Number(JsNumber::Finite { neg: false, mant: 14426950408889634, exp: -16 }), false);
    interp.put_own(m, crate::number::chars_of("LOG10E"), JsValue::Number(JsNumber::Finite { neg: false, mant: 4342944819032518, exp: -16 }), false);
    interp.put_own(m, crate::number::chars_of("SQRT2"), JsValue::Number(JsNumber::Finite { neg: false, mant: 14142135623730951, exp: -16 }), false);
    interp.put_own(m, crate::number::chars_of("SQRT1_2"), JsValue::Number(JsNumber::Finite { neg: false, mant: 7071067811865476, exp: -16 }), false);
    interp.register_method(m, "abs", NativeId::MathAbs, 1);
    interp.register_method(m, "floor", NativeId::MathFloor, 1);
    interp.register_method(m, "ceil", NativeId::MathCeil, 1);
    interp.register_method(m, "round", NativeId::MathRound, 1);
    interp.register_method(m, "trunc", NativeId::MathTrunc, 1);
    interp.register_method(m, "sign", NativeId::MathSign, 1);
    interp.register_method(m, "min", NativeId::MathMin, 2);
    interp.register_method(m, "max", NativeId::MathMax, 2);
    interp.register_method(m, "pow", NativeId::MathPow, 2);
    interp.register_method(m, "sqrt", NativeId::MathSqrt, 1);
    interp.register_method(m, "cbrt", NativeId::MathCbrt, 1);
    interp.register_method(m, "hypot", NativeId::MathHypot, 2);
    interp.register_method(m, "log10", NativeId::MathLog10, 1);
    interp.register_method(m, "log2", NativeId::MathLog2, 1);
    interp.register_method(m, "random", NativeId::MathRandom, 0);
    interp.define_global("Math", JsValue::Object(m));
}

} // verus!
