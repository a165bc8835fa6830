//! The number type of the runtime.
//!
//! A number is NaN, an infinity, or a finite decimal `±mant × 10^exp` with at
//! most seventeen significant digits. Values are kept in a canonical form:
//! every integer whose magnitude is below 10^17 has `exp == 0`, fractional
//! values have no trailing zero digit in `mant`, and larger integers strip their
//! trailing zeros into `exp`. Results that need more digits are rounded to
//! seventeen significant digits (half to even).
use vstd::prelude::*;

verus! {

/// 10^17: every finite mantissa is below this bound.
pub const MANT_LIMIT: u64 = 100000000000000000;

/// Largest decimal exponent kept; bigger values become infinite.
pub const EXP_MAX: i64 = 292;

/// Smallest decimal exponent kept; smaller values become zero.
pub const EXP_MIN: i64 = -340;

/// The outcome of comparing two numbers.
#[derive(Clone, Copy, Debug, PartialEq, Eq, Structural)]
pub enum NumOrder {
    Less,
    Equal,
    Greater,
    Unordered,
}

/// A runtime number.
#[derive(Clone, Copy, Debug, PartialEq, Eq, Structural)]
pub enum JsNumber {
    NaN,
    Infinity { neg: bool },
    Finite { neg: bool, mant: u64, exp: i32 },
}

/// An integer `i` as a number (exact while `|i| < 10^17`).
pub open spec fn spec_int(i: int) -> JsNumber {
    if i < 0 {
        JsNumber::Finite { neg: true, mant: (-i) as u64, exp: 0 }
    } else {
        JsNumber::Finite { neg: false, mant: i as u64, exp: 0 }
    }
}

/// The quotient `x / y` where an operand is infinite or zero: infinity over infinity
/// and zero over zero are NaN; infinity over a finite number and a nonzero number over
/// zero are infinite; zero over a nonzero number and a finite number over infinity are
/// zero; the sign is the product of the signs. Nothing for other operands.
pub open spec fn div_special(x: JsNumber, y: JsNumber) -> Option<JsNumber> {
    match (x, y) {
        (JsNumber::Infinity { .. }, JsNumber::Infinity { .. }) => Some(JsNumber::NaN),
        (JsNumber::Infinity { neg: a }, JsNumber::Finite { neg: b, .. }) => Some(JsNumber::Infinity { neg: a != b }),
        (JsNumber::Finite { neg: a, .. }, JsNumber::Infinity { neg: b }) => Some(
            JsNumber::Finite { neg: a != b, mant: 0, exp: 0 },
        ),
        (JsNumber::Finite { neg: a, mant: ma, .. }, JsNumber::Finite { neg: b, mant: mb, .. }) => if mb == 0 {
            if ma == 0 {
                Some(JsNumber::NaN)
            } else {
                Some(JsNumber::Infinity { neg: a != b })
            }
        } else if ma == 0 {
            Some(JsNumber::Finite { neg: a != b, mant: 0, exp: 0 })
        } else {
            None
        },
        _ => None,
    }
}

impl JsNumber {
    /// Canonical-form bounds that every constructed number satisfies.
    pub open spec fn wf(self) -> bool {
        match self {
            JsNumber::Finite { neg, mant, exp } => {
                &&& mant < MANT_LIMIT
                &&& EXP_MIN <= exp <= EXP_MAX
                &&& (mant == 0 ==> exp == 0)
            },
            _ => true,
        }
    }

    /// The number is an integer below 10^17 in magnitude (kept with `exp == 0`).
    pub open spec fn is_small_int(self) -> bool {
        self matches JsNumber::Finite { exp, .. } && exp == 0
    }

    /// The integer value of a small integer.
    pub open spec fn int_value(self) -> int {
        match self {
            JsNumber::Finite { neg, mant, .. } => if neg { -(mant as int) } else { mant as int },
            _ => 0,
        }
    }

    /// Finite numbers kept with a non-negative exponent are integers.
    pub open spec fn is_integral(self) -> bool {
        self matches JsNumber::Finite { exp, .. } && exp >= 0
    }

    pub open spec fn is_zero_spec(self) -> bool {
        self matches JsNumber::Finite { mant, .. } && mant == 0
    }

    /// Exec check of `wf`.
    pub fn check_wf(&self) -> (b: bool)
        ensures
            b == self.wf(),
    {
        match *self {
            JsNumber::Finite { mant, exp, .. } => mant < MANT_LIMIT && EXP_MIN <= exp as i64
                && exp as i64 <= EXP_MAX && (mant != 0 || exp == 0),
            _ => true,
        }
    }

    pub fn nan() -> (r: JsNumber)
        ensures
            r is NaN,
    {
        JsNumber::NaN
    }

    pub fn infinity(neg: bool) -> (r: JsNumber)
        ensures
            r == (JsNumber::Infinity { neg }),
    {
        JsNumber::Infinity { neg }
    }

    pub fn zero() -> (r: JsNumber)
        ensures
            r.wf(),
            r.is_small_int(),
            r.int_value() == 0,
            r == spec_int(0),
    {
        JsNumber::Finite { neg: false, mant: 0, exp: 0 }
    }

    /// A non-negative integer.
    pub fn from_u64(v: u64) -> (r: JsNumber)
        ensures
            r.wf(),
            v < MANT_LIMIT ==> r == spec_int(v as int),
    {
        if v < MANT_LIMIT {
            JsNumber::Finite { neg: false, mant: v, exp: 0 }
        } else {
            normalize(false, v as u128, 0, false)
        }
    }

    /// A length or index.
    pub fn from_usize(v: usize) -> (r: JsNumber)
        ensures
            r.wf(),
            v < MANT_LIMIT ==> r == spec_int(v as int),
    {
        JsNumber::from_u64(v as u64)
    }

    /// A signed integer.
    pub fn from_i64(v: i64) -> (r: JsNumber)
        ensures
            r.wf(),
            -(MANT_LIMIT as int) < v < MANT_LIMIT ==> r == spec_int(v as int),
    {
        if v < 0 {
            let m: u64 = if v == i64::MIN {
                9223372036854775808u64
            } else {
                (-v) as u64
            };
            if m < MANT_LIMIT {
                JsNumber::Finite { neg: true, mant: m, exp: 0 }
            } else {
                normalize(true, m as u128, 0, false)
            }
        } else {
            JsNumber::from_u64(v as u64)
        }
    }

    pub fn is_nan(&self) -> (b: bool)
        ensures
            b == (*self is NaN),
    {
        match self {
            JsNumber::NaN => true,
            _ => false,
        }
    }

    pub fn is_finite(&self) -> (b: bool)
        ensures
            b == (*self is Finite),
    {
        match self {
            JsNumber::Finite { .. } => true,
            _ => false,
        }
    }

    pub fn is_zero(&self) -> (b: bool)
        ensures
            b == self.is_zero_spec(),
    {
        match self {
            JsNumber::Finite { mant, .. } => *mant == 0,
            _ => false,
        }
    }

    /// The number is a finite integer.
    pub fn is_integer(&self) -> (b: bool)
        requires
            self.wf(),
        ensures
            b == (*self is Finite && (self.is_integral() || self.is_zero_spec())),
    {
        match self {
            JsNumber::Finite { mant, exp, .. } => *exp >= 0 || *mant == 0,
            _ => false,
        }
    }

    /// The number is negative (including negative zero and negative infinity).
    pub fn is_negative(&self) -> (b: bool)
        ensures
            b == (match *self {
                JsNumber::Finite { neg, .. } => neg,
                JsNumber::Infinity { neg } => neg,
                JsNumber::NaN => false,
            }),
    {
        match self {
            JsNumber::Finite { neg, .. } => *neg,
            JsNumber::Infinity { neg } => *neg,
            JsNumber::NaN => false,
        }
    }

    /// Unary minus.
    pub fn neg(&self) -> (r: JsNumber)
        requires
            self.wf(),
        ensures
            r.wf(),
            self.is_small_int() ==> r.is_small_int() && r.int_value() == -self.int_value(),
            self is NaN ==> r is NaN,
            r == (match *self {
                JsNumber::NaN => JsNumber::NaN,
                JsNumber::Infinity { neg } => JsNumber::Infinity { neg: !neg },
                JsNumber::Finite { neg, mant, exp } => JsNumber::Finite { neg: !neg, mant, exp },
            }),
    {
        match self {
            JsNumber::NaN => JsNumber::NaN,
            JsNumber::Infinity { neg } => JsNumber::Infinity { neg: !*neg },
            JsNumber::Finite { neg, mant, exp } => JsNumber::Finite {
                neg: !*neg,
                mant: *mant,
                exp: *exp,
            },
        }
    }

    /// Absolute value.
    pub fn abs(&self) -> (r: JsNumber)
        requires
            self.wf(),
        ensures
            r.wf(),
            self.is_small_int() ==> r.is_small_int() && r.int_value() == (if self.int_value()
                < 0 {
                -self.int_value()
            } else {
                self.int_value()
            }),
            self is NaN ==> r is NaN,
            r == (match *self {
                JsNumber::NaN => JsNumber::NaN,
                JsNumber::Infinity { .. } => JsNumber::Infinity { neg: false },
                JsNumber::Finite { mant, exp, .. } => JsNumber::Finite { neg: false, mant, exp },
            }),
    {
        match self {
            JsNumber::NaN => JsNumber::NaN,
            JsNumber::Infinity { .. } => JsNumber::Infinity { neg: false },
            JsNumber::Finite { mant, exp, .. } => JsNumber::Finite {
                neg: false,
                mant: *mant,
                exp: *exp,
            },
        }
    }
}

/// 10^n for `n <= 38`.
pub fn pow10_u128(n: u32) -> (r: u128)
    requires
        n <= 38,
    ensures
        r >= 1,
        r == pow10(n as nat),
{
    let mut r: u128 = 1;
    let mut i: u32 = 0;
    while i < n
        invariant
            i <= n <= 38,
            r >= 1,
            r == pow10(i as nat),
        decreases n - i,
    {
        proof {
            lemma_pow10_bound(i as nat);
        }
        r = match r.checked_mul(10) {
            Some(v) => v,
            None => r,
        };
        i = i + 1;
    }
    r
}

/// 10^n fits in a `u128` up to n = 37 with a factor of ten to spare.
proof fn lemma_pow10_bound(n: nat)
    requires
        n < 38,
    ensures
        pow10(n) * 10 <= 100000000000000000000000000000000000000,
    decreases 38 - n,
{
    if n == 37 {
        reveal_with_fuel(pow10, 38);
        assert(pow10(37) == 10000000000000000000000000000000000000);
    } else {
        lemma_pow10_bound(n + 1);
    }
}

/// Builds the canonical number closest to `±m × 10^e`; `sticky` records that
/// nonzero digits below `m` were dropped by the caller.
pub fn normalize(neg: bool, m0: u128, e0: i64, sticky0: bool) -> (r: JsNumber)
    requires
        -1000000 <= e0 <= 1000000,
    ensures
        r.wf(),
        r is Finite || r is Infinity,
        (e0 >= 0 && r is Finite) ==> r.is_integral(),
        (e0 == 0 && m0 < MANT_LIMIT && !sticky0) ==> r == (JsNumber::Finite {
            neg,
            mant: m0 as u64,
            exp: 0,
        }),
{
    if m0 == 0 {
        return JsNumber::Finite { neg, mant: 0, exp: 0 };
    }
    if e0 == 0 && m0 < MANT_LIMIT as u128 && !sticky0 {
        return JsNumber::Finite { neg, mant: m0 as u64, exp: 0 };
    }
    let mut m: u128 = m0;
    let mut e: i64 = e0;
    let mut sticky = sticky0;
    // Keep one guard digit: bring m below 10^18.
    let mut k: u32 = 0;
    while m >= 1000000000000000000u128 && k < 40
        invariant
            k <= 40,
            -1000000 <= e0 <= 1000000,
            e == e0 + k,
            m >= 1,
        decreases 40 - k,
    {
        if m % 10 != 0 {
            sticky = true;
        }
        m = m / 10;
        e = e + 1;
        k = k + 1;
    }
    if m >= 1000000000000000000u128 {
        return JsNumber::Infinity { neg };
    }
    // Round away the guard digit.
    if m >= MANT_LIMIT as u128 {
        let d = m % 10;
        m = m / 10;
        e = e + 1;
        if d > 5 || (d == 5 && (sticky || m % 2 == 1)) {
            m = m + 1;
            if m == MANT_LIMIT as u128 {
                m = 10000000000000000u128;
                e = e + 1;
            }
        }
    }
    // Here 1 <= m < 10^17 and e stays within a small distance of e0.
    if e > 0 {
        while e > 0 && m < 10000000000000000u128
            invariant
                1 <= m < MANT_LIMIT as u128,
                0 <= e <= 1000000 + 42,
            decreases e,
        {
            m = m * 10;
            e = e - 1;
        }
        if e > 0 {
            let mut j: u32 = 0;
            while m % 10 == 0 && j < 20
                invariant
                    1 <= m < MANT_LIMIT as u128,
                    j <= 20,
                    0 <= e <= 1000000 + 42 + j,
                decreases 20 - j,
            {
                m = m / 10;
                e = e + 1;
                j = j + 1;
            }
        }
    } else if e < 0 {
        while e < 0 && m % 10 == 0
            invariant
                1 <= m < MANT_LIMIT as u128,
                -1000000 <= e <= 0,
            decreases m,
        {
            m = m / 10;
            e = e + 1;
        }
    }
    if e < EXP_MIN {
        // Underflow: drop digits until the exponent is representable.
        while e < EXP_MIN && m > 0
            invariant
                m < MANT_LIMIT as u128,
                -1000000 <= e <= EXP_MIN,
            decreases m,
        {
            let d = m % 10;
            m = m / 10;
            e = e + 1;
            if d >= 5 && e == EXP_MIN {
                m = m + 1;
            }
        }
        if m == 0 || e < EXP_MIN {
            return JsNumber::Finite { neg, mant: 0, exp: 0 };
        }
        while e < 0 && m % 10 == 0
            invariant
                1 <= m < MANT_LIMIT as u128,
                EXP_MIN <= e <= 0,
            decreases m,
        {
            m = m / 10;
            e = e + 1;
        }
    }
    if e > EXP_MAX {
        return JsNumber::Infinity { neg };
    }
    if m == 0 {
        return JsNumber::Finite { neg, mant: 0, exp: 0 };
    }
    JsNumber::Finite { neg, mant: m as u64, exp: e as i32 }
}


/// The character for digit `d` (`0-9`, then `a-z`).
pub open spec fn digit_char_spec(d: nat) -> char {
    if d < 10 {
        (48 + d) as char
    } else {
        (87 + d) as char
    }
}

/// Decimal digits of a natural number.
pub open spec fn dec_digits(n: nat) -> Seq<char>
    decreases n,
{
    if n < 10 {
        seq![digit_char_spec(n)]
    } else {
        dec_digits(n / 10).push(digit_char_spec(n % 10))
    }
}

/// Different natural numbers have different decimal texts.
pub proof fn lemma_dec_digits_injective(a: nat, b: nat)
    requires
        dec_digits(a) == dec_digits(b),
    ensures
        a == b,
    decreases a,
{
    if a < 10 && b < 10 {
        assert(dec_digits(a)[0] == digit_char_spec(a));
        assert(dec_digits(b)[0] == digit_char_spec(b));
        assert((48 + a) as char == (48 + b) as char);
        assert(((48 + a) as char) as int == 48 + a);
        assert(((48 + b) as char) as int == 48 + b);
    } else if a < 10 {
        lemma_dec_digits_nonempty(b / 10);
        assert(dec_digits(b).len() == dec_digits(b / 10).len() + 1);
    } else if b < 10 {
        lemma_dec_digits_nonempty(a / 10);
        assert(dec_digits(a).len() == dec_digits(a / 10).len() + 1);
    } else {
        assert(dec_digits(a).drop_last() == dec_digits(a / 10));
        assert(dec_digits(b).drop_last() == dec_digits(b / 10));
        lemma_dec_digits_injective(a / 10, b / 10);
        let da = (a % 10) as nat;
        let db = (b % 10) as nat;
        assert(dec_digits(a).last() == digit_char_spec(da));
        assert(dec_digits(b).last() == digit_char_spec(db));
        assert(((48 + da) as char) as int == 48 + da);
        assert(((48 + db) as char) as int == 48 + db);
    }
}

/// Every natural number has at least one decimal digit.
pub proof fn lemma_dec_digits_nonempty(n: nat)
    ensures
        dec_digits(n).len() >= 1,
{
}

/// Digit counts near 10^10: a number below 10^10 has at most ten decimal digits,
/// and one up to 10^10 at most eleven.
pub proof fn lemma_dec_digits_len(n: nat)
    requires
        n <= 10000000000,
    ensures
        dec_digits(n).len() <= 11,
        n < 10000000000 ==> dec_digits(n).len() <= 10,
{
    assert(pow10(10) == 10000000000 && pow10(11) == 100000000000) by {
        reveal_with_fuel(pow10, 12);
    }
    lemma_dec_digits_len_below(n, 11);
    if n < 10000000000 {
        lemma_dec_digits_len_below(n, 10);
    }
}

/// A natural number below 10^k has at most k decimal digits (k at least one).
pub proof fn lemma_dec_digits_len_below(n: nat, k: nat)
    requires
        1 <= k,
        n < pow10(k),
    ensures
        dec_digits(n).len() <= k,
    decreases k,
{
    if n >= 10 {
        assert(k > 1) by {
            if k == 1 {
                reveal_with_fuel(pow10, 2);
            }
        }
        assert(n / 10 < pow10((k - 1) as nat));
        lemma_dec_digits_len_below(n / 10, (k - 1) as nat);
    }
}

/// Decimal text of an integer.
pub open spec fn int_to_dec(i: int) -> Seq<char> {
    if i < 0 {
        seq!['-'] + dec_digits((-i) as nat)
    } else {
        dec_digits(i as nat)
    }
}

pub fn digit_char(d: u64) -> (c: char)
    requires
        d < 36,
    ensures
        c == digit_char_spec(d as nat),
{
    if d < 10 {
        ((48 + d) as u8) as char
    } else {
        ((87 + d) as u8) as char
    }
}

/// Decimal digits of `n`.
pub fn u64_to_dec(n: u64) -> (r: Vec<char>)
    ensures
        r@ == dec_digits(n as nat),
    decreases n,
{
    if n < 10 {
        let mut v = Vec::new();
        v.push(digit_char(n));
        v
    } else {
        let mut v = u64_to_dec(n / 10);
        v.push(digit_char(n % 10));
        v
    }
}

/// Appends `src` to `dst`.
pub fn append_chars(dst: &mut Vec<char>, src: &[char])
    ensures
        final(dst)@ == old(dst)@ + src@,
{
    let mut i: usize = 0;
    while i < src.len()
        invariant
            i <= src.len(),
            dst@ == old(dst)@ + src@.subrange(0, i as int),
        decreases src.len() - i,
    {
        dst.push(src[i]);
        i = i + 1;
        assert(src@.subrange(0, i as int) == src@.subrange(0, (i - 1) as int).push(src@[i - 1]));
    }
    assert(src@.subrange(0, src@.len() as int) == src@);
}

/// Appends `count` copies of `c`.
pub fn push_repeat(dst: &mut Vec<char>, c: char, count: usize)
    ensures
        final(dst)@.len() == old(dst)@.len() + count,
        final(dst)@.subrange(0, old(dst)@.len() as int) == old(dst)@,
        forall|i: int| old(dst)@.len() <= i < final(dst)@.len() ==> final(dst)@[i] == c,
{
    let mut i: usize = 0;
    while i < count
        invariant
            i <= count,
            dst@.len() == old(dst)@.len() + i,
            dst@.subrange(0, old(dst)@.len() as int) == old(dst)@,
            forall|j: int| old(dst)@.len() <= j < dst@.len() ==> dst@[j] == c,
        decreases count - i,
    {
        dst.push(c);
        i = i + 1;
    }
}

/// Number of decimal digits of `m` (at least one).
pub fn digit_count(m: u64) -> (r: u32)
    ensures
        1 <= r <= 20,
{
    let mut x = m;
    let mut n: u32 = 1;
    while x >= 10 && n < 20
        invariant
            1 <= n <= 20,
        decreases x,
    {
        x = x / 10;
        n = n + 1;
    }
    n
}

/// JavaScript `%` on integers: the sign follows the dividend.
pub open spec fn int_rem(a: int, b: int) -> int {
    let m = if b < 0 { -b } else { b };
    if a < 0 {
        -((-a) % m)
    } else {
        a % m
    }
}

/// Divides `m` by 10^d, reporting whether a nonzero remainder was dropped.
fn shift_down(m: u128, d: u64) -> (r: (u128, bool))
    ensures
        d == 0 ==> r.0 == m && !r.1,
        r.0 <= m,
{
    if d == 0 {
        return (m, false);
    }
    let mut x = m;
    let mut sticky = false;
    let mut i: u64 = 0;
    while i < d && x > 0
        invariant
            x <= m,
        decreases d - i,
    {
        if x % 10 != 0 {
            sticky = true;
        }
        x = x / 10;
        i = i + 1;
    }
    (x, sticky)
}

impl JsNumber {
    /// Addition.
    pub fn add(&self, other: &JsNumber) -> (r: JsNumber)
        requires
            self.wf(),
            other.wf(),
        ensures
            r.wf(),
            (self is NaN || other is NaN) ==> r is NaN,
            (self.is_small_int() && other.is_small_int() && -(MANT_LIMIT as int) < self.int_value()
                + other.int_value() < MANT_LIMIT) ==> r.is_small_int() && r.int_value()
                == self.int_value() + other.int_value(),
    {
        match (*self, *other) {
            (JsNumber::NaN, _) => JsNumber::NaN,
            (_, JsNumber::NaN) => JsNumber::NaN,
            (JsNumber::Infinity { neg: a }, JsNumber::Infinity { neg: b }) => {
                if a == b {
                    JsNumber::Infinity { neg: a }
                } else {
                    JsNumber::NaN
                }
            },
            (JsNumber::Infinity { neg }, _) => JsNumber::Infinity { neg },
            (_, JsNumber::Infinity { neg }) => JsNumber::Infinity { neg },
            (
                JsNumber::Finite { neg: na, mant: ma, exp: ea },
                JsNumber::Finite { neg: nb, mant: mb, exp: eb },
            ) => {
                if ma == 0 && mb == 0 {
                    return JsNumber::Finite { neg: na && nb, mant: 0, exp: 0 };
                }
                if ma == 0 {
                    return *other;
                }
                if mb == 0 {
                    return *self;
                }
                let (hn, hm, he, ln, lm, le) = if ea >= eb {
                    (na, ma, ea, nb, mb, eb)
                } else {
                    (nb, mb, eb, na, ma, ea)
                };
                let d: u64 = (he as i64 - le as i64) as u64;
                let k: u64 = if d > 21 {
                    21
                } else {
                    d
                };
                let big: u128 = if k == 0 {
                    hm as u128
                } else {
                    match (hm as u128).checked_mul(pow10_u128(k as u32)) {
                        Some(v) => v,
                        None => hm as u128,
                    }
                };
                let (small, sticky) = shift_down(lm as u128, d - k);
                let t: i64 = he as i64 - k as i64;
                if hn == ln {
                    let sum = match big.checked_add(small) {
                        Some(v) => v,
                        None => big,
                    };
                    normalize(hn, sum, t, sticky)
                } else if big >= small {
                    let diff = big - small;
                    if diff == 0 && !sticky {
                        JsNumber::Finite { neg: false, mant: 0, exp: 0 }
                    } else {
                        normalize(hn, diff, t, sticky)
                    }
                } else {
                    normalize(ln, small - big, t, sticky)
                }
            },
        }
    }

    /// Subtraction.
    pub fn sub(&self, other: &JsNumber) -> (r: JsNumber)
        requires
            self.wf(),
            other.wf(),
        ensures
            r.wf(),
            (self is NaN || other is NaN) ==> r is NaN,
            (self.is_small_int() && other.is_small_int() && -(MANT_LIMIT as int) < self.int_value()
                - other.int_value() < MANT_LIMIT) ==> r.is_small_int() && r.int_value()
                == self.int_value() - other.int_value(),
    {
        let o = other.neg();
        self.add(&o)
    }

    /// Multiplication.
    pub fn mul(&self, other: &JsNumber) -> (r: JsNumber)
        requires
            self.wf(),
            other.wf(),
        ensures
            r.wf(),
            (self is NaN || other is NaN) ==> r is NaN,
            (self.is_small_int() && other.is_small_int() && -(MANT_LIMIT as int) < self.int_value()
                * other.int_value() < MANT_LIMIT) ==> r.is_small_int() && r.int_value()
                == self.int_value() * other.int_value(),
    {
        match (*self, *other) {
            (JsNumber::NaN, _) => JsNumber::NaN,
            (_, JsNumber::NaN) => JsNumber::NaN,
            (JsNumber::Infinity { neg: a }, JsNumber::Infinity { neg: b }) => JsNumber::Infinity {
                neg: a != b,
            },
            (JsNumber::Infinity { neg: a }, JsNumber::Finite { neg: b, mant, .. }) => {
                if mant == 0 {
                    JsNumber::NaN
                } else {
                    JsNumber::Infinity { neg: a != b }
                }
            },
            (JsNumber::Finite { neg: b, mant, .. }, JsNumber::Infinity { neg: a }) => {
                if mant == 0 {
                    JsNumber::NaN
                } else {
                    JsNumber::Infinity { neg: a != b }
                }
            },
            (
                JsNumber::Finite { neg: na, mant: ma, exp: ea },
                JsNumber::Finite { neg: nb, mant: mb, exp: eb },
            ) => {
                let neg = na != nb;
                if ma == 0 || mb == 0 {
                    proof {
                        assert((ma as int) * (mb as int) == 0) by (nonlinear_arith)
                            requires
                                ma == 0 || mb == 0,
                        ;
                        assert(self.int_value() * other.int_value() == 0) by (nonlinear_arith)
                            requires
                                self.int_value() == 0 || other.int_value() == 0,
                        ;
                    }
                    return JsNumber::Finite { neg, mant: 0, exp: 0 };
                }
                assert((ma as int) * (mb as int) < 10000000000000000000000000000000000) by (nonlinear_arith)
                    requires
                        ma < MANT_LIMIT,
                        mb < MANT_LIMIT,
                ;
                let m: u128 = (ma as u128) * (mb as u128);
                let e: i64 = ea as i64 + eb as i64;
                proof {
                    if self.is_small_int() && other.is_small_int() {
                        assert(self.int_value() * other.int_value() == (if neg {
                            -(m as int)
                        } else {
                            m as int
                        })) by (nonlinear_arith)
                            requires
                                self.int_value() == (if na {
                                    -(ma as int)
                                } else {
                                    ma as int
                                }),
                                other.int_value() == (if nb {
                                    -(mb as int)
                                } else {
                                    mb as int
                                }),
                                m == (ma as int) * (mb as int),
                                neg == (na != nb),
                        ;
                    }
                }
                normalize(neg, m, e, false)
            },
        }
    }

    /// Division.
    pub fn div(&self, other: &JsNumber) -> (r: JsNumber)
        requires
            self.wf(),
            other.wf(),
        ensures
            r.wf(),
            (self is NaN || other is NaN) ==> r is NaN,
            div_special(*self, *other) matches Some(z) ==> r == z,
    {
        match (*self, *other) {
            (JsNumber::NaN, _) => JsNumber::NaN,
            (_, JsNumber::NaN) => JsNumber::NaN,
            (JsNumber::Infinity { .. }, JsNumber::Infinity { .. }) => JsNumber::NaN,
            (JsNumber::Infinity { neg: a }, JsNumber::Finite { neg: b, .. }) => JsNumber::Infinity {
                neg: a != b,
            },
            (JsNumber::Finite { neg: a, .. }, JsNumber::Infinity { neg: b }) => JsNumber::Finite {
                neg: a != b,
                mant: 0,
                exp: 0,
            },
            (
                JsNumber::Finite { neg: na, mant: ma, exp: ea },
                JsNumber::Finite { neg: nb, mant: mb, exp: eb },
            ) => {
                let neg = na != nb;
                if mb == 0 {
                    if ma == 0 {
                        return JsNumber::NaN;
                    }
                    return JsNumber::Infinity { neg };
                }
                if ma == 0 {
                    return JsNumber::Finite { neg, mant: 0, exp: 0 };
                }
                let mut m: u128 = ma as u128;
                let mut k: i64 = 0;
                while m < 1000000000000000000000000000000000000u128 && k < 40
                    invariant
                        0 <= k <= 40,
                        1 <= m,
                    decreases 40 - k,
                {
                    m = m * 10;
                    k = k + 1;
                }
                let q = m / (mb as u128);
                let rem = m % (mb as u128);
                let e: i64 = ea as i64 - eb as i64 - k;
                normalize(neg, q, e, rem != 0)
            },
        }
    }

    /// Remainder with the sign of the dividend (JavaScript `%`).
    pub fn rem(&self, other: &JsNumber) -> (r: JsNumber)
        requires
            self.wf(),
            other.wf(),
        ensures
            r.wf(),
            (self is NaN || other is NaN) ==> r is NaN,
            (self.is_small_int() && other.is_small_int() && other.int_value() != 0)
                ==> r.is_small_int() && r.int_value() == int_rem(
                self.int_value(),
                other.int_value(),
            ),
    {
        match (*self, *other) {
            (JsNumber::NaN, _) => JsNumber::NaN,
            (_, JsNumber::NaN) => JsNumber::NaN,
            (JsNumber::Infinity { .. }, _) => JsNumber::NaN,
            (JsNumber::Finite { .. }, JsNumber::Infinity { .. }) => *self,
            (
                JsNumber::Finite { neg: na, mant: ma, exp: ea },
                JsNumber::Finite { neg: nb, mant: mb, exp: eb },
            ) => {
                if mb == 0 {
                    return JsNumber::NaN;
                }
                if ma == 0 {
                    proof {
                        let m: int = if other.int_value() < 0 {
                            -other.int_value()
                        } else {
                            other.int_value()
                        };
                        if other.int_value() != 0 {
                            assert(0int % m == 0) by (nonlinear_arith)
                                requires
                                    m > 0,
                            ;
                        }
                    }
                    return *self;
                }
                if ea == eb {
                    let r = ma % mb;
                    return normalize(na, r as u128, ea as i64, false);
                }
                if ea > eb {
                    // (ma * 10^d) mod mb
                    let d: u64 = (ea as i64 - eb as i64) as u64;
                    let mut p: u128 = 1 % (mb as u128);
                    let mut i: u64 = 0;
                    while i < d
                        invariant
                            p < mb as u128,
                            mb > 0,
                            mb < MANT_LIMIT,
                        decreases d - i,
                    {
                        p = (p * 10) % (mb as u128);
                        i = i + 1;
                    }
                    let base = (ma as u128) % (mb as u128);
                    assert(base * p < 10000000000000000000000000000000000) by (nonlinear_arith)
                        requires
                            base < MANT_LIMIT,
                            p < MANT_LIMIT,
                    ;
                    let r = (base * p) % (mb as u128);
                    normalize(na, r, eb as i64, false)
                } else {
                    let d: u64 = (eb as i64 - ea as i64) as u64;
                    if d > 21 {
                        return *self;
                    }
                    let bm: u128 = match (mb as u128).checked_mul(pow10_u128(d as u32)) {
                        Some(v) => v,
                        None => u128::MAX,
                    };
                    if bm == 0 {
                        return JsNumber::NaN;
                    }
                    let r = (ma as u128) % bm;
                    normalize(na, r, ea as i64, false)
                }
            },
        }
    }

    /// Numeric comparison.
    pub fn compare(&self, other: &JsNumber) -> (r: NumOrder)
        requires
            self.wf(),
            other.wf(),
        ensures
            (self is NaN || other is NaN) <==> r == NumOrder::Unordered,
            (self.is_small_int() && other.is_small_int()) ==> {
                &&& (r == NumOrder::Less <==> self.int_value() < other.int_value())
                &&& (r == NumOrder::Equal <==> self.int_value() == other.int_value())
                &&& (r == NumOrder::Greater <==> self.int_value() > other.int_value())
            },
    {
        match (*self, *other) {
            (JsNumber::NaN, _) => NumOrder::Unordered,
            (_, JsNumber::NaN) => NumOrder::Unordered,
            (JsNumber::Infinity { neg: a }, JsNumber::Infinity { neg: b }) => {
                if a == b {
                    NumOrder::Equal
                } else if a {
                    NumOrder::Less
                } else {
                    NumOrder::Greater
                }
            },
            (JsNumber::Infinity { neg }, _) => {
                if neg {
                    NumOrder::Less
                } else {
                    NumOrder::Greater
                }
            },
            (_, JsNumber::Infinity { neg }) => {
                if neg {
                    NumOrder::Greater
                } else {
                    NumOrder::Less
                }
            },
            (
                JsNumber::Finite { neg: na, mant: ma, exp: ea },
                JsNumber::Finite { neg: nb, mant: mb, exp: eb },
            ) => {
                if ma == 0 && mb == 0 {
                    return NumOrder::Equal;
                }
                if ma == 0 {
                    return if nb {
                        NumOrder::Greater
                    } else {
                        NumOrder::Less
                    };
                }
                if mb == 0 {
                    return if na {
                        NumOrder::Less
                    } else {
                        NumOrder::Greater
                    };
                }
                if na != nb {
                    return if na {
                        NumOrder::Less
                    } else {
                        NumOrder::Greater
                    };
                }
                // Same sign: compare magnitudes.
                let mag = if ea == eb {
                    if ma < mb {
                        NumOrder::Less
                    } else if ma == mb {
                        NumOrder::Equal
                    } else {
                        NumOrder::Greater
                    }
                } else {
                    compare_magnitude(ma, ea, mb, eb)
                };
                if na {
                    match mag {
                        NumOrder::Less => NumOrder::Greater,
                        NumOrder::Greater => NumOrder::Less,
                        _ => mag,
                    }
                } else {
                    mag
                }
            },
        }
    }

    /// Strict equality on numbers (`===`): NaN is unequal to itself, zeros are equal.
    pub fn equals(&self, other: &JsNumber) -> (b: bool)
        requires
            self.wf(),
            other.wf(),
        ensures
            (self is NaN || other is NaN) ==> !b,
            (self.is_small_int() && other.is_small_int()) ==> (b <==> self.int_value()
                == other.int_value()),
    {
        match self.compare(other) {
            NumOrder::Equal => true,
            _ => false,
        }
    }
}

/// Compares `ma × 10^ea` with `mb × 10^eb` for nonzero mantissas.
fn compare_magnitude(ma: u64, ea: i32, mb: u64, eb: i32) -> (r: NumOrder)
    ensures
        r != NumOrder::Unordered,
{
    let oa: i64 = digit_count(ma) as i64 + ea as i64;
    let ob: i64 = digit_count(mb) as i64 + eb as i64;
    if oa < ob {
        return NumOrder::Less;
    }
    if oa > ob {
        return NumOrder::Greater;
    }
    // Same order of magnitude: the exponents differ by fewer than 21.
    let (xa, xb): (u128, u128) = if ea >= eb {
        let d = (ea as i64 - eb as i64) as u64;
        let s = if d > 38 {
            38
        } else {
            d
        };
        (
            match (ma as u128).checked_mul(pow10_u128(s as u32)) {
                Some(v) => v,
                None => u128::MAX,
            },
            mb as u128,
        )
    } else {
        let d = (eb as i64 - ea as i64) as u64;
        let s = if d > 38 {
            38
        } else {
            d
        };
        (
            ma as u128,
            match (mb as u128).checked_mul(pow10_u128(s as u32)) {
                Some(v) => v,
                None => u128::MAX,
            },
        )
    };
    if xa < xb {
        NumOrder::Less
    } else if xa == xb {
        NumOrder::Equal
    } else {
        NumOrder::Greater
    }
}

/// How a fractional value is brought to an integer.
#[derive(Clone, Copy, Debug, PartialEq, Eq, Structural)]
pub enum RoundMode {
    Floor,
    Ceil,
    Trunc,
    /// Half-way cases go toward positive infinity.
    HalfUp,
    /// Half-way cases go away from zero.
    HalfAway,
}

/// The integer that a finite `x = v · 10^-d` (`v` its signed digits, `d > 0`) rounds to:
/// the floor, the ceiling, the integer part, or the nearest integer with half-way cases
/// going up or away from zero; each is an integer division by `10^d`.
pub open spec fn rounded_value(x: JsNumber, mode: RoundMode) -> int {
    match x {
        JsNumber::Finite { neg, mant, exp } => {
            let p = pow10((-exp) as nat) as int;
            let v = x.int_value();
            let m = mant as int;
            match mode {
                RoundMode::Floor => v / p,
                RoundMode::Ceil => -((-v) / p),
                RoundMode::Trunc => if neg {
                    -(m / p)
                } else {
                    m / p
                },
                RoundMode::HalfUp => (2 * v + p) / (2 * p),
                RoundMode::HalfAway => if neg {
                    -((2 * m + p) / (2 * p))
                } else {
                    (2 * m + p) / (2 * p)
                },
            }
        },
        _ => 0,
    }
}

/// Integer divisions of `m = ip · p + rg` (and of `-m`, `2m + p`, `p - 2m`) by `p` or `2p`.
pub proof fn lemma_round_divisions(m: int, p: int, ip: int, rg: int)
    requires
        m == ip * p + rg,
        0 <= rg < p,
    ensures
        m / p == ip,
        (-m) / p == (if rg == 0 { -ip } else { -ip - 1 }),
        (2 * m + p) / (2 * p) == (if 2 * rg < p { ip } else { ip + 1 }),
        (-2 * m + p) / (2 * p) == (if 2 * rg > p { -ip - 1 } else { -ip }),
{
    vstd::arithmetic::div_mod::lemma_fundamental_div_mod_converse(m, p, ip, rg);
    assert((-ip) * p == -(ip * p)) by (nonlinear_arith);
    assert((-ip - 1) * p == -(ip * p) - p) by (nonlinear_arith);
    assert(ip * (2 * p) == 2 * (ip * p)) by (nonlinear_arith);
    assert((ip + 1) * (2 * p) == 2 * (ip * p) + 2 * p) by (nonlinear_arith);
    assert((-ip) * (2 * p) == -2 * (ip * p)) by (nonlinear_arith);
    assert((-ip - 1) * (2 * p) == -2 * (ip * p) - 2 * p) by (nonlinear_arith);
    if rg == 0 {
        vstd::arithmetic::div_mod::lemma_fundamental_div_mod_converse(-m, p, -ip, 0);
    } else {
        vstd::arithmetic::div_mod::lemma_fundamental_div_mod_converse(-m, p, -ip - 1, p - rg);
    }
    if 2 * rg < p {
        vstd::arithmetic::div_mod::lemma_fundamental_div_mod_converse(2 * m + p, 2 * p, ip, 2 * rg + p);
    } else {
        vstd::arithmetic::div_mod::lemma_fundamental_div_mod_converse(2 * m + p, 2 * p, ip + 1, 2 * rg - p);
    }
    if 2 * rg > p {
        assert(-2 * m + p == (-ip - 1) * (2 * p) + (3 * p - 2 * rg)) by (nonlinear_arith)
            requires
                m == ip * p + rg,
        ;
        vstd::arithmetic::div_mod::lemma_fundamental_div_mod_converse(-2 * m + p, 2 * p, -ip - 1, 3 * p - 2 * rg);
    } else {
        assert(-2 * m + p == (-ip) * (2 * p) + (p - 2 * rg)) by (nonlinear_arith)
            requires
                m == ip * p + rg,
        ;
        vstd::arithmetic::div_mod::lemma_fundamental_div_mod_converse(-2 * m + p, 2 * p, -ip, p - 2 * rg);
    }
}

impl JsNumber {
    /// Rounds to an integer in the given mode; integers, NaN and infinities are returned unchanged.
    pub fn round_with(&self, mode: RoundMode) -> (r: JsNumber)
        requires
            self.wf(),
        ensures
            r.wf(),
            self.is_integral() ==> r == *self,
            !(*self is Finite) ==> r == *self,
            r is Finite ==> r.is_integral(),
            (*self is Finite && self->Finite_exp < 0) ==> (r is Finite && r->Finite_neg == self->Finite_neg
                && r->Finite_exp == 0 && r.int_value() == rounded_value(*self, mode)),
    {
        match *self {
            JsNumber::Finite { neg, mant, exp } => {
                if exp >= 0 {
                    return *self;
                }
                let d: u64 = (-(exp as i64)) as u64;
                let ghost pp: int = pow10(d as nat) as int;
                let ghost mut rg: int = 0;
                proof {
                    lemma_pow10_16();
                    assert(pow10(17) == 10 * pow10(16));
                    assert(pow10(18) == 10 * pow10(17));
                    lemma_pow10_mono(1, d as nat);
                    assert(pow10(1) == 10) by {
                        reveal_with_fuel(pow10, 2);
                    }
                }
                let (ip, frac_nonzero, half_pos): (u128, bool, u8) = if d > 30 {
                    // |x| < 10^17 × 10^-31 < 0.5
                    proof {
                        lemma_pow10_mono(18, d as nat);
                        rg = mant as int;
                        assert(mant as int == 0 * pp + rg);
                    }
                    (0, mant != 0, 0)
                } else {
                    let p = pow10_u128(d as u32);
                    proof {
                        lemma_pow10_mono(d as nat, 30);
                        assert(pow10(30) == 1000000000000000000000000000000) by {
                            reveal_with_fuel(pow10, 31);
                        }
                    }
                    let ip = (mant as u128) / p;
                    let rem = (mant as u128) % p;
                    proof {
                        vstd::arithmetic::div_mod::lemma_fundamental_div_mod(mant as int, p as int);
                        rg = rem as int;
                        assert(mant as int == ip * pp + rg) by (nonlinear_arith)
                            requires
                                mant as int == (p as int) * ((mant as int) / (p as int)) + (mant as int) % (p as int),
                                ip as int == (mant as int) / (p as int),
                                rg == (mant as int) % (p as int),
                                pp == p as int,
                        ;
                    }
                    // compare rem with p / 2: 0 below, 1 equal, 2 above
                    let twice = match rem.checked_mul(2) {
                        Some(v) => v,
                        None => u128::MAX,
                    };
                    let c: u8 = if twice < p {
                        0
                    } else if twice == p {
                        1
                    } else {
                        2
                    };
                    (ip, rem != 0, c)
                };
                proof {
                    assert(mant as int == ip * pp + rg && 0 <= rg < pp);
                    assert(frac_nonzero == (rg != 0));
                    assert(half_pos == (if 2 * rg < pp { 0u8 } else if 2 * rg == pp { 1u8 } else { 2u8 }));
                    assert(ip * 10 <= ip * pp) by (nonlinear_arith)
                        requires
                            pp >= 10,
                            ip >= 0,
                    ;
                    lemma_round_divisions(mant as int, pp, ip as int, rg);
                }
                let up = match mode {
                    RoundMode::Floor => neg && frac_nonzero,
                    RoundMode::Ceil => !neg && frac_nonzero,
                    RoundMode::Trunc => false,
                    RoundMode::HalfUp => if neg {
                        half_pos == 2
                    } else {
                        half_pos >= 1
                    },
                    RoundMode::HalfAway => half_pos >= 1,
                };
                let v: u128 = if up {
                    ip + 1
                } else {
                    ip
                };
                normalize(neg, v, 0, false)
            },
            _ => *self,
        }
    }
}

/// The characters of a string literal.
pub fn chars_of(s: &str) -> (r: Vec<char>)
    ensures
        r@ == s@,
{
    let mut v: Vec<char> = Vec::new();
    for c in it: s.chars()
        invariant
            v@ == it.seq().subrange(0, it.index() as int),
    {
        v.push(c);
    }
    v
}

/// Appends the decimal text of `e` with an explicit sign (`+` or `-`; magnitudes past
/// 10^9 are written as 10^9).
fn push_signed_exponent(out: &mut Vec<char>, e: i64)
    ensures
        final(out)@ == old(out)@ + (if e < 0 {
            seq!['-'] + dec_digits(if e < -1000000000 { 1000000000 } else { -e } as nat)
        } else {
            seq!['+'] + dec_digits(e as nat)
        }),
{
    if e < 0 {
        out.push('-');
        let m: u64 = if e < -1000000000 {
            1000000000
        } else {
            (-e) as u64
        };
        let d = u64_to_dec(m);
        append_chars(out, d.as_slice());
    } else {
        out.push('+');
        let d = u64_to_dec(e as u64);
        append_chars(out, d.as_slice());
    }
}

/// The text of `±d · 10^e` (`d` the digits of the mantissa, `e` not zero) in plain decimal
/// notation, with `n = |d| + e` digits before the point: the digits and `e` zeros when
/// `e > 0`; the point after the first `n` digits when `0 < n`; else `0.`, `-n` zeros and
/// the digits.
pub open spec fn plain_decimal_text(neg: bool, d: Seq<char>, e: int) -> Seq<char> {
    let n = d.len() + e;
    (if neg {
        seq!['-']
    } else {
        Seq::empty()
    }) + if e >= 0 {
        d + zero_chars(e as nat)
    } else if n > 0 {
        d.subrange(0, n) + seq!['.'] + d.subrange(n, d.len() as int)
    } else {
        seq!['0', '.'] + zero_chars((-n) as nat) + d
    }
}

/// An exponent `x` as text: its sign (`+` or `-`) and the digits of its magnitude.
pub open spec fn signed_exponent_text(x: int) -> Seq<char> {
    if x < 0 {
        seq!['-'] + dec_digits((-x) as nat)
    } else {
        seq!['+'] + dec_digits(x as nat)
    }
}

/// The text of `±d · 10^e` (`d` the digits of the mantissa, at least one) in exponent
/// notation: the first digit, a point and the other digits when there are any, then `e`
/// and the exponent `|d| + e - 1` of the first digit.
pub open spec fn exponent_decimal_text(neg: bool, d: Seq<char>, e: int) -> Seq<char> {
    (if neg {
        seq!['-']
    } else {
        Seq::empty()
    }) + seq![d[0]] + (if d.len() > 1 {
        seq!['.'] + d.subrange(1, d.len() as int)
    } else {
        Seq::empty()
    }) + seq!['e'] + signed_exponent_text(d.len() + e - 1)
}

/// Every character of `s` is a decimal digit.
pub open spec fn all_dec_digits(s: Seq<char>) -> bool {
    forall|j: int| 0 <= j < s.len() ==> is_dec_digit(#[trigger] s[j])
}

/// The value of two digit strings one after the other.
pub proof fn lemma_digits_value_append(a: Seq<char>, b: Seq<char>)
    ensures
        digits_value(a + b) == digits_value(a) * pow10(b.len()) + digits_value(b),
    decreases b.len(),
{
    if b.len() == 0 {
        assert(a + b =~= a);
        assert(pow10(0) == 1);
        assert(digits_value(b) == 0);
    } else {
        assert((a + b).drop_last() =~= a + b.drop_last());
        assert((a + b).last() == b.last());
        lemma_digits_value_append(a, b.drop_last());
        let x = digits_value(a);
        let y = pow10(b.drop_last().len());
        let z = digits_value(b.drop_last());
        let t = ((b.last() as u32) - 48) as nat;
        assert(digits_value(a + b) == digits_value(a + b.drop_last()) * 10 + t);
        assert(digits_value(b) == z * 10 + t);
        assert(pow10(b.len()) == 10 * y);
        assert((x * y + z) * 10 + t == x * (10 * y) + (z * 10 + t)) by (nonlinear_arith);
    }
}

/// Zeros in front of digits do not change their value.
pub proof fn lemma_leading_zeros(k: nat, d: Seq<char>)
    ensures
        digits_value(zero_chars(k) + d) == digits_value(d),
    decreases k,
{
    lemma_digits_value_append(zero_chars(k), d);
    lemma_zeros_value(k);
}

/// A string of zeros is worth zero.
pub proof fn lemma_zeros_value(k: nat)
    ensures
        digits_value(zero_chars(k)) == 0,
    decreases k,
{
    if k > 0 {
        assert(zero_chars(k).drop_last() =~= zero_chars((k - 1) as nat));
        lemma_zeros_value((k - 1) as nat);
    }
}

/// The decimal digits of `m` are digits, and read back as `m`.
pub proof fn lemma_dec_digits_value(m: nat)
    ensures
        all_dec_digits(dec_digits(m)),
        digits_value(dec_digits(m)) == m,
    decreases m,
{
    if m >= 10 {
        lemma_dec_digits_value(m / 10);
        let d = (m % 10) as nat;
        assert(dec_digits(m).drop_last() =~= dec_digits(m / 10));
        assert(dec_digits(m).last() == (48 + d) as char);
        assert(((48 + d) as char) as u32 == 48 + d);
        assert(m == (m / 10) * 10 + d);
        assert(digits_value(dec_digits(m)) == digits_value(dec_digits(m / 10)) * 10 + d);
        assert forall|j: int| 0 <= j < dec_digits(m).len() implies is_dec_digit(#[trigger] dec_digits(m)[j]) by {
            if j < dec_digits(m).len() - 1 {
                assert(dec_digits(m)[j] == dec_digits(m / 10)[j]);
            }
        }
    } else {
        assert(dec_digits(m).drop_last() =~= Seq::<char>::empty());
        assert(dec_digits(m).last() == (48 + m) as char);
        assert(((48 + m) as char) as u32 == 48 + m);
        assert(digits_value(Seq::<char>::empty()) == 0);
        assert(digits_value(dec_digits(m)) == digits_value(Seq::<char>::empty()) * 10 + m);
    }
}

/// The text of a number (`ToString`): `NaN`, `Infinity` with its sign, `0` for either
/// zero, the integer's digits, and otherwise plain decimal notation where the point falls
/// within 21 places left of the first digit and 6 right of it, exponent notation beyond.
pub open spec fn num_text(x: JsNumber) -> Seq<char> {
    match x {
        JsNumber::NaN => seq!['N', 'a', 'N'],
        JsNumber::Infinity { neg } => (if neg {
            seq!['-']
        } else {
            Seq::empty()
        }) + "Infinity"@,
        JsNumber::Finite { neg, mant, exp } => if mant == 0 {
            seq!['0']
        } else if exp == 0 {
            int_to_dec(x.int_value())
        } else if -6 < dec_digits(mant as nat).len() + exp <= 21 {
            plain_decimal_text(neg, dec_digits(mant as nat), exp as int)
        } else {
            exponent_decimal_text(neg, dec_digits(mant as nat), exp as int)
        },
    }
}

impl JsNumber {
    /// The text of the number (`ToString`).
    pub fn to_js_string(&self) -> (r: Vec<char>)
        requires
            self.wf(),
        ensures
            self.is_small_int() ==> r@ == int_to_dec(self.int_value()),
            self is NaN ==> r@ == seq!['N', 'a', 'N'],
            r@ == num_text(*self),
            (*self is Finite && self->Finite_mant > 0 && self->Finite_exp != 0 && !(-6 < dec_digits(
                self->Finite_mant as nat,
            ).len() + self->Finite_exp <= 21)) ==> r@ == exponent_decimal_text(
                self->Finite_neg,
                dec_digits(self->Finite_mant as nat),
                self->Finite_exp as int,
            ),
            (*self is Finite && self->Finite_mant > 0 && self->Finite_exp != 0 && -6 < dec_digits(
                self->Finite_mant as nat,
            ).len() + self->Finite_exp <= 21) ==> r@ == plain_decimal_text(
                self->Finite_neg,
                dec_digits(self->Finite_mant as nat),
                self->Finite_exp as int,
            ),
    {
        match *self {
            JsNumber::NaN => {
                let mut v = Vec::new();
                v.push('N');
                v.push('a');
                v.push('N');
                v
            },
            JsNumber::Infinity { neg } => {
                let mut v = Vec::new();
                if neg {
                    v.push('-');
                }
                let t = chars_of("Infinity");
                append_chars(&mut v, t.as_slice());
                proof {
                    let sg: Seq<char> = if neg { seq!['-'] } else { Seq::empty() };
                    assert(v@ =~= sg + "Infinity"@);
                }
                v
            },
            JsNumber::Finite { neg, mant, exp } => {
                if mant == 0 {
                    let mut v = Vec::new();
                    v.push('0');
                    proof {
                        assert(v@ =~= seq!['0']);
                    }
                    return v;
                }
                let digits = u64_to_dec(mant);
                proof {
                    lemma_pow10_16();
                    assert(pow10(17) == 10 * pow10(16));
                    lemma_dec_digits_len_below(mant as nat, 17);
                }
                let mut out: Vec<char> = Vec::new();
                if neg {
                    out.push('-');
                }
                let ghost sign: Seq<char> = if neg {
                    seq!['-']
                } else {
                    Seq::empty()
                };
                assert(out@ =~= sign);
                if exp == 0 {
                    append_chars(&mut out, digits.as_slice());
                    assert(neg ==> out@ == seq!['-'] + dec_digits(mant as nat));
                    return out;
                }
                let k: i64 = if digits.len() > 40 {
                    40
                } else {
                    digits.len() as i64
                };
                let n: i64 = k + exp as i64;
                let ghost d = digits@;
                if exp > 0 && n <= 21 {
                    append_chars(&mut out, digits.as_slice());
                    let ghost mid = out@;
                    push_repeat(&mut out, '0', exp as usize);
                    assert forall|j: int| 0 <= j < mid.len() implies out@[j] == mid[j] by {
                        assert(out@.subrange(0, mid.len() as int)[j] == out@[j]);
                    }
                    assert(out@ =~= mid + zero_chars(exp as nat));
                    assert(out@ =~= sign + (d + zero_chars(exp as nat)));
                } else if 0 < n && n <= 21 {
                    // digits with a decimal point after n of them
                    let mut i: usize = 0;
                    while i < digits.len() && i < 40
                        invariant
                            i <= digits.len(),
                            digits@ == d,
                            d.len() <= 17,
                            n == d.len() + exp,
                            0 < n,
                            exp < 0,
                            out@ == sign + (if i <= n {
                                d.subrange(0, i as int)
                            } else {
                                d.subrange(0, n as int) + seq!['.'] + d.subrange(n as int, i as int)
                            }),
                        decreases digits.len() - i,
                    {
                        let ghost before = out@;
                        if i as i64 == n {
                            out.push('.');
                        }
                        out.push(digits[i]);
                        i = i + 1;
                        proof {
                            if i <= n {
                                assert(out@ =~= sign + d.subrange(0, i as int));
                            } else if i - 1 == n {
                                assert(out@ =~= sign + (d.subrange(0, n as int) + seq!['.'] + d.subrange(n as int, i as int)));
                            } else {
                                assert(out@ =~= sign + (d.subrange(0, n as int) + seq!['.'] + d.subrange(n as int, i as int)));
                            }
                        }
                    }
                    assert(out@ =~= sign + (d.subrange(0, n as int) + seq!['.'] + d.subrange(n as int, d.len() as int)));
                } else if -6 < n && n <= 0 {
                    out.push('0');
                    out.push('.');
                    let ghost mid = out@;
                    push_repeat(&mut out, '0', (-n) as usize);
                    assert forall|j: int| 0 <= j < mid.len() implies out@[j] == mid[j] by {
                        assert(out@.subrange(0, mid.len() as int)[j] == out@[j]);
                    }
                    assert(out@ =~= mid + zero_chars((-n) as nat));
                    append_chars(&mut out, digits.as_slice());
                    assert(out@ =~= sign + (seq!['0', '.'] + zero_chars((-n) as nat) + d));
                } else if digits.len() > 0 {
                    out.push(digits[0]);
                    let ghost head = sign + seq![d[0]];
                    assert(out@ =~= head);
                    if digits.len() > 1 {
                        out.push('.');
                        let mut i: usize = 1;
                        while i < digits.len()
                            invariant
                                1 <= i <= digits.len(),
                                digits@ == d,
                                out@ == head + seq!['.'] + d.subrange(1, i as int),
                            decreases digits.len() - i,
                        {
                            out.push(digits[i]);
                            i = i + 1;
                            assert(out@ =~= head + seq!['.'] + d.subrange(1, i as int));
                        }
                    }
                    let ghost body = out@;
                    assert(body =~= head + (if d.len() > 1 {
                        seq!['.'] + d.subrange(1, d.len() as int)
                    } else {
                        Seq::empty()
                    }));
                    out.push('e');
                    proof {
                        assert(n - 1 >= -1000000000);
                    }
                    push_signed_exponent(&mut out, n - 1);
                    assert(out@ =~= body + seq!['e'] + signed_exponent_text(n - 1));
                }
                out
            },
        }
    }

    /// `ToIntegerOrInfinity`, clamped to ±2^53.
    pub fn to_integer_clamped(&self) -> (r: i64)
        requires
            self.wf(),
        ensures
            -9007199254740992 <= r <= 9007199254740992,
            self is NaN ==> r == 0,
            *self matches JsNumber::Infinity { neg } ==> r == (if neg { -9007199254740992 } else { 9007199254740992 }),
            (self.is_small_int() && -9007199254740992 <= self.int_value() <= 9007199254740992)
                ==> r == self.int_value(),
    {
        match *self {
            JsNumber::NaN => 0,
            JsNumber::Infinity { neg } => if neg {
                -9007199254740992
            } else {
                9007199254740992
            },
            JsNumber::Finite { neg, mant, exp } => {
                let mag: u64 = if exp == 0 {
                    mant
                } else if exp > 0 {
                    9007199254740992
                } else {
                    let t = self.round_with(RoundMode::Trunc);
                    match t {
                        JsNumber::Finite { mant: tm, exp: te, .. } => if te == 0 {
                            tm
                        } else {
                            9007199254740992
                        },
                        _ => 0,
                    }
                };
                let c: i64 = if mag > 9007199254740992 {
                    9007199254740992
                } else {
                    mag as i64
                };
                if neg {
                    -c
                } else {
                    c
                }
            },
        }
    }
}

pub open spec fn pow10(n: nat) -> nat
    decreases n,
{
    if n == 0 {
        1
    } else {
        10 * pow10((n - 1) as nat)
    }
}

pub open spec fn is_dec_digit(c: char) -> bool {
    '0' <= c && c <= '9'
}

/// The value of a string of decimal digits.
pub open spec fn digits_value(s: Seq<char>) -> nat
    decreases s.len(),
{
    if s.len() == 0 {
        0
    } else {
        digits_value(s.drop_last()) * 10 + ((s.last() as u32) - 48) as nat
    }
}

pub proof fn lemma_pow10_mono(i: nat, j: nat)
    requires
        i <= j,
    ensures
        pow10(i) <= pow10(j),
    decreases j,
{
    if i < j {
        lemma_pow10_mono(i, (j - 1) as nat);
    }
}

pub proof fn lemma_pow10_16()
    ensures
        pow10(16) == 10000000000000000,
{
    reveal_with_fuel(pow10, 17);
}

pub proof fn lemma_digits_value_bound(s: Seq<char>)
    requires
        forall|j: int| 0 <= j < s.len() ==> is_dec_digit(#[trigger] s[j]),
    ensures
        digits_value(s) < pow10(s.len()),
    decreases s.len(),
{
    if s.len() > 0 {
        let t = s.drop_last();
        assert forall|j: int| 0 <= j < t.len() implies is_dec_digit(#[trigger] t[j]) by {
            assert(t[j] == s[j]);
        }
        lemma_digits_value_bound(t);
        assert(is_dec_digit(s[s.len() - 1]));
    }
}

pub fn is_digit_char(c: char) -> (b: bool)
    ensures
        b == is_dec_digit(c),
{
    '0' <= c && c <= '9'
}

/// The value of digit `c` in `radix` (2..=36), if it is one.
pub fn digit_in_radix(c: char, radix: u32) -> (r: Option<u32>)
    ensures
        r matches Some(d) ==> d < radix,
        (radix == 10 && is_dec_digit(c)) ==> r == Some(((c as u32) - 48) as u32),
        (radix == 10 && !is_dec_digit(c)) ==> r is None,
{
    let v: u32 = c as u32;
    let d: u32 = if 48 <= v && v <= 57 {
        v - 48
    } else if 97 <= v && v <= 122 {
        v - 87
    } else if 65 <= v && v <= 90 {
        v - 55
    } else {
        return None;
    };
    if d < radix {
        Some(d)
    } else {
        None
    }
}

/// Parses an unsigned decimal literal (`digits [. digits] [e[+-]digits]`) at
/// `start`, returning the number and the position after it. At least one
/// digit must stand before or after the point.
pub fn parse_decimal_prefix(s: &[char], start: usize) -> (r: Option<(JsNumber, usize)>)
    requires
        start <= s@.len(),
    ensures
        r matches Some((n, end)) ==> n.wf() && start < end <= s@.len(),
        r matches Some((n, end)) ==> ((forall|j: int| start <= j < end ==> is_dec_digit(
            #[trigger] s@[j],
        )) && end - start <= 17 ==> n == spec_int(digits_value(
            s@.subrange(start as int, end as int),
        ) as int)),
        (start < s@.len() && forall|j: int| start <= j < s@.len() ==> is_dec_digit(#[trigger] s@[j]))
            ==> (r matches Some((n, end)) && end == s@.len()),
{
    let mut i: usize = start;
    let mut m: u128 = 0;
    let mut e: i64 = 0;
    let mut sticky = false;
    let mut any = false;
    // integer part
    while i < s.len() && is_digit_char(s[i])
        invariant
            start <= i <= s@.len(),
            forall|j: int| start <= j < i ==> is_dec_digit(#[trigger] s@[j]),
            m < 1000000000000000000,
            0 <= e <= 1000000,
            any == (i > start),
            (i - start <= 17) ==> (m == digits_value(s@.subrange(start as int, i as int)) && e
                == 0 && !sticky),
        decreases s@.len() - i,
    {
        let d: u32 = (s[i] as u32) - 48;
        proof {
            let pre = s@.subrange(start as int, i as int);
            let post = s@.subrange(start as int, i + 1);
            assert(post.drop_last() == pre);
            if i - start < 17 {
                assert forall|j: int| 0 <= j < pre.len() implies is_dec_digit(#[trigger] pre[j]) by {
                    assert(pre[j] == s@[start + j]);
                }
                lemma_digits_value_bound(pre);
                lemma_pow10_mono(pre.len(), 16);
                lemma_pow10_16();
            }
        }
        if m < 100000000000000000u128 {
            m = m * 10 + d as u128;
        } else {
            if e < 1000000 {
                e = e + 1;
            }
            if d != 0 {
                sticky = true;
            }
        }
        i = i + 1;
        any = true;
    }
    let int_end = i;
    let mut frac = false;
    assert(int_end < s@.len() ==> !is_dec_digit(s@[int_end as int]));
    if i < s.len() && s[i] == '.' {
        let mut j = i + 1;
        let mut any_frac = false;
        while j < s.len() && is_digit_char(s[j])
            invariant
                i < j <= s@.len(),
                m < 1000000000000000000,
                -2000000 <= e <= 1000000,
            decreases s@.len() - j,
        {
            let d: u32 = (s[j] as u32) - 48;
            if m < 100000000000000000u128 {
                m = m * 10 + d as u128;
                if e > -1000000 {
                    e = e - 1;
                }
            } else if d != 0 {
                sticky = true;
            }
            j = j + 1;
            any_frac = true;
        }
        if any || any_frac {
            i = j;
            frac = true;
            any = true;
        }
    }
    if !any {
        return None;
    }
    if e > 1000000 {
        e = 1000000;
    }
    // exponent part
    if i < s.len() && (s[i] == 'e' || s[i] == 'E') {
        let mut j = i + 1;
        let mut eneg = false;
        if j < s.len() && (s[j] == '+' || s[j] == '-') {
            eneg = s[j] == '-';
            j = j + 1;
        }
        let mut x: i64 = 0;
        let mut digits = false;
        while j < s.len() && is_digit_char(s[j])
            invariant
                i < j <= s@.len(),
                0 <= x <= 1000000,
            decreases s@.len() - j,
        {
            let d: i64 = ((s[j] as u32) - 48) as i64;
            if x < 100000 {
                x = x * 10 + d;
            }
            j = j + 1;
            digits = true;
        }
        if digits {
            i = j;
            if eneg {
                e = e - x;
            } else {
                e = e + x;
            }
            frac = true;
        }
    }
    if e > 1000000 {
        e = 1000000;
    }
    if e < -1000000 {
        e = -1000000;
    }
    proof {
        if frac {
            assert(i > int_end);
            assert(!is_dec_digit(s@[int_end as int]));
        } else {
            assert(i == int_end);
            if i - start <= 17 {
                let pre = s@.subrange(start as int, i as int);
                assert forall|j: int| 0 <= j < pre.len() implies is_dec_digit(#[trigger] pre[j]) by {
                    assert(pre[j] == s@[start + j]);
                }
                lemma_digits_value_bound(pre);
                lemma_pow10_mono(pre.len(), 17);
                reveal_with_fuel(pow10, 18);
            }
        }
    }
    let n = normalize(false, m, e, sticky);
    Some((n, i))
}

/// White space and line terminators that `trim` removes.
pub open spec fn is_js_space(c: char) -> bool {
    c == ' ' || c == '\t' || c == '\n' || c == '\r' || c == '\x0B' || c == '\x0C' || c
        == '\u{A0}' || c == '\u{FEFF}' || c == '\u{2028}' || c == '\u{2029}'
}

pub fn is_space_char(c: char) -> (b: bool)
    ensures
        b == is_js_space(c),
{
    c == ' ' || c == '\t' || c == '\n' || c == '\r' || c == '\x0B' || c == '\x0C' || c == '\u{A0}'
        || c == '\u{FEFF}' || c == '\u{2028}' || c == '\u{2029}'
}

/// The bounds `[lo, hi)` of `s` without leading and trailing white space.
/// The first position at or after `i` that does not hold white space.
pub open spec fn skip_spaces(s: Seq<char>, i: int) -> int
    decreases s.len() - i,
{
    if i >= s.len() {
        s.len() as int
    } else if is_js_space(s[i]) {
        skip_spaces(s, i + 1)
    } else {
        i
    }
}

/// The end of `s[lo..j]` once trailing white space is dropped.
pub open spec fn drop_trailing_spaces(s: Seq<char>, lo: int, j: int) -> int
    decreases j - lo,
{
    if j <= lo {
        lo
    } else if is_js_space(s[j - 1]) {
        drop_trailing_spaces(s, lo, j - 1)
    } else {
        j
    }
}

pub fn trim_bounds(s: &[char]) -> (r: (usize, usize))
    ensures
        r.0 == skip_spaces(s@, 0),
        r.1 == drop_trailing_spaces(s@, skip_spaces(s@, 0), s@.len() as int),
        r.0 <= r.1 <= s@.len(),
        forall|j: int| 0 <= j < r.0 ==> is_js_space(#[trigger] s@[j]),
        forall|j: int| r.1 <= j < s@.len() ==> is_js_space(#[trigger] s@[j]),
        r.0 < r.1 ==> !is_js_space(s@[r.0 as int]) && !is_js_space(s@[r.1 - 1]),
{
    let mut lo: usize = 0;
    while lo < s.len() && is_space_char(s[lo])
        invariant
            lo <= s@.len(),
            forall|j: int| 0 <= j < lo ==> is_js_space(#[trigger] s@[j]),
            skip_spaces(s@, 0) == skip_spaces(s@, lo as int),
        decreases s@.len() - lo,
    {
        lo = lo + 1;
    }
    let mut hi: usize = s.len();
    while hi > lo && is_space_char(s[hi - 1])
        invariant
            lo <= hi <= s@.len(),
            forall|j: int| hi <= j < s@.len() ==> is_js_space(#[trigger] s@[j]),
            lo == skip_spaces(s@, 0),
            drop_trailing_spaces(s@, lo as int, s@.len() as int) == drop_trailing_spaces(s@, lo as int, hi as int),
        decreases hi,
    {
        hi = hi - 1;
    }
    (lo, hi)
}

/// `s[i..]` starts with `pat`.
pub fn starts_with_at(s: &[char], i: usize, pat: &[char]) -> (b: bool)
    requires
        i <= s@.len(),
    ensures
        b == (i + pat@.len() <= s@.len() && s@.subrange(i as int, i + pat@.len()) == pat@),
{
    if pat.len() > s.len() - i {
        return false;
    }
    let mut k: usize = 0;
    while k < pat.len()
        invariant
            k <= pat@.len(),
            i <= s@.len(),
            s@.len() == s.len(),
            i + pat@.len() <= s@.len(),
            forall|j: int| 0 <= j < k ==> s@[i + j] == pat@[j],
        decreases pat@.len() - k,
    {
        if s[i + k] != pat[k] {
            assert(s@.subrange(i as int, i + pat@.len())[k as int] != pat@[k as int]);
            return false;
        }
        k = k + 1;
    }
    assert(s@.subrange(i as int, i + pat@.len()) =~= pat@);
    true
}

/// Reads digits of `radix` from `s[i..end]`; returns the value, the end of the digits and
/// whether any digit was read.
pub fn parse_radix_digits(s: &[char], i: usize, end: usize, radix: u32) -> (r: (JsNumber, usize, bool))
    requires
        i <= end <= s@.len(),
        2 <= radix <= 36,
    ensures
        r.0.wf(),
        i <= r.1 <= end,
        r.2 == (r.1 > i),
        radix == 10 ==> r.1 == digit_run_end(s@, i as int, end as int),
        (radix == 10 && r.1 - i <= 17) ==> r.0.is_small_int() && r.0.int_value() == digits_value(
            s@.subrange(i as int, r.1 as int),
        ),
        (radix == 10 && end - i <= 17 && forall|k: int| i <= k < end ==> is_dec_digit(#[trigger] s@[k])) ==> r.1 == end
            && r.0.is_small_int() && r.0.int_value() == digits_value(s@.subrange(i as int, end as int)),
{
    let ghost dec = radix == 10;
    let mut acc = JsNumber::zero();
    let base = JsNumber::from_u64(radix as u64);
    let mut j = i;
    proof {
        reveal_with_fuel(pow10, 18);
        assert(s@.subrange(i as int, i as int) =~= Seq::<char>::empty());
    }
    while j < end
        invariant
            i <= j <= end,
            end <= s@.len(),
            acc.wf(),
            base.wf(),
            2 <= radix <= 36,
            dec == (radix == 10),
            dec ==> base.is_small_int() && base.int_value() == 10,
            dec ==> forall|k: int| i <= k < j ==> is_dec_digit(#[trigger] s@[k]),
            dec && j - i <= 17 ==> acc.is_small_int() && acc.int_value() == digits_value(s@.subrange(i as int, j as int)),
            pow10(16) == 10000000000000000,
        ensures
            i <= j <= end,
            acc.wf(),
            dec ==> forall|k: int| i <= k < j ==> is_dec_digit(#[trigger] s@[k]),
            dec ==> (j == end || !is_dec_digit(s@[j as int])),
            dec && j - i <= 17 ==> acc.is_small_int() && acc.int_value() == digits_value(s@.subrange(i as int, j as int)),
        decreases end - j,
    {
        match digit_in_radix(s[j], radix) {
            Some(d) => {
                let dn = JsNumber::from_u64(d as u64);
                proof {
                    if dec {
                        assert(is_dec_digit(s@[j as int]));
                    }
                    if dec && j + 1 - i <= 17 {
                        let t = s@.subrange(i as int, j + 1);
                        assert(t.drop_last() =~= s@.subrange(i as int, j as int));
                        assert(t.last() == s@[j as int]);
                        assert forall|k: int| 0 <= k < t.len() implies is_dec_digit(#[trigger] t[k]) by {
                            assert(t[k] == s@[i + k]);
                        }
                        assert forall|k: int| 0 <= k < t.len() - 1 implies is_dec_digit(#[trigger] t.drop_last()[k]) by {
                            assert(t.drop_last()[k] == s@[i + k]);
                        }
                        lemma_digits_value_bound(s@.subrange(i as int, j as int));
                        lemma_digits_value_bound(t);
                        lemma_pow10_mono((j - i) as nat, 16);
                        lemma_pow10_mono((j + 1 - i) as nat, 17);
                        assert(acc.int_value() * 10 < 100000000000000000);
                    }
                }
                acc = acc.mul(&base).add(&dn);
                j = j + 1;
            },
            None => {
                break;
            },
        }
    }
    proof {
        if dec {
            lemma_digit_run_end(s@, i as int, j as int, end as int);
        }
    }
    (acc, j, j > i)
}

/// The end of the run of decimal digits of `s` from `k` on, before `hi`.
pub open spec fn digit_run_end(s: Seq<char>, k: int, hi: int) -> int
    decreases hi - k,
{
    if k >= hi {
        hi
    } else if is_dec_digit(s[k]) {
        digit_run_end(s, k + 1, hi)
    } else {
        k
    }
}

/// A run of digits from `start` that stops at `j` ends there.
pub proof fn lemma_digit_run_end(s: Seq<char>, start: int, j: int, hi: int)
    requires
        start <= j <= hi,
        hi <= s.len(),
        forall|k: int| start <= k < j ==> is_dec_digit(#[trigger] s[k]),
        j == hi || !is_dec_digit(s[j]),
    ensures
        digit_run_end(s, start, hi) == j,
    decreases j - start,
{
    if start < j {
        assert(is_dec_digit(s[start]));
        lemma_digit_run_end(s, start + 1, j, hi);
    }
}

/// A text of one to seventeen decimal digits.
pub open spec fn is_digit_text(s: Seq<char>) -> bool {
    1 <= s.len() <= 17 && forall|j: int| 0 <= j < s.len() ==> is_dec_digit(#[trigger] s[j])
}

/// `StringToNumber`: the numeric value of a whole string, NaN when it is not numeric.
pub fn string_to_number(s: &[char]) -> (r: JsNumber)
    ensures
        r.wf(),
        is_digit_text(s@) ==> r == spec_int(digits_value(s@) as int),
{
    let (lo, hi) = trim_bounds(s);
    proof {
        if 1 <= s@.len() && forall|j: int| 0 <= j < s@.len() ==> is_dec_digit(#[trigger] s@[j]) {
            if lo > 0 {
                assert(is_js_space(s@[0]));
                assert(is_dec_digit(s@[0]));
            }
            if hi < s@.len() {
                assert(is_js_space(s@[hi as int]));
                assert(is_dec_digit(s@[hi as int]));
            }
            assert(lo == 0 && hi == s@.len());
            assert(s@.subrange(0, s@.len() as int) =~= s@);
            if s@.len() > 1 {
                assert(is_dec_digit(s@[1]));
            }
        }
    }
    if lo == hi {
        return JsNumber::zero();
    }
    // Radix prefixes
    if hi - lo > 2 && s[lo] == '0' {
        let c = s[lo + 1];
        let radix: u32 = if c == 'x' || c == 'X' {
            16
        } else if c == 'o' || c == 'O' {
            8
        } else if c == 'b' || c == 'B' {
            2
        } else {
            0
        };
        if radix != 0 {
            let (v, end, any) = parse_radix_digits(s, lo + 2, hi, radix);
            if any && end == hi {
                return v;
            }
            return JsNumber::NaN;
        }
    }
    let mut i = lo;
    let mut neg = false;
    if s[i] == '+' || s[i] == '-' {
        neg = s[i] == '-';
        i = i + 1;
    }
    let inf = chars_of("Infinity");
    proof {
        reveal_strlit("Infinity");
        if 1 <= s@.len() && forall|j: int| 0 <= j < s@.len() ==> is_dec_digit(#[trigger] s@[j]) {
            assert(is_dec_digit(s@[i as int]));
            assert(inf@[0] == 'I');
            if i + inf@.len() <= s@.len() {
                assert(s@.subrange(i as int, i + inf@.len())[0] == s@[i as int]);
            }
        }
    }
    if starts_with_at(s, i, inf.as_slice()) && i + inf.len() == hi {
        return JsNumber::Infinity { neg };
    }
    match parse_decimal_prefix(s, i) {
        Some((n, end)) => {
            if end == hi {
                if neg {
                    n.neg()
                } else {
                    n
                }
            } else {
                JsNumber::NaN
            }
        },
        None => JsNumber::NaN,
    }
}

/// The digits of `n` in base `radix` (lower-case letters past nine).
pub open spec fn radix_digits(n: nat, radix: nat) -> Seq<char>
    decreases n,
{
    if n < radix || radix < 2 {
        seq![digit_char_spec(n)]
    } else {
        proof {
            assert(n / radix < n) by (nonlinear_arith)
                requires
                    n >= radix,
                    radix >= 2,
            ;
        }
        radix_digits(n / radix, radix).push(digit_char_spec(n % radix))
    }
}

/// Digits of `n` in `radix`.
pub fn u128_to_radix(n: u128, radix: u32) -> (r: Vec<char>)
    requires
        2 <= radix <= 36,
    ensures
        r@ == radix_digits(n as nat, radix as nat),
    decreases n,
{
    if n < radix as u128 {
        let mut v = Vec::new();
        v.push(digit_char(n as u64));
        v
    } else {
        assert(n / (radix as u128) < n) by (nonlinear_arith)
            requires
                n >= radix,
                radix >= 2,
        ;
        let mut v = u128_to_radix(n / radix as u128, radix);
        v.push(digit_char((n % radix as u128) as u64));
        v
    }
}

/// `n` zero digits.
pub open spec fn zero_chars(n: nat) -> Seq<char> {
    Seq::new(n, |i: int| '0')
}

/// What `toFixed(f)` appends to the digits of an integer: nothing for `f == 0`, else a
/// point and `f` zeros.
pub open spec fn fixed_fraction(f: nat) -> Seq<char> {
    if f == 0 {
        Seq::empty()
    } else {
        seq!['.'] + zero_chars(f)
    }
}

/// An optional minus sign, then `digits` with a point before its last `f` digits (no point
/// when `f` is zero).
fn with_point(minus: bool, digits: &Vec<char>, f: usize) -> (out: Vec<char>)
    requires
        f <= digits@.len(),
    ensures
        out@ == (if minus { seq!['-'] } else { Seq::<char>::empty() }) + digits@.take(digits@.len() - f) + (if f > 0 {
            seq!['.'] + digits@.subrange(digits@.len() - f, digits@.len() as int)
        } else {
            Seq::<char>::empty()
        }),
{
    let mut out: Vec<char> = Vec::new();
    if minus {
        out.push('-');
    }
    let ghost sign = out@;
    let split = digits.len() - f;
    let mut i: usize = 0;
    while i < digits.len()
        invariant
            i <= digits.len(),
            split <= digits.len(),
            split == digits@.len() - f,
            sign == (if minus { seq!['-'] } else { Seq::<char>::empty() }),
            i <= split ==> out@ == sign + digits@.take(i as int),
            i > split ==> out@ == sign + digits@.take(split as int) + seq!['.'] + digits@.subrange(split as int, i as int),
        decreases digits.len() - i,
    {
        if i == split {
            out.push('.');
        }
        out.push(digits[i]);
        proof {
            if i + 1 <= split {
                assert(out@ =~= sign + digits@.take(i + 1));
            } else {
                assert(out@ =~= sign + digits@.take(split as int) + seq!['.'] + digits@.subrange(split as int, i + 1));
            }
        }
        i = i + 1;
    }
    proof {
        if f == 0 {
            assert(digits@.take(digits@.len() as int) =~= digits@);
            assert(out@ =~= sign + digits@.take(digits@.len() - f) + Seq::<char>::empty());
        } else {
            assert(out@ =~= sign + digits@.take(split as int) + (seq!['.'] + digits@.subrange(split as int,
                digits@.len() as int)));
        }
    }
    out
}

/// Decimal digits of `mant × 10^(exp - t)` rounded half up to an integer.
fn scaled_digits(mant: u64, exp: i32, t: i64) -> (r: Vec<char>)
    requires
        -1000000 <= t <= 1000000,
    ensures
        exp == 0 && -1000 <= t <= 0 ==> r@ == dec_digits(mant as nat) + (if mant != 0 {
            zero_chars((-t) as nat)
        } else {
            Seq::empty()
        }),
{
    let sh: i64 = exp as i64 - t;
    if sh >= 0 {
        let mut v = u64_to_dec(mant);
        let ghost d = v@;
        if mant != 0 {
            let z: usize = if sh > 1000 {
                1000
            } else {
                sh as usize
            };
            push_repeat(&mut v, '0', z);
            proof {
                assert forall|i: int| 0 <= i < d.len() implies v@[i] == d[i] by {
                    assert(v@.subrange(0, d.len() as int)[i] == v@[i]);
                }
                assert(v@ =~= d + zero_chars(z as nat));
            }
        } else {
            assert(d + Seq::<char>::empty() =~= d);
        }
        v
    } else {
        let d: i64 = -sh;
        if d > 38 {
            let mut v = Vec::new();
            v.push('0');
            return v;
        }
        let p = pow10_u128(d as u32);
        let q = (mant as u128) / p;
        let rem = (mant as u128) % p;
        let twice = match rem.checked_mul(2) {
            Some(v) => v,
            None => u128::MAX,
        };
        let q2: u128 = if twice >= p && q < u128::MAX {
            q + 1
        } else {
            q
        };
        u128_to_radix(q2, 10)
    }
}

/// Argument range check used by the formatting methods.
pub fn digits_arg_ok(f: i64, lo: i64) -> (b: bool)
    ensures
        b == (lo <= f <= 100),
{
    lo <= f && f <= 100
}

impl JsNumber {
    /// `Number.prototype.toFixed` with `f` fraction digits (0..=100).
    pub fn to_fixed(&self, f: u32) -> (r: Vec<char>)
        requires
            self.wf(),
            f <= 100,
        ensures
            self.is_small_int() ==> r@ == int_to_dec(self.int_value()) + fixed_fraction(f as nat),
    {
        match *self {
            JsNumber::Finite { neg, mant, exp } => {
                let k: i64 = digit_count(mant) as i64;
                if mant != 0 && k + exp as i64 > 21 {
                    return self.to_js_string();
                }
                let mut digits = scaled_digits(mant, exp, -(f as i64));
                let ghost small = exp == 0;
                let ghost dm = dec_digits(mant as nat);
                proof {
                    if small {
                        lemma_dec_digits_nonempty(mant as nat);
                        if mant == 0 {
                            assert(dm =~= seq!['0']);
                        }
                    }
                }
                // pad to at least f + 1 digits
                if digits.len() < f as usize + 1 {
                    let mut padded: Vec<char> = Vec::new();
                    push_repeat(&mut padded, '0', f as usize + 1 - digits.len());
                    let ghost pz = padded@;
                    append_chars(&mut padded, digits.as_slice());
                    proof {
                        if small {
                            assert(mant == 0);
                            assert(padded@ =~= pz + digits@);
                            assert(padded@ =~= dm + zero_chars(f as nat)) by {
                                assert forall|i: int| 0 <= i < padded@.len() implies padded@[i] == '0' by {
                                    if i < pz.len() {
                                        assert(pz[i] == '0');
                                    }
                                }
                            }
                        }
                    }
                    digits = padded;
                } else {
                    proof {
                        if small && mant == 0 {
                            assert(f == 0);
                            assert(digits@ =~= dm + zero_chars(f as nat));
                        }
                    }
                }
                assert(small ==> digits@ =~= dm + zero_chars(f as nat));
                let out = with_point(neg && mant != 0, &digits, f as usize);
                proof {
                    if small {
                        let split = digits@.len() - f;
                        assert(digits@.take(split as int) =~= dm);
                        if f > 0 {
                            assert(digits@.subrange(split as int, digits@.len() as int) =~= zero_chars(f as nat));
                        }
                        assert(out@ =~= int_to_dec(self.int_value()) + fixed_fraction(f as nat));
                    }
                }
                out
            },
            _ => self.to_js_string(),
        }
    }

    /// `Number.prototype.toExponential` with `f` fraction digits (0..=100).
    pub fn to_exponential(&self, f: u32) -> (r: Vec<char>)
        requires
            self.wf(),
            f <= 100,
    {
        match *self {
            JsNumber::Finite { neg, mant, exp } => {
                let mut out: Vec<char> = Vec::new();
                if neg && mant != 0 {
                    out.push('-');
                }
                if mant == 0 {
                    out.push('0');
                    if f > 0 {
                        out.push('.');
                        push_repeat(&mut out, '0', f as usize);
                    }
                    out.push('e');
                    out.push('+');
                    out.push('0');
                    return out;
                }
                let k: i64 = digit_count(mant) as i64;
                let mut e10: i64 = k + exp as i64 - 1;
                let mut digits = scaled_digits(mant, exp, e10 - f as i64);
                if digits.len() > f as usize + 1 {
                    // rounding carried into a new digit
                    digits.pop();
                    e10 = e10 + 1;
                }
                if digits.len() > 0 {
                    out.push(digits[0]);
                }
                if digits.len() > 1 {
                    out.push('.');
                    let mut i: usize = 1;
                    while i < digits.len()
                        invariant
                            1 <= i <= digits.len(),
                        decreases digits.len() - i,
                    {
                        out.push(digits[i]);
                        i = i + 1;
                    }
                }
                out.push('e');
                push_signed_exponent(&mut out, e10);
                out
            },
            _ => self.to_js_string(),
        }
    }

    /// `Number.prototype.toPrecision` with `p` significant digits (1..=100).
    pub fn to_precision(&self, p: u32) -> (r: Vec<char>)
        requires
            self.wf(),
            1 <= p <= 100,
    {
        match *self {
            JsNumber::Finite { neg, mant, exp } => {
                let mut out: Vec<char> = Vec::new();
                if neg && mant != 0 {
                    out.push('-');
                }
                if mant == 0 {
                    out.push('0');
                    if p > 1 {
                        out.push('.');
                        push_repeat(&mut out, '0', (p - 1) as usize);
                    }
                    return out;
                }
                let k: i64 = digit_count(mant) as i64;
                let mut e10: i64 = k + exp as i64 - 1;
                let mut digits = scaled_digits(mant, exp, e10 - p as i64 + 1);
                if digits.len() > p as usize {
                    digits.pop();
                    e10 = e10 + 1;
                }
                if e10 < -6 || e10 >= p as i64 {
                    if digits.len() > 0 {
                        out.push(digits[0]);
                    }
                    if digits.len() > 1 {
                        out.push('.');
                        let mut i: usize = 1;
                        while i < digits.len()
                            invariant
                                1 <= i <= digits.len(),
                            decreases digits.len() - i,
                        {
                            out.push(digits[i]);
                            i = i + 1;
                        }
                    }
                    out.push('e');
                    push_signed_exponent(&mut out, e10);
                } else if e10 >= 0 {
                    let split: usize = (e10 + 1) as usize;
                    let mut i: usize = 0;
                    while i < digits.len()
                        invariant
                            i <= digits.len(),
                        decreases digits.len() - i,
                    {
                        if i == split {
                            out.push('.');
                        }
                        out.push(digits[i]);
                        i = i + 1;
                    }
                } else {
                    out.push('0');
                    out.push('.');
                    push_repeat(&mut out, '0', (-e10 - 1) as usize);
                    append_chars(&mut out, digits.as_slice());
                }
                out
            },
            _ => self.to_js_string(),
        }
    }

    /// `Number.prototype.toString(radix)`; fractions and non-finite values use base ten.
    pub fn to_string_radix(&self, radix: u32) -> (r: Vec<char>)
        requires
            self.wf(),
            2 <= radix <= 36,
        ensures
            radix == 10 && self.is_small_int() ==> r@ == int_to_dec(self.int_value()),
    {
        if radix == 10 {
            return self.to_js_string();
        }
        match *self {
            JsNumber::Finite { neg, mant, exp } => {
                if exp < 0 {
                    return self.to_js_string();
                }
                let mag: u128 = if exp == 0 {
                    mant as u128
                } else if exp > 21 {
                    u128::MAX
                } else {
                    match (mant as u128).checked_mul(pow10_u128(exp as u32)) {
                        Some(v) => v,
                        None => u128::MAX,
                    }
                };
                let digits = u128_to_radix(mag, radix);
                let mut out: Vec<char> = Vec::new();
                if neg && mant != 0 {
                    out.push('-');
                }
                append_chars(&mut out, digits.as_slice());
                out
            },
            _ => self.to_js_string(),
        }
    }

    /// Square root, rounded to seventeen significant digits.
    pub fn sqrt(&self) -> (r: JsNumber)
        requires
            self.wf(),
        ensures
            r.wf(),
            self is NaN ==> r is NaN,
    {
        match *self {
            JsNumber::NaN => JsNumber::NaN,
            JsNumber::Infinity { neg } => if neg {
                JsNumber::NaN
            } else {
                *self
            },
            JsNumber::Finite { neg, mant, exp } => {
                if mant == 0 {
                    return *self;
                }
                if neg {
                    return JsNumber::NaN;
                }
                let mut m: u128 = mant as u128;
                let mut e: i64 = exp as i64;
                if e % 2 != 0 {
                    m = m * 10;
                    e = e - 1;
                }
                // scale by 100s while the value stays below 10^34
                let mut guard: u32 = 0;
                while m < 10000000000000000000000000000000000u128 && guard < 40
                    invariant
                        m >= 1,
                        -1000000 <= e <= 1000,
                    decreases 40 - guard,
                {
                    guard = guard + 1;
                    m = m * 100;
                    e = e - 2;
                    if e < -1000000 {
                        e = -1000000;
                    }
                }
                let (root, exact) = isqrt(m);
                let ne: i64 = if e >= 0 {
                    e / 2
                } else {
                    -((-e) / 2)
                };
                normalize(false, root, ne, !exact)
            },
        }
    }

    /// `base ** exponent` for integer exponents and exponents that are odd multiples of 1/2;
    /// other exponents give NaN.
    pub fn pow(&self, exponent: &JsNumber) -> (r: JsNumber)
        requires
            self.wf(),
            exponent.wf(),
        ensures
            r.wf(),
            (self is NaN || exponent is NaN) && !exponent.is_zero_spec() ==> r is NaN,
            (self.is_small_int() && exponent.is_small_int() && 0 <= exponent.int_value() <= 9007199254740992 && iabs(
                ipow(self.int_value(), exponent.int_value() as nat),
            ) < MANT_LIMIT) ==> r.is_small_int() && r.int_value() == ipow(self.int_value(), exponent.int_value() as nat),
    {
        if exponent.is_zero() {
            proof {
                reveal_with_fuel(ipow, 1);
            }
            return JsNumber::from_u64(1);
        }
        if self.is_nan() || exponent.is_nan() {
            return JsNumber::NaN;
        }
        match *exponent {
            JsNumber::Infinity { neg } => {
                let a = self.abs();
                let one = JsNumber::from_u64(1);
                match a.compare(&one) {
                    NumOrder::Equal => JsNumber::NaN,
                    NumOrder::Greater => if neg {
                        JsNumber::zero()
                    } else {
                        JsNumber::Infinity { neg: false }
                    },
                    _ => if neg {
                        JsNumber::Infinity { neg: false }
                    } else {
                        JsNumber::zero()
                    },
                }
            },
            JsNumber::Finite { neg: eneg, .. } => {
                if exponent.is_integer() {
                    pow_int(self, eneg, exponent.abs().to_integer_clamped())
                } else {
                    let two = JsNumber::from_u64(2);
                    let doubled = exponent.mul(&two);
                    if doubled.is_integer() {
                        let root = self.sqrt();
                        pow_int(&root, eneg, doubled.abs().to_integer_clamped())
                    } else {
                        JsNumber::NaN
                    }
                }
            },
            JsNumber::NaN => JsNumber::NaN,
        }
    }
}

/// `b` to the power `e`.
pub open spec fn ipow(b: int, e: nat) -> int
    decreases e,
{
    if e == 0 {
        1
    } else {
        b * ipow(b, (e - 1) as nat)
    }
}

pub open spec fn iabs(x: int) -> int {
    if x < 0 {
        -x
    } else {
        x
    }
}

/// Powers add their exponents.
pub proof fn lemma_ipow_add(b: int, e1: nat, e2: nat)
    ensures
        ipow(b, e1 + e2) == ipow(b, e1) * ipow(b, e2),
    decreases e1,
{
    if e1 > 0 {
        lemma_ipow_add(b, (e1 - 1) as nat, e2);
        assert(ipow(b, e1 + e2) == b * ipow(b, (e1 - 1 + e2) as nat));
        let p = ipow(b, (e1 - 1) as nat);
        let q = ipow(b, e2);
        assert(b * (p * q) == (b * p) * q) by (nonlinear_arith);
    }
}

/// A power of a square is an even power.
pub proof fn lemma_ipow_square(b: int, e: nat)
    ensures
        ipow(b * b, e) == ipow(b, 2 * e),
    decreases e,
{
    if e > 0 {
        lemma_ipow_square(b, (e - 1) as nat);
        let p = ipow(b, (2 * e - 2) as nat);
        assert(ipow(b, (2 * e - 1) as nat) == b * p);
        assert(ipow(b, 2 * e) == b * ipow(b, (2 * e - 1) as nat));
        assert((b * b) * p == b * (b * p)) by (nonlinear_arith);
    }
}

/// The size of a power is the power of the size.
pub proof fn lemma_ipow_abs(b: int, e: nat)
    ensures
        iabs(ipow(b, e)) == ipow(iabs(b), e),
    decreases e,
{
    if e > 0 {
        lemma_ipow_abs(b, (e - 1) as nat);
        let p = ipow(b, (e - 1) as nat);
        assert(iabs(b * p) == iabs(b) * iabs(p)) by (nonlinear_arith);
    }
}

/// A power of a number of at least 1 is at least 1, and at least the number itself for a
/// positive exponent, and at least its square for an exponent of at least 2.
pub proof fn lemma_ipow_grows(c: int, e: nat)
    requires
        c >= 1,
    ensures
        ipow(c, e) >= 1,
        e >= 1 ==> ipow(c, e) >= c,
        e >= 2 ==> ipow(c, e) >= c * c,
    decreases e,
{
    if e > 0 {
        lemma_ipow_grows(c, (e - 1) as nat);
        let p = ipow(c, (e - 1) as nat);
        assert(c * p >= c) by (nonlinear_arith)
            requires
                c >= 1,
                p >= 1,
        ;
        if e >= 2 {
            assert(c * p >= c * c) by (nonlinear_arith)
                requires
                    c >= 1,
                    p >= c,
            ;
        }
    }
}

/// One step of squaring keeps `r * b^n`: for odd `n` the factor `b` moves into `r`.
proof fn lemma_square_step(r: int, b: int, n: nat)
    ensures
        n % 2 == 1 ==> r * ipow(b, n) == (r * b) * ipow(b * b, n / 2),
        n % 2 == 0 ==> r * ipow(b, n) == r * ipow(b * b, n / 2),
{
    lemma_ipow_square(b, n / 2);
    if n % 2 == 1 {
        assert(n == 2 * (n / 2) + 1);
        assert(ipow(b, n) == b * ipow(b, (n - 1) as nat));
        assert(r * (b * ipow(b, 2 * (n / 2))) == (r * b) * ipow(b, 2 * (n / 2))) by (nonlinear_arith);
    } else {
        assert(n == 2 * (n / 2));
    }
}

/// `base ** ±k` by repeated squaring; exact for an integer base and exponent `k >= 0`
/// whose power is an integer below 10^17 in size.
fn pow_int(base: &JsNumber, negative: bool, k: i64) -> (r: JsNumber)
    requires
        base.wf(),
    ensures
        r.wf(),
        (base.is_small_int() && !negative && k >= 0 && iabs(ipow(base.int_value(), k as nat)) < MANT_LIMIT)
            ==> r.is_small_int() && r.int_value() == ipow(base.int_value(), k as nat),
{
    let ghost fits = base.is_small_int() && !negative && k >= 0 && iabs(ipow(base.int_value(), k as nat))
        < MANT_LIMIT;
    let ghost x = base.int_value();
    let mut result = JsNumber::from_u64(1);
    let mut b = *base;
    let mut n: u64 = if k < 0 {
        0
    } else {
        k as u64
    };
    proof {
        reveal_with_fuel(ipow, 2);
        if fits {
            assert(result.int_value() == 1);
        }
    }
    while n > 0
        invariant
            result.wf(),
            b.wf(),
            fits == (base.is_small_int() && !negative && k >= 0 && iabs(ipow(x, k as nat)) < MANT_LIMIT),
            x == base.int_value(),
            fits ==> result.is_small_int() && (n > 0 ==> b.is_small_int()) && result.int_value() * ipow(
                b.int_value(),
                n as nat,
            ) == ipow(x, k as nat),
            fits ==> (b.int_value() == 0 || (iabs(b.int_value()) >= 1 && iabs(result.int_value()) >= 1)),
        decreases n,
    {
        let ghost r0 = result.int_value();
        let ghost b0 = b.int_value();
        let ghost n0 = n as nat;
        proof {
            if fits {
                lemma_square_step(r0, b0, n0);
                lemma_ipow_abs(b0, n0);
                lemma_ipow_abs(x, k as nat);
                assert(iabs(r0 * ipow(b0, n0)) == iabs(r0) * iabs(ipow(b0, n0))) by (nonlinear_arith);
                if b0 != 0 {
                    lemma_ipow_grows(iabs(b0), n0);
                    lemma_ipow_grows(iabs(b0), (n0 - 1) as nat);
                    if n0 % 2 == 1 {
                        // |r0 * b0| <= |r0| * |b0|^n0 < LIMIT
                        assert(iabs(r0) * iabs(b0) <= iabs(r0) * ipow(iabs(b0), n0)) by (nonlinear_arith)
                            requires
                                iabs(r0) >= 1,
                                ipow(iabs(b0), n0) >= iabs(b0),
                        ;
                        assert(iabs(r0 * b0) == iabs(r0) * iabs(b0)) by (nonlinear_arith);
                    }
                    if n0 >= 2 {
                        assert(iabs(b0) * iabs(b0) <= iabs(r0) * ipow(iabs(b0), n0)) by (nonlinear_arith)
                            requires
                                iabs(r0) >= 1,
                                ipow(iabs(b0), n0) >= iabs(b0) * iabs(b0),
                        ;
                        assert(iabs(b0 * b0) == iabs(b0) * iabs(b0)) by (nonlinear_arith);
                    }
                }
            }
        }
        if n % 2 == 1 {
            result = result.mul(&b);
        }
        b = b.mul(&b);
        n = n / 2;
        proof {
            if fits {
                if b0 != 0 {
                    assert(iabs(b0 * b0) >= 1) by (nonlinear_arith)
                        requires
                            b0 != 0,
                    ;
                    if n0 % 2 == 1 {
                        assert(iabs(r0 * b0) >= 1) by (nonlinear_arith)
                            requires
                                iabs(r0) >= 1,
                                b0 != 0,
                        ;
                    }
                } else {
                    assert(b0 * b0 == 0);
                }
            }
        }
    }
    proof {
        if fits {
            reveal_with_fuel(ipow, 1);
            assert(ipow(b.int_value(), 0) == 1);
        }
    }
    if negative {
        JsNumber::from_u64(1).div(&result)
    } else {
        result
    }
}

/// Integer square root of `m` and whether it is exact.
pub fn isqrt(m: u128) -> (r: (u128, bool))
    ensures
        r.0 * r.0 <= m,
        m < (r.0 + 1) * (r.0 + 1),
        r.1 == (r.0 * r.0 == m),
{
    let mut lo: u128 = 0;
    let mut hi: u128 = 18446744073709551616u128;
    assert(m < hi * hi) by (nonlinear_arith)
        requires
            hi == 18446744073709551616u128,
            m <= u128::MAX,
    ;
    while hi - lo > 1
        invariant
            lo < hi,
            hi <= 18446744073709551616u128,
            lo * lo <= m,
            m < hi * hi,
        decreases hi - lo,
    {
        let mid = lo + (hi - lo) / 2;
        let sq = mid.checked_mul(mid);
        match sq {
            Some(v) => if v <= m {
                lo = mid;
            } else {
                hi = mid;
            },
            None => {
                hi = mid;
            },
        }
    }
    let exact = match lo.checked_mul(lo) {
        Some(v) => v == m,
        None => false,
    };
    (lo, exact)
}
} // verus!
