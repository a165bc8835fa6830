//! Properties that relate several operations of the library.
use crate::builtins::array::{
    bubble_answers_by_key, bubble_from, bubble_invariant, first_index_from, first_svz_from, identity_order,
    insertion_answers_by_key, insertion_from, insertion_invariant, insertion_sorted_by_answers,
    lemma_bubble_sorts, lemma_insertion_sorts, reversed, sorted_by_answers,
};
use crate::builtins::date::{civil_from_days, days_from_civil};
use crate::builtins::helpers::join_texts;
use crate::builtins::string::{find_from, occurs_at, split_pieces, string_views};
use crate::builtins::global::{
    encode_char, escaped_byte, hex_char, hex_value, is_uri_reserved, is_uri_unescaped, percent_bytes,
    uri_decoded, uri_encoded, utf8_bytes,
};
use crate::builtins::maps::{lemma_same_value_zero_equiv, map_lookup, unique_keys};
use crate::builtins::number::{is_integer_number, is_safe_integer_number};
use crate::interpreter::Interpreter;
use crate::builtins::math::{num_arg_spec, rounds_to};
use crate::ast::{BinaryOp, FunctionDef};
use crate::expr::closure_run;
use crate::eval::{aimed_at, for_loop_run, loop_goes_on, stmts_from, switch_choice, switch_run, switch_tests_used, try_run};
use crate::ast::{Statement, SwitchCase};
use crate::interpreter::Completion;
use crate::expr::{equality_result, plain_loose_eq, same_kind};
use crate::number::{
    all_dec_digits, dec_digits, digits_value, lemma_dec_digits_value, lemma_leading_zeros, lemma_pow10_mono,
    exponent_decimal_text, lemma_dec_digits_nonempty, plain_decimal_text, pow10, signed_exponent_text,
    zero_chars, JsNumber, RoundMode,
};
use crate::value::{same_value, same_value_zero, strict_eq, JsValue};
use vstd::prelude::*;

verus! {

/// `arr.pop()` right after `arr.push(v)` returns `v` and leaves the array as it was.
/// (`i1` is the state after the push, `i2` after the pop, which returned `popped`.)
pub proof fn law_pop_undoes_push(
    i0: Interpreter,
    i1: Interpreter,
    i2: Interpreter,
    a: usize,
    v: JsValue,
    popped: JsValue,
)
    requires
        i0.array_at(a) is Some,
        i1.array_at(a) == Some(i0.array_at(a)->Some_0 + seq![v]),
        i1.array_at(a) matches Some(s) && s.len() > 0 && popped == s.last() && i2.array_at(a) == Some(s.drop_last()),
    ensures
        popped == v,
        i2.array_at(a) == i0.array_at(a),
{
    let s = i0.array_at(a)->Some_0;
    assert((s + seq![v]).drop_last() =~= s);
}

/// `arr.shift()` right after `arr.unshift(v)` returns `v` and leaves the array as it was.
pub proof fn law_shift_undoes_unshift(
    i0: Interpreter,
    i1: Interpreter,
    i2: Interpreter,
    a: usize,
    v: JsValue,
    shifted: JsValue,
)
    requires
        i0.array_at(a) is Some,
        i1.array_at(a) == Some(seq![v] + i0.array_at(a)->Some_0),
        i1.array_at(a) matches Some(s) && s.len() > 0 && shifted == s[0] && i2.array_at(a) == Some(s.drop_first()),
    ensures
        shifted == v,
        i2.array_at(a) == i0.array_at(a),
{
    let s = i0.array_at(a)->Some_0;
    assert((seq![v] + s).drop_first() =~= s);
}

/// Reversing twice gives the elements back in their order (`reverse` and `toReversed`).
pub proof fn law_reverse_twice(s: Seq<JsValue>)
    ensures
        reversed(reversed(s)) == s,
{
    assert(reversed(reversed(s)) =~= s);
}

/// Except for NaN, `indexOf` finds an element exactly when `includes` does, at the same
/// position: `===` and SameValueZero agree on every other value.
pub proof fn law_index_of_agrees_with_includes(s: Seq<JsValue>, x: JsValue, from: int)
    requires
        !(x matches JsValue::Number(n) && n is NaN),
    ensures
        first_index_from(s, x, from) == first_svz_from(s, x, from),
    decreases s.len() - from,
{
    if 0 <= from < s.len() {
        law_index_of_agrees_with_includes(s, x, from + 1);
    }
}

/// Every value but NaN is `===` to itself, and every value is SameValueZero to itself.
pub proof fn law_equality_reflexive(v: JsValue)
    ensures
        !(v matches JsValue::Number(n) && n is NaN) ==> strict_eq(v, v),
        same_value_zero(v, v),
{
}

/// Map lookups cannot tell SameValueZero keys apart.
pub proof fn law_map_lookup_same_key(es: Seq<(JsValue, JsValue)>, a: JsValue, b: JsValue)
    requires
        same_value_zero(a, b),
    ensures
        map_lookup(es, a) == map_lookup(es, b),
    decreases es.len(),
{
    if es.len() > 0 {
        lemma_same_value_zero_equiv(es[0].0, a, b);
        lemma_same_value_zero_equiv(a, b, b);
        lemma_same_value_zero_equiv(es[0].0, b, a);
        lemma_same_value_zero_equiv(b, a, a);
        law_map_lookup_same_key(es.drop_first(), a, b);
    }
}

/// After `m.set(k, v)` (taking entries `es` to `es1`), `m.get(x)` gives `v` for every key
/// SameValueZero to `k` and what it gave before for every other key.
pub proof fn law_map_get_after_set(es: Seq<(JsValue, JsValue)>, es1: Seq<(JsValue, JsValue)>, k: JsValue, v: JsValue, x: JsValue)
    requires
        map_lookup(es1, k) == Some(v),
        forall|other: JsValue| !same_value_zero(k, other) ==> #[trigger] map_lookup(es1, other) == map_lookup(es, other),
    ensures
        map_lookup(es1, x) == if same_value_zero(k, x) { Some(v) } else { map_lookup(es, x) },
{
    if same_value_zero(k, x) {
        law_map_lookup_same_key(es1, k, x);
    } else {
        assert(map_lookup(es1, x) == map_lookup(es, x));
    }
}

/// `m.delete(k)` right after `m.set(k, v)` leaves `m.has(k)` false, on maps whose keys
/// are distinct (as `new Map`, `set` and `delete` keep them).
pub proof fn law_map_delete_after_set(
    es: Seq<(JsValue, JsValue)>,
    es1: Seq<(JsValue, JsValue)>,
    es2: Seq<(JsValue, JsValue)>,
    k: JsValue,
)
    requires
        unique_keys(es),
        unique_keys(es) ==> unique_keys(es1),
        unique_keys(es1) ==> unique_keys(es2) && map_lookup(es2, k) is None,
    ensures
        map_lookup(es2, k) is None,
        unique_keys(es2),
{
}

/// A safe integer is an integer.
pub proof fn law_safe_integer_is_integer(n: JsNumber)
    requires
        n.wf(),
        is_safe_integer_number(n),
    ensures
        is_integer_number(n),
{
}

/// Every character is ASCII.
pub open spec fn is_ascii_text(s: Seq<char>) -> bool {
    forall|i: int| 0 <= i < s.len() ==> (#[trigger] s[i]) as int <= 127
}

/// A hexadecimal digit reads back as its value.
proof fn lemma_hex_round_trip(d: int)
    requires
        0 <= d < 16,
    ensures
        hex_value(hex_char(d)) == Some(d),
{
    reveal_strlit("0123456789ABCDEF");
    if d == 0 {
        assert(hex_char(0) == '0');
    } else if d == 1 {
        assert(hex_char(1) == '1');
    } else if d == 2 {
        assert(hex_char(2) == '2');
    } else if d == 3 {
        assert(hex_char(3) == '3');
    } else if d == 4 {
        assert(hex_char(4) == '4');
    } else if d == 5 {
        assert(hex_char(5) == '5');
    } else if d == 6 {
        assert(hex_char(6) == '6');
    } else if d == 7 {
        assert(hex_char(7) == '7');
    } else if d == 8 {
        assert(hex_char(8) == '8');
    } else if d == 9 {
        assert(hex_char(9) == '9');
    } else if d == 10 {
        assert(hex_char(10) == 'A');
    } else if d == 11 {
        assert(hex_char(11) == 'B');
    } else if d == 12 {
        assert(hex_char(12) == 'C');
    } else if d == 13 {
        assert(hex_char(13) == 'D');
    } else if d == 14 {
        assert(hex_char(14) == 'E');
    } else if d == 15 {
        assert(hex_char(15) == 'F');
    }
}

/// Encoding a text that starts with `c` starts with the encoding of `c`.
proof fn lemma_encoded_front(c: char, rest: Seq<char>, keep: bool)
    ensures
        uri_encoded(seq![c] + rest, keep) == encode_char(c, keep) + uri_encoded(rest, keep),
    decreases rest.len(),
{
    if rest.len() == 0 {
        assert(seq![c] + rest =~= seq![c]);
        assert(seq![c].drop_last() =~= Seq::<char>::empty());
        assert(seq![c].last() == c);
        assert(uri_encoded(Seq::<char>::empty(), keep) =~= Seq::<char>::empty());
        assert(uri_encoded(seq![c], keep) =~= encode_char(c, keep));
        assert(encode_char(c, keep) + uri_encoded(rest, keep) =~= encode_char(c, keep));
    } else {
        assert((seq![c] + rest).drop_last() =~= seq![c] + rest.drop_last());
        assert((seq![c] + rest).last() == rest.last());
        lemma_encoded_front(c, rest.drop_last(), keep);
        assert(encode_char(c, keep) + uri_encoded(rest.drop_last(), keep) + encode_char(rest.last(), keep)
            =~= encode_char(c, keep) + (uri_encoded(rest.drop_last(), keep) + encode_char(rest.last(), keep)));
    }
}

/// Decoding the encoding of an ASCII character gives the character back.
proof fn lemma_decode_encoded_char(c: char, tail: Seq<char>, keep: bool)
    requires
        c as int <= 127,
    ensures
        uri_decoded(encode_char(c, keep) + tail, keep) == seq![c] + uri_decoded(tail, keep),
{
    let e = encode_char(c, keep) + tail;
    if is_uri_unescaped(c) || (keep && is_uri_reserved(c)) {
        assert(e[0] == c);
        assert(e.subrange(1, e.len() as int) =~= tail);
    } else {
        let v = c as int;
        assert(utf8_bytes(v) == seq![v]);
        assert(seq![v].drop_last() =~= Seq::<int>::empty());
        assert(seq![v].last() == v);
        assert(percent_bytes(Seq::<int>::empty()) =~= Seq::<char>::empty());
        assert(percent_bytes(seq![v]) =~= seq!['%', hex_char(v / 16), hex_char(v % 16)]);
        lemma_hex_round_trip(v / 16);
        lemma_hex_round_trip(v % 16);
        assert(e[0] == '%' && e[1] == hex_char(v / 16) && e[2] == hex_char(v % 16));
        assert(escaped_byte(e[1], e[2]) == Some(v));
        assert((v as char) == c);
        assert(e.subrange(3, e.len() as int) =~= tail);
    }
}

/// Decoding undoes encoding on ASCII text: `decodeURIComponent(encodeURIComponent(s))`
/// and `decodeURI(encodeURI(s))` give `s` back.
pub proof fn law_uri_round_trip(s: Seq<char>, keep_reserved: bool)
    requires
        is_ascii_text(s),
    ensures
        uri_decoded(uri_encoded(s, keep_reserved), keep_reserved) == s,
    decreases s.len(),
{
    if s.len() > 0 {
        let rest = s.drop_first();
        assert(s =~= seq![s[0]] + rest);
        assert(is_ascii_text(rest)) by {
            assert forall|i: int| 0 <= i < rest.len() implies (#[trigger] rest[i]) as int <= 127 by {
                assert(rest[i] == s[i + 1]);
            }
        }
        law_uri_round_trip(rest, keep_reserved);
        lemma_encoded_front(s[0], rest, keep_reserved);
        lemma_decode_encoded_char(s[0], uri_encoded(rest, keep_reserved), keep_reserved);
    } else {
        assert(uri_encoded(s, keep_reserved) =~= Seq::<char>::empty());
    }
}

/// Texts joined with `sep` between them, from the front.
pub open spec fn joined(ps: Seq<Seq<char>>, sep: Seq<char>) -> Seq<char>
    decreases ps.len(),
{
    if ps.len() == 0 {
        Seq::empty()
    } else if ps.len() == 1 {
        ps[0]
    } else {
        ps[0] + sep + joined(ps.drop_first(), sep)
    }
}

/// `find_from` finds an occurrence at or after its start.
proof fn lemma_find_from_occurs(s: Seq<char>, p: Seq<char>, i: int)
    ensures
        find_from(s, p, i) != -1 ==> find_from(s, p, i) >= i && occurs_at(s, p, find_from(s, p, i)),
    decreases s.len() + 1 - i,
{
    if !(i < 0 || i + p.len() > s.len()) && !occurs_at(s, p, i) {
        lemma_find_from_occurs(s, p, i + 1);
    }
}

/// The pieces of a split, joined with the separator, give the text back.
proof fn lemma_split_join(s: Seq<char>, sep: Seq<char>, start: int)
    requires
        sep.len() > 0,
        0 <= start <= s.len(),
    ensures
        split_pieces(s, sep, start, None).len() >= 1,
        joined(split_pieces(s, sep, start, None), sep) == s.subrange(start, s.len() as int),
    decreases s.len() + 1 - start,
{
    let j = find_from(s, sep, start);
    lemma_find_from_occurs(s, sep, start);
    if j < start || j + sep.len() > s.len() {
    } else {
        lemma_split_join(s, sep, j + sep.len());
        let rest = split_pieces(s, sep, j + sep.len(), None);
        let ps = seq![s.subrange(start, j)] + rest;
        assert(ps.drop_first() =~= rest);
        assert(s.subrange(j, j + sep.len()) == sep);
        assert(s.subrange(start, j) + sep + s.subrange(j + sep.len(), s.len() as int) =~= s.subrange(start, s.len() as int));
    }
}

/// Joining from the front is joining from the back.
proof fn lemma_joined_push(ps: Seq<Seq<char>>, x: Seq<char>, sep: Seq<char>)
    requires
        ps.len() >= 1,
    ensures
        joined(ps.push(x), sep) == joined(ps, sep) + sep + x,
    decreases ps.len(),
{
    assert(ps.push(x)[0] == ps[0]);
    if ps.len() == 1 {
        assert(ps.push(x).drop_first() =~= seq![x]);
        assert(joined(seq![x], sep) == x);
    } else {
        assert(ps.push(x).drop_first() =~= ps.drop_first().push(x));
        lemma_joined_push(ps.drop_first(), x, sep);
        assert(ps[0] + sep + (joined(ps.drop_first(), sep) + sep + x) =~= ps[0] + sep + joined(ps.drop_first(), sep) + sep + x);
    }
}

/// `join` on string elements joins their texts.
proof fn lemma_join_texts_strings(t: Seq<JsValue>, sep: Seq<char>)
    requires
        forall|i: int| 0 <= i < t.len() ==> #[trigger] t[i] is String,
    ensures
        join_texts(t, sep) == joined(string_views(t), sep),
    decreases t.len(),
{
    if t.len() == 1 {
        assert(string_views(t) =~= seq![t[0]->String_0@]);
    } else if t.len() > 1 {
        let u = t.drop_last();
        lemma_join_texts_strings(u, sep);
        assert(string_views(t) =~= string_views(u).push(t.last()->String_0@));
        lemma_joined_push(string_views(u), t.last()->String_0@, sep);
    } else {
        assert(string_views(t) =~= Seq::<Seq<char>>::empty());
    }
}

/// `s.split(sep).join(sep)` gives `s` back for a non-empty separator: here `t` is the
/// array `split` returns, whose elements are strings holding the pieces.
pub proof fn law_split_then_join(s: Seq<char>, sep: Seq<char>, t: Seq<JsValue>)
    requires
        sep.len() > 0,
        forall|i: int| 0 <= i < t.len() ==> #[trigger] t[i] is String,
        string_views(t) == split_pieces(s, sep, 0, None),
    ensures
        join_texts(t, sep) == s,
{
    lemma_split_join(s, sep, 0);
    lemma_join_texts_strings(t, sep);
    assert(s.subrange(0, s.len() as int) =~= s);
}

/// The civil date of a day count converts back to that day count: the calendar fields
/// that the `Date` getters read give, through `Date.UTC`, the day they were read from.
pub proof fn law_civil_date_round_trip(days: int)
    ensures
        days_from_civil(civil_from_days(days).0, civil_from_days(days).1, civil_from_days(days).2) == days,
{
    let z = days + 719468;
    let era = z / 146097;
    let doe = z - era * 146097;
    vstd::arithmetic::div_mod::lemma_fundamental_div_mod(z, 146097);
    assert(0 <= doe < 146097);
    let yoe = (doe - doe / 1460 + doe / 36524 - doe / 146096) / 365;
    let doy = doe - (365 * yoe + yoe / 4 - yoe / 100);
    assert(0 <= yoe <= 399 && 0 <= doy <= 365) by (nonlinear_arith)
        requires
            0 <= doe < 146097,
            yoe == (doe - doe / 1460 + doe / 36524 - doe / 146096) / 365,
            doy == doe - (365 * yoe + yoe / 4 - yoe / 100),
    ;
    let mp = (5 * doy + 2) / 153;
    let d = doy - (153 * mp + 2) / 5 + 1;
    assert(0 <= mp <= 11) by (nonlinear_arith)
        requires
            0 <= doy <= 365,
            mp == (5 * doy + 2) / 153,
    ;
    let m = if mp < 10 { mp + 3 } else { mp - 9 };
    let y = yoe + era * 400;
    let c = civil_from_days(days);
    assert(c == (if m <= 2 { y + 1 } else { y }, m, d));
    let y2 = if m <= 2 { c.0 - 1 } else { c.0 };
    let mm = if m <= 2 { m + 12 } else { m };
    assert(y2 == y);
    assert(mm - 3 == mp);
    vstd::arithmetic::div_mod::lemma_fundamental_div_mod_converse(y2, 400, era, yoe);
    assert(y2 / 400 == era);
    assert((153 * (mm - 3) + 2) / 5 + d - 1 == doy);
}

/// `Object.isFrozen` is true of an object that `Object.freeze` was applied to (`after` is
/// the state `freeze` left).
pub proof fn law_frozen_after_freeze(after: Interpreter, id: usize)
    requires
        id < after.heap@.len(),
        after.heap@[id as int].frozen,
    ensures
        crate::builtins::object::object_flag(&after, JsValue::Object(id), 0) == Some(true),
{
}

/// Integer division by a positive `p` brackets its argument: `(x / p) · p <= x < (x / p + 1) · p`.
proof fn lemma_div_brackets(x: int, p: int)
    requires
        p > 0,
    ensures
        (x / p) * p <= x < (x / p + 1) * p,
{
    vstd::arithmetic::div_mod::lemma_fundamental_div_mod(x, p);
    let q = x / p;
    assert(q * p <= x < (q + 1) * p) by (nonlinear_arith)
        requires
            x == p * q + x % p,
            0 <= x % p < p,
    ;
}

/// `Math.floor(x)` on a number `x` with a fraction is the integer `y` with `y <= x < y + 1`
/// (`x` is its signed digits `v` times `10^-d`, so this reads `y · 10^d <= v < (y + 1) · 10^d`).
pub proof fn law_floor_brackets(args: Seq<JsValue>, r: Result<JsValue, crate::value::JsError>)
    requires
        rounds_to(args, r, RoundMode::Floor),
        num_arg_spec(args, 0) matches Some(x) && x is Finite && x->Finite_exp < 0,
    ensures
        ({
            let x = num_arg_spec(args, 0)->Some_0;
            let p = pow10((-x->Finite_exp) as nat) as int;
            r matches Ok(JsValue::Number(y)) && y.int_value() * p <= x.int_value() < (y.int_value() + 1) * p
        }),
{
    let x = num_arg_spec(args, 0)->Some_0;
    let p = pow10((-x->Finite_exp) as nat) as int;
    lemma_pow10_mono(0, (-x->Finite_exp) as nat);
    lemma_div_brackets(x.int_value(), p);
}

/// `Math.ceil(x)` on a number `x` with a fraction is the integer `y` with `y - 1 < x <= y`.
pub proof fn law_ceil_brackets(args: Seq<JsValue>, r: Result<JsValue, crate::value::JsError>)
    requires
        rounds_to(args, r, RoundMode::Ceil),
        num_arg_spec(args, 0) matches Some(x) && x is Finite && x->Finite_exp < 0,
    ensures
        ({
            let x = num_arg_spec(args, 0)->Some_0;
            let p = pow10((-x->Finite_exp) as nat) as int;
            r matches Ok(JsValue::Number(y)) && (y.int_value() - 1) * p < x.int_value() <= y.int_value() * p
        }),
{
    let x = num_arg_spec(args, 0)->Some_0;
    let p = pow10((-x->Finite_exp) as nat) as int;
    lemma_pow10_mono(0, (-x->Finite_exp) as nat);
    lemma_div_brackets(-x.int_value(), p);
    let q = (-x.int_value()) / p;
    assert((-q - 1) * p == -((q + 1) * p) && (-q) * p == -(q * p)) by (nonlinear_arith);
}

/// `Math.trunc(x)` drops the fraction: the result has the sign of `x` (or is zero) and its
/// magnitude `n` satisfies `n <= |x| < n + 1`.
pub proof fn law_trunc_toward_zero(args: Seq<JsValue>, r: Result<JsValue, crate::value::JsError>)
    requires
        rounds_to(args, r, RoundMode::Trunc),
        num_arg_spec(args, 0) matches Some(x) && x is Finite && x->Finite_exp < 0,
    ensures
        ({
            let x = num_arg_spec(args, 0)->Some_0;
            let p = pow10((-x->Finite_exp) as nat) as int;
            let m = x->Finite_mant as int;
            r matches Ok(JsValue::Number(y)) && y->Finite_neg == x->Finite_neg && y->Finite_mant * p <= m < (
            y->Finite_mant + 1) * p
        }),
{
    let x = num_arg_spec(args, 0)->Some_0;
    let p = pow10((-x->Finite_exp) as nat) as int;
    lemma_pow10_mono(0, (-x->Finite_exp) as nat);
    lemma_div_brackets(x->Finite_mant as int, p);
}

/// `Math.round(x)` is an integer nearest to `x`, half-way cases going away from zero: the
/// result has the sign of `x` (or is zero) and its magnitude `n` satisfies
/// `|x| - 1/2 < n <= |x| + 1/2`.
pub proof fn law_round_nearest(args: Seq<JsValue>, r: Result<JsValue, crate::value::JsError>)
    requires
        rounds_to(args, r, RoundMode::HalfAway),
        num_arg_spec(args, 0) matches Some(x) && x is Finite && x->Finite_exp < 0,
    ensures
        ({
            let x = num_arg_spec(args, 0)->Some_0;
            let p = pow10((-x->Finite_exp) as nat) as int;
            let m = x->Finite_mant as int;
            r matches Ok(JsValue::Number(y)) && y->Finite_neg == x->Finite_neg && 2 * m - p < 2 * (y->Finite_mant * p)
                <= 2 * m + p
        }),
{
    let x = num_arg_spec(args, 0)->Some_0;
    let p = pow10((-x->Finite_exp) as nat) as int;
    let m = x->Finite_mant as int;
    lemma_pow10_mono(0, (-x->Finite_exp) as nat);
    lemma_div_brackets(2 * m + p, 2 * p);
    let q = (2 * m + p) / (2 * p);
    assert(q * (2 * p) == 2 * (q * p) && (q + 1) * (2 * p) == 2 * (q * p) + 2 * p) by (nonlinear_arith);
}

/// `a != b` is the negation of `a == b` (`r1` and `r2` are what the two give on the same
/// operands, wherever no conversion is needed).
pub proof fn law_not_equal_negates_equal(
    a: JsValue,
    b: JsValue,
    r1: Result<JsValue, crate::value::JsError>,
    r2: Result<JsValue, crate::value::JsError>,
)
    requires
        plain_loose_eq(a, b) is Some,
        equality_result(BinaryOp::Eq, a, b, r1),
        equality_result(BinaryOp::NotEq, a, b, r2),
    ensures
        r1 matches Ok(JsValue::Boolean(x)) && r2 matches Ok(JsValue::Boolean(y)) && y == !x,
{
}

/// On two values of one type, `==` agrees with `===` and `!=` with `!==`; `undefined == null`,
/// and neither equals any other value.
pub proof fn law_loose_equality_on_one_type(
    op: BinaryOp,
    a: JsValue,
    b: JsValue,
    r: Result<JsValue, crate::value::JsError>,
)
    requires
        op is Eq || op is NotEq,
        equality_result(op, a, b, r),
    ensures
        same_kind(a, b) ==> r == Ok::<JsValue, crate::value::JsError>(JsValue::Boolean(
            if op is Eq { strict_eq(a, b) } else { !strict_eq(a, b) },
        )),
        ((a is Undefined || a is Null) && (b is Undefined || b is Null)) ==> r == Ok::<
            JsValue,
            crate::value::JsError,
        >(JsValue::Boolean(op is Eq)),
        ((a is Undefined || a is Null) != (b is Undefined || b is Null)) ==> r == Ok::<
            JsValue,
            crate::value::JsError,
        >(JsValue::Boolean(op is NotEq)),
{
}

/// In a `for` loop, a `continue` aimed at the loop does not end it: the update runs after
/// it and the test is evaluated again (the run `tests`/`bodies`/`updates` is any that
/// `for_loop_run` allows, `k` the iteration whose body continued).
pub proof fn law_for_continue_goes_on(
    tests: Seq<bool>,
    bodies: Seq<Completion>,
    updates: nat,
    has_update: bool,
    labels: Seq<Vec<char>>,
    out: Completion,
    k: int,
)
    requires
        for_loop_run(tests, bodies, updates, has_update, labels, out),
        0 <= k < bodies.len(),
        bodies[k] matches Completion::Continue(l) && aimed_at(l, labels),
    ensures
        tests.len() > k + 1,
        has_update ==> updates > k,
{
    assert(loop_goes_on(bodies[k], labels));
}

/// A `for` loop completes normally only at a falsy test or at a `break` aimed at it, and
/// such a `break` is the last thing its body did.
pub proof fn law_for_ends_at_test_or_break(
    tests: Seq<bool>,
    bodies: Seq<Completion>,
    updates: nat,
    has_update: bool,
    labels: Seq<Vec<char>>,
    out: Completion,
    k: int,
)
    requires
        for_loop_run(tests, bodies, updates, has_update, labels, out),
    ensures
        out is Normal ==> (tests.len() == bodies.len() + 1 && !tests.last()) || (bodies.len() > 0 && (
        bodies.last() matches Completion::Break(l) && aimed_at(l, labels))),
        (0 <= k < bodies.len() && (bodies[k] matches Completion::Break(l) && aimed_at(l, labels))) ==> k
            == bodies.len() - 1 && out == Completion::Normal(JsValue::Undefined),
{
    if 0 <= k < bodies.len() - 1 {
        assert(loop_goes_on(bodies[k], labels));
    }
}

/// The text `String(x)` gives a number `x = ±m · 10^e` with a fraction (`e < 0`, plain
/// notation) is a decimal numeral for `x`: after the sign come digits, a point and exactly
/// `-e` more digits, and all the digits read together (the point left out) make `m`.
pub proof fn law_fraction_text_reads_back(neg: bool, m: nat, e: int)
    requires
        m > 0,
        e < 0,
        -6 < dec_digits(m).len() + e,
    ensures
        ({
            let t = plain_decimal_text(neg, dec_digits(m), e);
            let body = if neg { t.drop_first() } else { t };
            let q = body.len() + e - 1;
            &&& neg ==> t.len() > 0 && t[0] == '-'
            &&& 0 < q < body.len()
            &&& body[q] == '.'
            &&& all_dec_digits(body.subrange(0, q))
            &&& all_dec_digits(body.subrange(q + 1, body.len() as int))
            &&& digits_value(body.subrange(0, q) + body.subrange(q + 1, body.len() as int)) == m
        }),
{
    let d = dec_digits(m);
    let k = d.len() as int;
    let n = k + e;
    let t = plain_decimal_text(neg, d, e);
    let sign: Seq<char> = if neg { seq!['-'] } else { Seq::empty() };
    let body = if neg { t.drop_first() } else { t };
    lemma_dec_digits_value(m);
    if n > 0 {
        let b = d.subrange(0, n) + seq!['.'] + d.subrange(n, k);
        assert(t == sign + b);
        assert(body =~= b);
        assert(body.subrange(0, n) =~= d.subrange(0, n));
        assert(body.subrange(n + 1, body.len() as int) =~= d.subrange(n, k));
        assert(d.subrange(0, n) + d.subrange(n, k) =~= d);
    } else {
        let z = zero_chars((-n) as nat);
        let b = seq!['0', '.'] + z + d;
        assert(t == sign + b);
        assert(body =~= b);
        assert(body[1] == '.');
        assert(body.subrange(0, 1) =~= seq!['0']);
        assert(body.subrange(2, body.len() as int) =~= z + d);
        assert(seq!['0'] + (z + d) =~= zero_chars((-n + 1) as nat) + d);
        lemma_leading_zeros((-n + 1) as nat, d);
        assert forall|j: int| 0 <= j < body.len() - 2 implies crate::number::is_dec_digit(
            #[trigger] body.subrange(2, body.len() as int)[j],
        ) by {
            assert(body.subrange(2, body.len() as int)[j] == (z + d)[j]);
            if j >= z.len() {
                assert((z + d)[j] == d[j - z.len()]);
            }
        }
    }
}

/// `arr.sort(f)` with a comparator that orders by a key (it answers "greater" exactly when
/// the first element's key is above the second's) leaves the array in ascending order of
/// that key. `t` is the sorted array, `s` the elements before, `gts` the answers `sort` got
/// from the comparator (see `sorted_by_answers`); `vkey` gives equal values equal keys.
pub proof fn law_sort_orders_by_comparator(
    t: Seq<JsValue>,
    s: Seq<JsValue>,
    gts: Seq<bool>,
    vkey: spec_fn(JsValue) -> int,
)
    requires
        sorted_by_answers(t, s, gts),
        bubble_answers_by_key(identity_order(s.len()), 0, 0, gts, |i: usize| vkey(s[i as int])),
        forall|x: JsValue, y: JsValue| same_value(x, y) ==> vkey(x) == vkey(y),
    ensures
        forall|a: int, b: int| 0 <= a < b < s.len() ==> vkey(#[trigger] t[a]) <= vkey(#[trigger] t[b]),
{
    let key = |i: usize| vkey(s[i as int]);
    let id = identity_order(s.len());
    let order = bubble_from(id, 0, 0, gts);
    assert(bubble_invariant(id, 0, 0, key));
    lemma_bubble_sorts(id, 0, 0, gts, key);
    assert forall|a: int, b: int| 0 <= a < b < s.len() implies vkey(#[trigger] t[a]) <= vkey(#[trigger] t[b]) by {
        assert(same_value(t[a], s[order[a] as int]));
        assert(same_value(t[b], s[order[b] as int]));
        assert(key(order[a]) <= key(order[b]));
    }
}

/// `arr.toSorted(f)` with a comparator that orders by a key gives the elements in ascending
/// order of that key. `t` is the new array, `s` the elements, `gts` the answers `toSorted`
/// got from the comparator (see `insertion_sorted_by_answers`); `vkey` gives equal values
/// equal keys.
pub proof fn law_to_sorted_orders_by_comparator(
    t: Seq<JsValue>,
    s: Seq<JsValue>,
    gts: Seq<bool>,
    vkey: spec_fn(JsValue) -> int,
)
    requires
        insertion_sorted_by_answers(t, s, gts),
        insertion_answers_by_key(identity_order(s.len()), 0, 0, gts, |i: usize| vkey(s[i as int])),
        forall|x: JsValue, y: JsValue| same_value(x, y) ==> vkey(x) == vkey(y),
    ensures
        forall|a: int, b: int| 0 <= a < b < s.len() ==> vkey(#[trigger] t[a]) <= vkey(#[trigger] t[b]),
{
    let key = |i: usize| vkey(s[i as int]);
    let id = identity_order(s.len());
    let order = insertion_from(id, 0, 0, gts);
    if s.len() > 0 {
        assert(insertion_invariant(id, 0, 0, key));
    }
    lemma_insertion_sorts(id, 0, 0, gts, key);
    assert forall|a: int, b: int| 0 <= a < b < s.len() implies vkey(#[trigger] t[a]) <= vkey(#[trigger] t[b]) by {
        assert(same_value(t[a], s[order[a] as int]));
        assert(same_value(t[b], s[order[b] as int]));
        assert(key(order[a]) <= key(order[b]));
    }
}

/// The text `String(x)` gives a number `x = ±m · 10^e` in exponent notation is a numeral
/// for `x`: after the sign, a mantissa (one digit, then a point and `f` more digits when
/// there are any), `e`, a sign and the digits of an exponent `E`, where the mantissa's
/// digits read together make `m` and `E - f == e`.
pub proof fn law_exponent_text_reads_back(neg: bool, m: nat, e: int)
    requires
        m > 0,
    ensures
        ({
            let t = exponent_decimal_text(neg, dec_digits(m), e);
            let body = if neg { t.drop_first() } else { t };
            let k = dec_digits(m).len() as int;
            let mpl = if k > 1 { k + 1 } else { 1 };
            let mant_digits = if k > 1 { body.subrange(0, 1) + body.subrange(2, mpl) } else { body.subrange(0, 1) };
            let ed = body.subrange(mpl + 2, body.len() as int);
            let big_e = if body[mpl + 1] == '-' { -(digits_value(ed) as int) } else { digits_value(ed) as int };
            &&& neg ==> t.len() > 0 && t[0] == '-'
            &&& mpl + 2 < body.len()
            &&& k > 1 ==> body[1] == '.'
            &&& body[mpl] == 'e'
            &&& (body[mpl + 1] == '-' || body[mpl + 1] == '+')
            &&& all_dec_digits(mant_digits)
            &&& all_dec_digits(ed)
            &&& digits_value(mant_digits) == m
            &&& big_e - (k - 1) == e
        }),
{
    let d = dec_digits(m);
    let k = d.len() as int;
    lemma_dec_digits_nonempty(m);
    lemma_dec_digits_value(m);
    let x = k + e - 1;
    let sign: Seq<char> = if neg { seq!['-'] } else { Seq::empty() };
    let frac: Seq<char> = if k > 1 { seq!['.'] + d.subrange(1, k) } else { Seq::empty() };
    let ex = signed_exponent_text(x);
    let mag: nat = if x < 0 { (-x) as nat } else { x as nat };
    lemma_dec_digits_nonempty(mag);
    lemma_dec_digits_value(mag);
    let b = seq![d[0]] + frac + seq!['e'] + ex;
    let t = exponent_decimal_text(neg, d, e);
    assert(t =~= sign + b);
    let body = if neg { t.drop_first() } else { t };
    assert(body =~= b);
    let mpl = if k > 1 { k + 1 } else { 1 };
    assert(body.subrange(mpl + 2, body.len() as int) =~= dec_digits(mag));
    if k > 1 {
        assert(body.subrange(0, 1) + body.subrange(2, mpl) =~= d);
    } else {
        assert(body.subrange(0, 1) =~= d);
    }
}

/// `try … catch … finally`: the finalizer runs whenever there is one, also after an error
/// in the block or the handler; an error in the block (other than running out of steps)
/// goes to the handler where there is one, and the outcome is then the handler's; a
/// finalizer that completes normally leaves the outcome as it was, one that fails or jumps
/// replaces it. (`b`, `c`, `f`: how the block, handler and finalizer ended.)
pub proof fn law_try_catch_finally(
    b: Result<Completion, crate::value::JsError>,
    c: Option<Result<Completion, crate::value::JsError>>,
    f: Option<Result<Completion, crate::value::JsError>>,
    has_handler: bool,
    has_finalizer: bool,
    out: Result<Completion, crate::value::JsError>,
)
    requires
        try_run(b, c, f, has_handler, has_finalizer, out),
    ensures
        has_finalizer ==> f is Some,
        !has_finalizer ==> f is None,
        (has_handler && b is Err && !(b->Err_0 is OutOfFuel)) ==> c is Some && (
        (f is None || f matches Some(Ok(Completion::Normal(_)))) ==> out == c->Some_0),
        (b is Ok || !has_handler) ==> c is None && ((f is None || f matches Some(Ok(Completion::Normal(_)))) ==> out
            == b),
        f matches Some(Err(e)) ==> out == Err::<Completion, crate::value::JsError>(e),
        f matches Some(Ok(fc)) ==> (!(fc is Normal) ==> out == Ok::<Completion, crate::value::JsError>(fc)),
{
}

/// The case test values a `switch` evaluates before the last are all different from the
/// discriminant; where the last equals it, the chosen case is the one with that test; where
/// none does, the chosen case (if any) is a `default` (one seen before case `i`, or after it).
proof fn lemma_switch_choice(d: JsValue, cases: Seq<SwitchCase>, i: int, vals: Seq<JsValue>, dflt: Option<usize>)
    requires
        0 <= i,
        cases.len() <= usize::MAX,
        switch_tests_used(d, cases, i, vals),
        dflt matches Some(k) ==> k < cases.len() && cases[k as int].test is None,
    ensures
        forall|k: int| 0 <= k < vals.len() - 1 ==> !strict_eq(d, #[trigger] vals[k]),
        (vals.len() > 0 && strict_eq(d, vals.last())) ==> (switch_choice(d, cases, i, vals, dflt) matches Some(f)
            && i <= f < cases.len() && cases[f].test is Some),
        !(vals.len() > 0 && strict_eq(d, vals.last())) ==> (switch_choice(d, cases, i, vals, dflt) matches Some(f)
            ==> 0 <= f < cases.len() && cases[f].test is None),
    decreases cases.len() - i,
{
    if i >= cases.len() {
    } else if cases[i].test is None {
        lemma_switch_choice(d, cases, i + 1, vals, Some(i as usize));
    } else if strict_eq(d, vals[0]) {
    } else {
        lemma_switch_choice(d, cases, i + 1, vals.drop_first(), dflt);
        assert forall|k: int| 0 <= k < vals.len() - 1 implies !strict_eq(d, #[trigger] vals[k]) by {
            if k > 0 {
                assert(vals[k] == vals.drop_first()[k - 1]);
            }
        }
        if vals.len() > 1 {
            assert(vals.last() == vals.drop_first().last());
        }
    }
}

/// `switch (d)` runs from the first case whose test value equals `d` (by `===`), testing
/// the cases in order and none after it; where no test equals `d`, it runs from a `default`
/// case, or runs nothing. (`vals`, `ran`, `done`: the test values evaluated, the statements
/// run and how they completed.)
pub proof fn law_switch_chooses_first_match(
    d: JsValue,
    cases: Seq<SwitchCase>,
    vals: Seq<JsValue>,
    ran: Seq<Statement>,
    done: Seq<Completion>,
    out: Completion,
)
    requires
        cases.len() <= usize::MAX,
        switch_run(d, cases, vals, ran, done, out),
    ensures
        forall|k: int| 0 <= k < vals.len() - 1 ==> !strict_eq(d, #[trigger] vals[k]),
        (vals.len() > 0 && strict_eq(d, vals.last())) ==> (switch_choice(d, cases, 0, vals, None) matches Some(f)
            && cases[f].test is Some),
        !(vals.len() > 0 && strict_eq(d, vals.last())) ==> (switch_choice(d, cases, 0, vals, None) matches Some(f)
            ==> cases[f].test is None),
        switch_choice(d, cases, 0, vals, None) is None ==> ran.len() == 0 && out == Completion::Normal(
            JsValue::Undefined,
        ),
{
    lemma_switch_choice(d, cases, 0, vals, None);
}

/// A `switch` falls through: after a statement of the chosen case completes normally the
/// next statement runs, into the following cases too, until the end, an unlabelled
/// `break` (which ends the switch normally) or another jump.
pub proof fn law_switch_falls_through(
    d: JsValue,
    cases: Seq<SwitchCase>,
    vals: Seq<JsValue>,
    ran: Seq<Statement>,
    done: Seq<Completion>,
    out: Completion,
    m: int,
)
    requires
        switch_run(d, cases, vals, ran, done, out),
    ensures
        switch_choice(d, cases, 0, vals, None) matches Some(f) ==> ((0 <= m < done.len() && (done[m] is Normal)
            && m + 1 < stmts_from(cases, f).len()) ==> ran.len() > m + 1 && ran[m + 1] == stmts_from(cases, f)[m + 1]),
        (done.len() > 0 && done.last() == Completion::Break(None)) ==> out == Completion::Normal(JsValue::Undefined),
{
    if switch_choice(d, cases, 0, vals, None) is Some {
        let f = switch_choice(d, cases, 0, vals, None)->Some_0;
        let all = stmts_from(cases, f);
        if 0 <= m < done.len() && (done[m] is Normal) && m + 1 < all.len() {
            if m == done.len() - 1 {
                assert(done.last() is Normal);
            }
            assert(ran[m + 1] == all.subrange(0, ran.len() as int)[m + 1]);
        }
    }
}

/// A call of a function written in the program binds each parameter to its argument,
/// `undefined` where the argument is missing (and there is no default), and gives the value
/// of the `return` its body ends with, or `undefined` when the body ends without one.
/// (`bound`: the parameter values, `body`: how a block body completed, `r`: the result.)
pub proof fn law_call_binds_and_returns(
    def: FunctionDef,
    args: Seq<JsValue>,
    bound: Seq<JsValue>,
    body: Option<Completion>,
    r: JsValue,
    i: int,
)
    requires
        closure_run(def, args, bound, body, r),
    ensures
        (0 <= i < def.params@.len() && !def.params@[i].rest && i < args.len() && !(args[i] is Undefined)) ==> same_value(
            bound[i],
            args[i],
        ),
        (0 <= i < def.params@.len() && !def.params@[i].rest && i >= args.len() && def.params@[i].default is None)
            ==> bound[i] == JsValue::Undefined,
        def.body is Block ==> (body matches Some(c) && (c matches Completion::Return(v) ==> r == v) && (!(c is Return)
            ==> r == JsValue::Undefined)),
{
    if 0 <= i < def.params@.len() {
        assert(crate::expr::param_value(def.params@[i], args, i, bound[i]));
    }
}

} // verus!
