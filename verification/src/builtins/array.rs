//! `Array` and `Array.prototype`.
use crate::builtins::helpers::{all_plain, plain_text, join_part, join_texts, array_value, int_arg, is_range_error, is_type_error, position, position_arg, same_seq, this_array, int_arg_value, relative};
use crate::interpreter::{arg_at, copy_values, lookup_prop, raise, type_error, Interpreter};
use crate::number::{append_chars, chars_of, spec_int, JsNumber, MANT_LIMIT};
use crate::text::{lemma_text_le_total, lemma_text_le_trans, text_le, text_le_exec};
use crate::value::{
    copy_chars, same_value, same_value_zero, same_value_zero_equals, strict_eq, strict_equals, ErrorKind, JsError,
    JsValue, NativeId, ObjectKind,
};
use crate::builtins::generator::create_generator_result;
use vstd::prelude::*;

verus! {

/// The heap index an object value names (0 for other values).
pub open spec fn object_index(v: JsValue) -> usize {
    match v {
        JsValue::Object(id) => id,
        _ => 0,
    }
}

/// A count as a number value, exact below 10^17.
pub open spec fn is_count(v: JsValue, n: int) -> bool {
    v matches JsValue::Number(x) && x.wf() && (n < MANT_LIMIT ==> x == spec_int(n))
}

/// A requested length clamped into `0..=2^32-1`.
pub open spec fn clamp_length(n: int) -> int {
    if n < 0 {
        0
    } else if n > 4294967295 {
        4294967295
    } else {
        n
    }
}

/// The sequence in reverse order.
pub open spec fn reversed(s: Seq<JsValue>) -> Seq<JsValue> {
    Seq::new(s.len(), |i: int| s[s.len() - 1 - i])
}

/// `s` with positions `start..end` set to `v`.
pub open spec fn filled(s: Seq<JsValue>, v: JsValue, start: int, end: int) -> Seq<JsValue> {
    Seq::new(s.len(), |i: int| if start <= i < end { v } else { s[i] })
}

/// `s` with `s[start..end]` copied to position `target`, as far as `s` reaches.
pub open spec fn copied_within(s: Seq<JsValue>, target: int, start: int, end: int) -> Seq<JsValue> {
    Seq::new(
        s.len(),
        |i: int| if target <= i < target + (end - start) { s[start + (i - target)] } else { s[i] },
    )
}

/// `s` with `count` elements removed at `start` and `items` put in their place.
pub open spec fn spliced(s: Seq<JsValue>, start: int, count: int, items: Seq<JsValue>) -> Seq<
    JsValue,
> {
    s.subrange(0, start) + items + s.subrange(start + count, s.len() as int)
}

/// Index of the first element from `from` on that is `===` to `x`, or -1.
pub open spec fn first_index_from(s: Seq<JsValue>, x: JsValue, from: int) -> int
    decreases s.len() - from,
{
    if from < 0 || from >= s.len() {
        -1
    } else if strict_eq(s[from], x) {
        from
    } else {
        first_index_from(s, x, from + 1)
    }
}

/// Index of the last element at or below `from` that is `===` to `x`, or -1.
pub open spec fn last_index_from(s: Seq<JsValue>, x: JsValue, from: int) -> int
    decreases from + 1,
{
    if from < 0 || from >= s.len() {
        -1
    } else if strict_eq(s[from], x) {
        from
    } else {
        last_index_from(s, x, from - 1)
    }
}

/// Creates a new array object for `elems` and returns it as a value.
fn new_array_value(interp: &mut Interpreter, elems: Vec<JsValue>) -> (r: JsValue)
    ensures
        r == JsValue::Object(old(interp).heap.len()),
        final(interp).added_one(old(interp)),
        final(interp).array_at(old(interp).heap.len()) == Some(elems@),
{
    let id = interp.create_array(elems);
    JsValue::Object(id)
}

/// The copied elements of array `id`.
fn elements_of(interp: &Interpreter, id: usize) -> (r: Vec<JsValue>)
    requires
        interp.array_at(id) is Some,
    ensures
        interp.array_at(id) matches Some(s) && same_seq(r@, s),
{
    match &interp.heap[id].kind {
        ObjectKind::Array(v) => copy_values(v),
        _ => Vec::new(),
    }
}

/// `new Array(...)` / `Array(...)`: one numeric argument gives that many `undefined`s.
pub fn array_constructor_fn(interp: &mut Interpreter, this: JsValue, args: Vec<JsValue>) -> (r: Result<
    JsValue,
    JsError,
>)
    ensures
        r == Ok::<JsValue, JsError>(JsValue::Object(old(interp).heap.len())),
        final(interp).added_one(old(interp)),
        (args@.len() == 1 && args@[0] is Number) ==> (final(interp).array_at(old(interp).heap.len())
            matches Some(s) && (forall|i: int| 0 <= i < s.len() ==> s[i] == JsValue::Undefined)
            && (int_arg_value(args@[0]) matches Some(n) ==> s.len() == clamp_length(n))),
        !(args@.len() == 1 && args@[0] is Number) ==> final(interp).array_at(old(interp).heap.len()) == Some(args@),
{
    if args.len() == 1 {
        if let JsValue::Number(n) = &args[0] {
            let k = int_arg(interp, &args, 0);
            let len: u64 = if k < 0 {
                0
            } else if k > 4294967295 {
                4294967295
            } else {
                k as u64
            };
            let mut elems: Vec<JsValue> = Vec::new();
            let mut i: u64 = 0;
            while i < len
                invariant
                    i <= len,
                    elems@.len() == i,
                    forall|j: int| 0 <= j < elems@.len() ==> elems@[j] == JsValue::Undefined,
                decreases len - i,
            {
                elems.push(JsValue::Undefined);
                i = i + 1;
            }
            return Ok(new_array_value(interp, elems));
        }
    }
    Ok(new_array_value(interp, args))
}

/// `Array.isArray(v)`.
pub fn array_is_array(interp: &mut Interpreter, this: JsValue, args: Vec<JsValue>) -> (r: Result<
    JsValue,
    JsError,
>)
    ensures
        r == Ok::<JsValue, JsError>(
            JsValue::Boolean(args@.len() > 0 && array_value(old(interp), args@[0]) is Some),
        ),
        *final(interp) == *old(interp),
{
    if args.len() == 0 {
        return Ok(JsValue::Boolean(false));
    }
    Ok(JsValue::Boolean(interp.is_array(&args[0])))
}

/// `arr.push(...items)`: appends the items and returns the new length.
pub fn array_push(interp: &mut Interpreter, this: JsValue, args: Vec<JsValue>) -> (r: Result<
    JsValue,
    JsError,
>)
    ensures
        (match array_value(old(interp), this) {
            Some(s) => {
                &&& final(interp).unchanged_but(old(interp), object_index(this) as int)
                &&& final(interp).array_at(object_index(this)) == Some(s + args@)
                &&& r matches Ok(v) && is_count(v, (s.len() + args@.len()) as int)
            },
            None => is_type_error(r) && *final(interp) == *old(interp),
        }),
{
    let id = this_array(interp, &this)?;
    let mut elems = interp.take_elements(id);
    let mut items = args;
    elems.append(&mut items);
    let n = elems.len();
    interp.set_array_elements(id, elems);
    Ok(JsValue::from_usize(n))
}

/// `arr.pop()`: removes and returns the last element (`undefined` when empty).
pub fn array_pop(interp: &mut Interpreter, this: JsValue, args: Vec<JsValue>) -> (r: Result<
    JsValue,
    JsError,
>)
    ensures
        (match array_value(old(interp), this) {
            Some(s) => {
                &&& final(interp).unchanged_but(old(interp), object_index(this) as int)
                &&& s.len() == 0 ==> r == Ok::<JsValue, JsError>(JsValue::Undefined)
                    && final(interp).array_at(object_index(this)) == Some(s)
                &&& s.len() > 0 ==> r == Ok::<JsValue, JsError>(s.last())
                    && final(interp).array_at(object_index(this)) == Some(s.drop_last())
            },
            None => is_type_error(r) && *final(interp) == *old(interp),
        }),
{
    let id = this_array(interp, &this)?;
    let mut elems = interp.take_elements(id);
    let v = elems.pop();
    interp.set_array_elements(id, elems);
    match v {
        Some(x) => Ok(x),
        None => Ok(JsValue::Undefined),
    }
}

/// `arr.shift()`: removes and returns the first element (`undefined` when empty).
pub fn array_shift(interp: &mut Interpreter, this: JsValue, args: Vec<JsValue>) -> (r: Result<
    JsValue,
    JsError,
>)
    ensures
        (match array_value(old(interp), this) {
            Some(s) => {
                &&& final(interp).unchanged_but(old(interp), object_index(this) as int)
                &&& s.len() == 0 ==> r == Ok::<JsValue, JsError>(JsValue::Undefined)
                    && final(interp).array_at(object_index(this)) == Some(s)
                &&& s.len() > 0 ==> r == Ok::<JsValue, JsError>(s[0])
                    && final(interp).array_at(object_index(this)) == Some(s.drop_first())
            },
            None => is_type_error(r) && *final(interp) == *old(interp),
        }),
{
    let id = this_array(interp, &this)?;
    let mut elems = interp.take_elements(id);
    if elems.len() == 0 {
        interp.set_array_elements(id, elems);
        return Ok(JsValue::Undefined);
    }
    let v = elems.remove(0);
    proof {
        assert(elems@ =~= old(interp).array_at(id).unwrap().drop_first());
    }
    interp.set_array_elements(id, elems);
    Ok(v)
}

/// `arr.unshift(...items)`: puts the items in front and returns the new length.
pub fn array_unshift(interp: &mut Interpreter, this: JsValue, args: Vec<JsValue>) -> (r: Result<
    JsValue,
    JsError,
>)
    ensures
        (match array_value(old(interp), this) {
            Some(s) => {
                &&& final(interp).unchanged_but(old(interp), object_index(this) as int)
                &&& final(interp).array_at(object_index(this)) == Some(args@ + s)
                &&& r matches Ok(v) && is_count(v, (s.len() + args@.len()) as int)
            },
            None => is_type_error(r) && *final(interp) == *old(interp),
        }),
{
    let id = this_array(interp, &this)?;
    let mut rest = interp.take_elements(id);
    let mut elems = args;
    elems.append(&mut rest);
    let n = elems.len();
    interp.set_array_elements(id, elems);
    Ok(JsValue::from_usize(n))
}

/// `arr.reverse()`: reverses in place and returns the array.
pub fn array_reverse(interp: &mut Interpreter, this: JsValue, args: Vec<JsValue>) -> (r: Result<
    JsValue,
    JsError,
>)
    ensures
        (match array_value(old(interp), this) {
            Some(s) => {
                &&& final(interp).unchanged_but(old(interp), object_index(this) as int)
                &&& final(interp).array_at(object_index(this)) == Some(reversed(s))
                &&& r == Ok::<JsValue, JsError>(this)
            },
            None => is_type_error(r) && *final(interp) == *old(interp),
        }),
{
    let id = this_array(interp, &this)?;
    let mut elems = interp.take_elements(id);
    let ghost s = elems@;
    let mut out: Vec<JsValue> = Vec::new();
    while elems.len() > 0
        invariant
            out@.len() + elems@.len() == s.len(),
            elems@ == s.subrange(0, elems@.len() as int),
            forall|i: int| 0 <= i < out@.len() ==> out@[i] == s[s.len() - 1 - i],
        decreases elems@.len(),
    {
        let v = elems.pop();
        match v {
            Some(x) => out.push(x),
            None => {},
        }
    }
    proof {
        assert(out@ =~= reversed(s));
    }
    interp.set_array_elements(id, out);
    Ok(JsValue::Object(id))
}

/// Argument `k` as a count in `0..=avail`, `default` when it is absent.
pub open spec fn count_arg(args: Seq<JsValue>, k: int, default: int, avail: int) -> Option<int> {
    if k >= args.len() {
        Some(default)
    } else {
        match int_arg_value(args[k]) {
            Some(n) => Some(
                if n < 0 {
                    0
                } else if n > avail {
                    avail
                } else {
                    n
                },
            ),
            None => None,
        }
    }
}

/// `s[start..end]`, empty when `end <= start`.
pub open spec fn slice_of(s: Seq<JsValue>, start: int, end: int) -> Seq<JsValue> {
    if start < end {
        s.subrange(start, end)
    } else {
        Seq::empty()
    }
}

/// The arguments from position 2 on (the items of `splice`).
pub open spec fn items_from_2(args: Seq<JsValue>) -> Seq<JsValue> {
    if args.len() > 2 {
        args.subrange(2, args.len() as int)
    } else {
        Seq::empty()
    }
}

/// Concatenations of pairwise same sequences are the same.
pub proof fn lemma_same_seq_add(a1: Seq<JsValue>, b1: Seq<JsValue>, a2: Seq<JsValue>, b2: Seq<JsValue>)
    requires
        same_seq(a1, b1),
        same_seq(a2, b2),
    ensures
        same_seq(a1 + a2, b1 + b2),
{
    assert forall|j: int| 0 <= j < (a1 + a2).len() implies same_value(#[trigger] (a1 + a2)[j], (b1 + b2)[j]) by {
        if j >= a1.len() {
            assert(same_value(a2[j - a1.len()], b2[j - a1.len()]));
        }
    }
}

/// The argument vector without its first two entries.
fn split_items(args: Vec<JsValue>) -> (r: Vec<JsValue>)
    ensures
        r@ == items_from_2(args@),
{
    let mut a = args;
    if a.len() > 2 {
        a.split_off(2)
    } else {
        Vec::new()
    }
}

/// Copies of `v` for the positions `start..end` of `elems`.
fn fill_range(elems: &mut Vec<JsValue>, v: &JsValue, start: usize, end: usize)
    requires
        start <= old(elems)@.len(),
        end <= old(elems)@.len(),
    ensures
        same_seq(final(elems)@, filled(old(elems)@, *v, start as int, end as int)),
{
    let ghost s = elems@;
    let mut i = start;
    while i < end
        invariant
            start <= i,
            end <= s.len(),
            i <= end || start >= end,
            start >= end ==> i == start,
            elems@.len() == s.len(),
            forall|j: int|
                0 <= j < s.len() ==> same_value(
                    #[trigger] elems@[j],
                    if start <= j < i { *v } else { s[j] },
                ),
        decreases end - i,
    {
        elems.set(i, v.copy());
        i = i + 1;
    }
    assert forall|j: int| 0 <= j < s.len() implies same_value(
        #[trigger] elems@[j],
        filled(s, *v, start as int, end as int)[j],
    ) by {}
}

/// `arr.fill(value, start, end)`: sets positions `start..end` to `value`, returns the array.
pub fn array_fill(interp: &mut Interpreter, this: JsValue, args: Vec<JsValue>) -> (r: Result<
    JsValue,
    JsError,
>)
    ensures
        (match array_value(old(interp), this) {
            Some(s) => {
                &&& final(interp).unchanged_but(old(interp), object_index(this) as int)
                &&& r == Ok::<JsValue, JsError>(this)
                &&& final(interp).array_at(object_index(this)) matches Some(t) && t.len() == s.len()
                    && (position_arg(args@, 1, 0, s.len() as int) matches Some(st) ==> (position_arg(
                    args@,
                    2,
                    s.len() as int,
                    s.len() as int,
                ) matches Some(en) ==> same_seq(
                    t,
                    filled(s, if args@.len() > 0 { args@[0] } else { JsValue::Undefined }, st, en),
                )))
            },
            None => is_type_error(r) && *final(interp) == *old(interp),
        }),
{
    let id = this_array(interp, &this)?;
    let mut elems = interp.take_elements(id);
    let len = elems.len();
    let v = arg_at(&args, 0);
    let start = position(interp, &args, 1, 0, len);
    let end = position(interp, &args, 2, len, len);
    fill_range(&mut elems, &v, start, end);
    proof {
        let s = old(interp).array_at(id).unwrap();
        let w = if args@.len() > 0 { args@[0] } else { JsValue::Undefined };
        assert forall|j: int| 0 <= j < s.len() implies same_value(
            #[trigger] filled(s, v, start as int, end as int)[j],
            filled(s, w, start as int, end as int)[j],
        ) by {}
    }
    interp.set_array_elements(id, elems);
    Ok(JsValue::Object(id))
}

/// `arr.copyWithin(target, start, end)`: copies `arr[start..end]` to `target`, returns the array.
pub fn array_copy_within(interp: &mut Interpreter, this: JsValue, args: Vec<JsValue>) -> (r: Result<
    JsValue,
    JsError,
>)
    ensures
        (match array_value(old(interp), this) {
            Some(s) => {
                &&& final(interp).unchanged_but(old(interp), object_index(this) as int)
                &&& r == Ok::<JsValue, JsError>(this)
                &&& final(interp).array_at(object_index(this)) matches Some(t) && t.len() == s.len()
                    && (position_arg(args@, 0, 0, s.len() as int) matches Some(tg) ==> (position_arg(
                    args@,
                    1,
                    0,
                    s.len() as int,
                ) matches Some(st) ==> (position_arg(args@, 2, s.len() as int, s.len() as int) matches Some(
                    en,
                ) ==> same_seq(t, copied_within(s, tg, st, en)))))
            },
            None => is_type_error(r) && *final(interp) == *old(interp),
        }),
{
    let id = this_array(interp, &this)?;
    let mut elems = interp.take_elements(id);
    let ghost s = elems@;
    let len = elems.len();
    let target = position(interp, &args, 0, 0, len);
    let start = position(interp, &args, 1, 0, len);
    let end = position(interp, &args, 2, len, len);
    // the source range is read before anything is written
    let mut src: Vec<JsValue> = Vec::new();
    let mut k = start;
    while k < end
        invariant
            start <= k,
            end <= len,
            len == s.len(),
            k <= end || start >= end,
            start >= end ==> k == start,
            elems@ == s,
            src@.len() == k - start,
            forall|j: int| 0 <= j < src@.len() ==> same_value(#[trigger] src@[j], s[start + j]),
        decreases end - k,
    {
        src.push(elems[k].copy());
        k = k + 1;
    }
    let mut i: usize = 0;
    while i < src.len()
        invariant
            target <= len,
            len == s.len(),
            i <= src@.len(),
            elems@.len() == len,
            src@.len() == (if start < end { end - start } else { 0 }),
            forall|j: int| 0 <= j < src@.len() ==> same_value(#[trigger] src@[j], s[start + j]),
            forall|j: int|
                0 <= j < len ==> same_value(
                    #[trigger] elems@[j],
                    if target <= j < target + i { s[start + (j - target)] } else { s[j] },
                ),
        decreases src@.len() - i,
    {
        if i < len - target {
            elems.set(target + i, src[i].copy());
        }
        i = i + 1;
    }
    proof {
        assert forall|j: int| 0 <= j < len implies same_value(
            #[trigger] elems@[j],
            copied_within(s, target as int, start as int, end as int)[j],
        ) by {
            if start < end {
                assert(src@.len() == end - start);
            } else {
                assert(src@.len() == 0);
            }
            assert(i == src@.len());
        }
    }
    interp.set_array_elements(id, elems);
    Ok(JsValue::Object(id))
}

/// `arr.splice(start, count, ...items)`: replaces `count` elements at `start` by the items and
/// returns the removed elements as a new array.
pub fn array_splice(interp: &mut Interpreter, this: JsValue, args: Vec<JsValue>) -> (r: Result<
    JsValue,
    JsError,
>)
    ensures
        (match array_value(old(interp), this) {
            Some(s) => {
                let id = object_index(this);
                &&& r == Ok::<JsValue, JsError>(JsValue::Object(old(interp).heap.len()))
                &&& final(interp).heap@.len() == old(interp).heap@.len() + 1
                &&& forall|i: int|
                    0 <= i < old(interp).heap@.len() && i != id ==> #[trigger] final(interp).heap@[i]
                        == old(interp).heap@[i]
                &&& final(interp).same_state(old(interp))
                &&& (position_arg(args@, 0, 0, s.len() as int) matches Some(st) ==> (count_arg(
                    args@,
                    1,
                    s.len() - st,
                    s.len() - st,
                ) matches Some(dc) ==> final(interp).array_at(id) == Some(
                    spliced(s, st, dc, items_from_2(args@)),
                ) && final(interp).array_at(old(interp).heap.len()) == Some(
                    s.subrange(st, st + dc),
                )))
            },
            None => is_type_error(r) && *final(interp) == *old(interp),
        }),
{
    let id = this_array(interp, &this)?;
    let mut elems = interp.take_elements(id);
    let ghost s = elems@;
    let len = elems.len();
    let start = position(interp, &args, 0, 0, len);
    let avail = len - start;
    let count: usize = if args.len() > 1 {
        let n = int_arg(interp, &args, 1);
        if n < 0 {
            0
        } else if n as u64 > avail as u64 {
            avail
        } else {
            n as usize
        }
    } else {
        avail
    };
    let mut removed = elems.split_off(start);
    let mut rest = removed.split_off(count);
    let mut items = split_items(args);
    elems.append(&mut items);
    elems.append(&mut rest);
    proof {
        assert(removed@ =~= s.subrange(start as int, start + count));
    }
    interp.set_array_elements(id, elems);
    Ok(new_array_value(interp, removed))
}

/// `Array.of(...items)`.
pub fn array_of(interp: &mut Interpreter, this: JsValue, args: Vec<JsValue>) -> (r: Result<
    JsValue,
    JsError,
>)
    ensures
        r == Ok::<JsValue, JsError>(JsValue::Object(old(interp).heap.len())),
        final(interp).added_one(old(interp)),
        final(interp).array_at(old(interp).heap.len()) == Some(args@),
{
    Ok(new_array_value(interp, args))
}

/// The position `at` reads: negative values count from the end.
pub open spec fn at_position(n: int, len: int) -> int {
    if n < 0 {
        len + n
    } else {
        n
    }
}

/// `arr.at(i)`: the element at `i` (negative from the end), `undefined` out of range.
pub fn array_at(interp: &mut Interpreter, this: JsValue, args: Vec<JsValue>) -> (r: Result<
    JsValue,
    JsError,
>)
    ensures
        *final(interp) == *old(interp),
        (match array_value(old(interp), this) {
            Some(s) => r matches Ok(v) && (int_arg_value(
                if args@.len() > 0 { args@[0] } else { JsValue::Undefined },
            ) matches Some(n) ==> (if 0 <= at_position(n, s.len() as int) < s.len() {
                same_value(v, s[at_position(n, s.len() as int)])
            } else {
                v == JsValue::Undefined
            })),
            None => is_type_error(r),
        }),
{
    let id = this_array(interp, &this)?;
    let n = int_arg(interp, &args, 0);
    let elems = match &interp.heap[id].kind {
        ObjectKind::Array(v) => v,
        _ => {
            return Ok(JsValue::Undefined);
        },
    };
    let len = elems.len() as i128;
    let k: i128 = if n < 0 {
        len + n as i128
    } else {
        n as i128
    };
    if k < 0 || k >= len {
        return Ok(JsValue::Undefined);
    }
    Ok(elems[k as usize].copy())
}

/// Index of the first element from `from` on that is SameValueZero to `x`, or -1.
pub open spec fn first_svz_from(s: Seq<JsValue>, x: JsValue, from: int) -> int
    decreases s.len() - from,
{
    if from < 0 || from >= s.len() {
        -1
    } else if same_value_zero(s[from], x) {
        from
    } else {
        first_svz_from(s, x, from + 1)
    }
}

/// Searches `elems[from..]` for `x` (`===`, or SameValueZero when `zero` is set).
fn search_forward(elems: &Vec<JsValue>, x: &JsValue, from: usize, zero: bool) -> (r: Option<usize>)
    requires
        from <= elems@.len(),
    ensures
        (match r {
            Some(i) => i as int == (if zero {
                first_svz_from(elems@, *x, from as int)
            } else {
                first_index_from(elems@, *x, from as int)
            }),
            None => -1 == (if zero {
                first_svz_from(elems@, *x, from as int)
            } else {
                first_index_from(elems@, *x, from as int)
            }),
        }),
{
    let mut i = from;
    while i < elems.len()
        invariant
            from <= i <= elems@.len(),
            !zero ==> first_index_from(elems@, *x, from as int) == first_index_from(
                elems@,
                *x,
                i as int,
            ),
            zero ==> first_svz_from(elems@, *x, from as int) == first_svz_from(elems@, *x, i as int),
        decreases elems@.len() - i,
    {
        let hit = if zero {
            same_value_zero_equals(&elems[i], x)
        } else {
            strict_equals(&elems[i], x)
        };
        if hit {
            return Some(i);
        }
        i = i + 1;
    }
    None
}

/// A search result as a number: the index, or -1.
fn index_value(r: Option<usize>) -> (v: JsValue)
    ensures
        (match r {
            Some(i) => is_count(v, i as int),
            None => v == JsValue::Number(spec_int(-1)),
        }),
{
    match r {
        Some(i) => JsValue::from_usize(i),
        None => JsValue::Number(JsNumber::from_i64(-1)),
    }
}

/// `arr.indexOf(x, from)`: the first index from `from` on holding a value `===` to `x`, or -1.
pub fn array_index_of(interp: &mut Interpreter, this: JsValue, args: Vec<JsValue>) -> (r: Result<
    JsValue,
    JsError,
>)
    ensures
        *final(interp) == *old(interp),
        (match array_value(old(interp), this) {
            Some(s) => r matches Ok(v) && (position_arg(args@, 1, 0, s.len() as int) matches Some(
                st,
            ) ==> (if first_index_from(
                s,
                if args@.len() > 0 { args@[0] } else { JsValue::Undefined },
                st,
            ) == -1 {
                v == JsValue::Number(spec_int(-1))
            } else {
                is_count(
                    v,
                    first_index_from(
                        s,
                        if args@.len() > 0 { args@[0] } else { JsValue::Undefined },
                        st,
                    ),
                )
            })),
            None => is_type_error(r),
        }),
{
    let id = this_array(interp, &this)?;
    let x = arg_at(&args, 0);
    match &interp.heap[id].kind {
        ObjectKind::Array(elems) => {
            let from = position(interp, &args, 1, 0, elems.len());
            let found = search_forward(elems, &x, from, false);
            proof {
                lemma_first_index_same(elems@, x, if args@.len() > 0 { args@[0] } else { JsValue::Undefined }, from as int);
            }
            Ok(index_value(found))
        },
        _ => Ok(index_value(None)),
    }
}

/// `arr.includes(x, from)`: whether an element from `from` on is SameValueZero to `x`.
pub fn array_includes(interp: &mut Interpreter, this: JsValue, args: Vec<JsValue>) -> (r: Result<
    JsValue,
    JsError,
>)
    ensures
        *final(interp) == *old(interp),
        (match array_value(old(interp), this) {
            Some(s) => r matches Ok(v) && (position_arg(args@, 1, 0, s.len() as int) matches Some(
                st,
            ) ==> v == JsValue::Boolean(
                first_svz_from(s, if args@.len() > 0 { args@[0] } else { JsValue::Undefined }, st)
                    != -1,
            )),
            None => is_type_error(r),
        }),
{
    let id = this_array(interp, &this)?;
    let x = arg_at(&args, 0);
    match &interp.heap[id].kind {
        ObjectKind::Array(elems) => {
            let from = position(interp, &args, 1, 0, elems.len());
            let found = search_forward(elems, &x, from, true);
            proof {
                lemma_first_svz_same(elems@, x, if args@.len() > 0 { args@[0] } else { JsValue::Undefined }, from as int);
            }
            Ok(JsValue::Boolean(found.is_some()))
        },
        _ => Ok(JsValue::Boolean(false)),
    }
}

/// Searching for two values that are the same finds the same index.
proof fn lemma_first_index_same(s: Seq<JsValue>, x: JsValue, y: JsValue, from: int)
    requires
        same_value(x, y),
    ensures
        first_index_from(s, x, from) == first_index_from(s, y, from),
    decreases s.len() - from,
{
    if 0 <= from < s.len() {
        lemma_first_index_same(s, x, y, from + 1);
    }
}

/// Searching for two values that are the same finds the same index.
proof fn lemma_first_svz_same(s: Seq<JsValue>, x: JsValue, y: JsValue, from: int)
    requires
        same_value(x, y),
    ensures
        first_svz_from(s, x, from) == first_svz_from(s, y, from),
    decreases s.len() - from,
{
    if 0 <= from < s.len() {
        lemma_first_svz_same(s, x, y, from + 1);
    }
}

/// Where `lastIndexOf` starts: argument 1 relative to the end, at most `len - 1`.
pub open spec fn last_start_arg(args: Seq<JsValue>, len: int) -> Option<int> {
    if args.len() < 2 {
        Some(len - 1)
    } else {
        match int_arg_value(args[1]) {
            Some(n) => Some(
                if n < 0 {
                    if len + n < -1 {
                        -1
                    } else {
                        len + n
                    }
                } else if n < len - 1 {
                    n
                } else {
                    len - 1
                },
            ),
            None => None,
        }
    }
}

/// `arr.lastIndexOf(x, from)`: the last index at or below `from` holding a value `===` to `x`.
pub fn array_last_index_of(interp: &mut Interpreter, this: JsValue, args: Vec<JsValue>) -> (r: Result<
    JsValue,
    JsError,
>)
    ensures
        *final(interp) == *old(interp),
        (match array_value(old(interp), this) {
            Some(s) => r matches Ok(v) && (last_start_arg(args@, s.len() as int) matches Some(st)
                ==> (if last_index_from(
                s,
                if args@.len() > 0 { args@[0] } else { JsValue::Undefined },
                st,
            ) == -1 {
                v == JsValue::Number(spec_int(-1))
            } else {
                is_count(
                    v,
                    last_index_from(s, if args@.len() > 0 { args@[0] } else { JsValue::Undefined }, st),
                )
            })),
            None => is_type_error(r),
        }),
{
    let id = this_array(interp, &this)?;
    let x = arg_at(&args, 0);
    match &interp.heap[id].kind {
        ObjectKind::Array(elems) => {
            let len = elems.len() as i128;
            let from: i128 = if args.len() < 2 {
                len - 1
            } else {
                let n = int_arg(interp, &args, 1) as i128;
                if n < 0 {
                    if len + n < -1 {
                        -1
                    } else {
                        len + n
                    }
                } else if n < len - 1 {
                    n
                } else {
                    len - 1
                }
            };
            proof {
                lemma_last_index_same(elems@, x, if args@.len() > 0 { args@[0] } else { JsValue::Undefined }, from as int);
            }
            Ok(index_value(search_backward(elems, &x, from)))
        },
        _ => Ok(index_value(None)),
    }
}

/// Searches `elems[..=from]` backwards for a value `===` to `x`.
fn search_backward(elems: &Vec<JsValue>, x: &JsValue, from: i128) -> (r: Option<usize>)
    requires
        from < elems@.len(),
    ensures
        (match r {
            Some(i) => i as int == last_index_from(elems@, *x, from as int),
            None => -1 == last_index_from(elems@, *x, from as int),
        }),
{
    if from < 0 {
        return None;
    }
    let n = elems.len();
    assert(from < n as i128);
    let mut i: usize = from as usize;
    loop
        invariant
            i < elems@.len(),
            last_index_from(elems@, *x, from as int) == last_index_from(elems@, *x, i as int),
        decreases i,
    {
        if strict_equals(&elems[i], x) {
            return Some(i);
        }
        if i == 0 {
            assert(last_index_from(elems@, *x, -1) == -1);
            return None;
        }
        i = i - 1;
    }
}

/// Searching backwards for two values that are the same finds the same index.
proof fn lemma_last_index_same(s: Seq<JsValue>, x: JsValue, y: JsValue, from: int)
    requires
        same_value(x, y),
    ensures
        last_index_from(s, x, from) == last_index_from(s, y, from),
    decreases from + 1,
{
    if 0 <= from < s.len() {
        lemma_last_index_same(s, x, y, from - 1);
    }
}

/// Copies of `src[start..end]`.
fn copy_range(src: &Vec<JsValue>, start: usize, end: usize) -> (r: Vec<JsValue>)
    requires
        start <= src@.len(),
        end <= src@.len(),
    ensures
        same_seq(r@, slice_of(src@, start as int, end as int)),
{
    let mut out: Vec<JsValue> = Vec::new();
    let mut i = start;
    while i < end
        invariant
            start <= i,
            end <= src@.len(),
            i <= end || start >= end,
            start >= end ==> i == start,
            out@.len() == i - start,
            forall|j: int| 0 <= j < out@.len() ==> same_value(#[trigger] out@[j], src@[start + j]),
        decreases end - i,
    {
        out.push(src[i].copy());
        i = i + 1;
    }
    out
}

/// `arr.slice(start, end)`: a new array holding `arr[start..end]`.
pub fn array_slice(interp: &mut Interpreter, this: JsValue, args: Vec<JsValue>) -> (r: Result<
    JsValue,
    JsError,
>)
    ensures
        (match array_value(old(interp), this) {
            Some(s) => {
                &&& r == Ok::<JsValue, JsError>(JsValue::Object(old(interp).heap.len()))
                &&& final(interp).added_one(old(interp))
                &&& final(interp).array_at(old(interp).heap.len()) matches Some(t) && (position_arg(
                    args@,
                    0,
                    0,
                    s.len() as int,
                ) matches Some(st) ==> (position_arg(args@, 1, s.len() as int, s.len() as int) matches Some(
                    en,
                ) ==> same_seq(t, slice_of(s, st, en))))
            },
            None => is_type_error(r) && *final(interp) == *old(interp),
        }),
{
    let id = this_array(interp, &this)?;
    let out = match &interp.heap[id].kind {
        ObjectKind::Array(elems) => {
            let len = elems.len();
            let start = position(interp, &args, 0, 0, len);
            let end = position(interp, &args, 1, len, len);
            copy_range(elems, start, end)
        },
        _ => Vec::new(),
    };
    Ok(new_array_value(interp, out))
}

/// What `concat` contributes for a value: an array's elements, or the value itself.
pub open spec fn concat_piece(interp: &Interpreter, v: JsValue) -> Seq<JsValue> {
    match array_value(interp, v) {
        Some(s) => s,
        None => seq![v],
    }
}

/// The concatenation of the pieces of `vals`.
pub open spec fn concat_all(interp: &Interpreter, vals: Seq<JsValue>) -> Seq<JsValue>
    decreases vals.len(),
{
    if vals.len() == 0 {
        Seq::empty()
    } else {
        concat_all(interp, vals.drop_last()) + concat_piece(interp, vals.last())
    }
}

/// Appends copies of the piece of `v` to `out`.
fn push_piece(interp: &Interpreter, out: &mut Vec<JsValue>, v: &JsValue)
    ensures
        same_seq(final(out)@, old(out)@ + concat_piece(interp, *v)),
{
    let ghost o = out@;
    match v {
        JsValue::Object(id) => {
            if interp.is_array(v) {
                match &interp.heap[*id].kind {
                    ObjectKind::Array(elems) => {
                        let mut i: usize = 0;
                        while i < elems.len()
                            invariant
                                i <= elems@.len(),
                                out@.len() == o.len() + i,
                                forall|j: int| 0 <= j < o.len() ==> #[trigger] out@[j] == o[j],
                                forall|j: int|
                                    0 <= j < i ==> same_value(#[trigger] out@[o.len() + j], elems@[j]),
                            decreases elems@.len() - i,
                        {
                            out.push(elems[i].copy());
                            i = i + 1;
                        }
                        assert forall|j: int| 0 <= j < out@.len() implies same_value(
                            #[trigger] out@[j],
                            (o + concat_piece(interp, *v))[j],
                        ) by {
                            if j >= o.len() {
                                assert(out@[o.len() + (j - o.len())] == out@[j]);
                            }
                        }
                        return;
                    },
                    _ => {},
                }
            }
        },
        _ => {},
    }
    out.push(v.copy());
    assert forall|j: int| 0 <= j < out@.len() implies same_value(
        #[trigger] out@[j],
        (o + concat_piece(interp, *v))[j],
    ) by {}
}

/// `arr.concat(...values)`: a new array of `this` and the values, arrays spread one level.
pub fn array_concat(interp: &mut Interpreter, this: JsValue, args: Vec<JsValue>) -> (r: Result<
    JsValue,
    JsError,
>)
    ensures
        r == Ok::<JsValue, JsError>(JsValue::Object(old(interp).heap.len())),
        final(interp).added_one(old(interp)),
        final(interp).array_at(old(interp).heap.len()) matches Some(t) && same_seq(
            t,
            concat_all(old(interp), seq![this] + args@),
        ),
{
    let mut out: Vec<JsValue> = Vec::new();
    push_piece(interp, &mut out, &this);
    let ghost vals = seq![this] + args@;
    proof {
        assert(seq![this] =~= vals.subrange(0, 1));
        assert(vals.subrange(0, 1).drop_last() =~= Seq::<JsValue>::empty());
        assert(vals.subrange(0, 1).last() == this);
        assert(concat_all(interp, Seq::<JsValue>::empty()) =~= Seq::<JsValue>::empty());
        assert(Seq::<JsValue>::empty() + concat_piece(interp, this) =~= concat_piece(interp, this));
        assert(concat_all(interp, vals.subrange(0, 1)) =~= concat_piece(interp, this));
        assert(same_seq(out@, concat_all(interp, vals.subrange(0, 1))));
    }
    let mut i: usize = 0;
    while i < args.len()
        invariant
            i <= args@.len(),
            vals == seq![this] + args@,
            same_seq(out@, concat_all(interp, vals.subrange(0, i + 1))),
        decreases args@.len() - i,
    {
        let ghost before = out@;
        push_piece(interp, &mut out, &args[i]);
        proof {
            assert(vals.subrange(0, i + 2).drop_last() =~= vals.subrange(0, i + 1));
            assert(vals.subrange(0, i + 2).last() == args@[i as int]);
            let c = concat_all(interp, vals.subrange(0, i + 1));
            assert forall|j: int| 0 <= j < out@.len() implies same_value(
                #[trigger] out@[j],
                (c + concat_piece(interp, args@[i as int]))[j],
            ) by {
                if j < before.len() {
                    assert(same_value(out@[j], (before + concat_piece(interp, args@[i as int]))[j]));
                }
            }
        }
        i = i + 1;
    }
    proof {
        assert(vals.subrange(0, args@.len() as int + 1) =~= vals);
    }
    Ok(new_array_value(interp, out))
}

/// `arr.toReversed()`: a new array with the elements in reverse order.
pub fn array_to_reversed(interp: &mut Interpreter, this: JsValue, args: Vec<JsValue>) -> (r: Result<
    JsValue,
    JsError,
>)
    ensures
        (match array_value(old(interp), this) {
            Some(s) => {
                &&& r == Ok::<JsValue, JsError>(JsValue::Object(old(interp).heap.len()))
                &&& final(interp).added_one(old(interp))
                &&& final(interp).array_at(old(interp).heap.len()) matches Some(t) && same_seq(
                    t,
                    reversed(s),
                )
            },
            None => is_type_error(r) && *final(interp) == *old(interp),
        }),
{
    let id = this_array(interp, &this)?;
    let mut out: Vec<JsValue> = Vec::new();
    match &interp.heap[id].kind {
        ObjectKind::Array(elems) => {
            let n = elems.len();
            let mut i: usize = 0;
            while i < n
                invariant
                    n == elems@.len(),
                    i <= n,
                    out@.len() == i,
                    forall|j: int| 0 <= j < i ==> same_value(#[trigger] out@[j], elems@[n - 1 - j]),
                decreases n - i,
            {
                out.push(elems[n - 1 - i].copy());
                i = i + 1;
            }
        },
        _ => {},
    }
    Ok(new_array_value(interp, out))
}

/// `arr.toSpliced(start, count, ...items)`: a new array with `count` elements at `start`
/// replaced by the items.
pub fn array_to_spliced(interp: &mut Interpreter, this: JsValue, args: Vec<JsValue>) -> (r: Result<
    JsValue,
    JsError,
>)
    ensures
        (match array_value(old(interp), this) {
            Some(s) => {
                &&& r == Ok::<JsValue, JsError>(JsValue::Object(old(interp).heap.len()))
                &&& final(interp).added_one(old(interp))
                &&& final(interp).array_at(old(interp).heap.len()) matches Some(t) && (position_arg(
                    args@,
                    0,
                    0,
                    s.len() as int,
                ) matches Some(st) ==> (count_arg(args@, 1, s.len() - st, s.len() - st) matches Some(
                    dc,
                ) ==> same_seq(t, spliced(s, st, dc, items_from_2(args@)))))
            },
            None => is_type_error(r) && *final(interp) == *old(interp),
        }),
{
    let id = this_array(interp, &this)?;
    let mut out: Vec<JsValue> = Vec::new();
    match &interp.heap[id].kind {
        ObjectKind::Array(elems) => {
            let len = elems.len();
            let start = position(interp, &args, 0, 0, len);
            let avail = len - start;
            let count: usize = if args.len() > 1 {
                let n = int_arg(interp, &args, 1);
                if n < 0 {
                    0
                } else if n as u64 > avail as u64 {
                    avail
                } else {
                    n as usize
                }
            } else {
                avail
            };
            let mut head = copy_range(elems, 0, start);
            let mut tail = copy_range(elems, start + count, len);
            let mut items = copy_range(&args, if args.len() < 2 { args.len() } else { 2 }, args.len());
            proof {
                let s = elems@;
                assert(slice_of(s, 0, start as int) =~= s.subrange(0, start as int));
                assert(slice_of(s, start + count, len as int) =~= s.subrange(start + count, s.len() as int));
                assert(slice_of(args@, if args@.len() < 2 { args@.len() as int } else { 2 }, args@.len() as int)
                    =~= items_from_2(args@));
                lemma_same_seq_add(head@, s.subrange(0, start as int), items@, items_from_2(args@));
                lemma_same_seq_add(
                    head@ + items@,
                    s.subrange(0, start as int) + items_from_2(args@),
                    tail@,
                    s.subrange(start + count, s.len() as int),
                );
            }
            head.append(&mut items);
            head.append(&mut tail);
            out = head;
        },
        _ => {},
    }
    Ok(new_array_value(interp, out))
}

/// `arr.with(i, v)`: a new array with position `i` (negative from the end) set to `v`;
/// a `RangeError` when `i` is out of range.
pub fn array_with(interp: &mut Interpreter, this: JsValue, args: Vec<JsValue>) -> (r: Result<
    JsValue,
    JsError,
>)
    ensures
        final(interp).grows(old(interp)),
        (match array_value(old(interp), this) {
            Some(s) => (int_arg_value(if args@.len() > 0 { args@[0] } else { JsValue::Undefined })
                matches Some(n) ==> (if 0 <= at_position(n, s.len() as int) < s.len() {
                &&& r == Ok::<JsValue, JsError>(JsValue::Object(old(interp).heap.len()))
                &&& final(interp).added_one(old(interp))
                &&& final(interp).array_at(old(interp).heap.len()) matches Some(t) && same_seq(
                    t,
                    s.update(
                        at_position(n, s.len() as int),
                        if args@.len() > 1 { args@[1] } else { JsValue::Undefined },
                    ),
                )
            } else {
                (r matches Err(JsError::Raised(k, m)) && k == ErrorKind::RangeError && m@ == "Invalid index"@)
                    && *final(interp) == *old(interp)
            })),
            None => is_type_error(r) && *final(interp) == *old(interp),
        }),
{
    let id = this_array(interp, &this)?;
    let n = int_arg(interp, &args, 0);
    let v = arg_at(&args, 1);
    let out = match &interp.heap[id].kind {
        ObjectKind::Array(elems) => {
            let len = elems.len() as i128;
            let k: i128 = if n < 0 {
                len + n as i128
            } else {
                n as i128
            };
            if k < 0 || k >= len {
                return Err(raise(ErrorKind::RangeError, "Invalid index"));
            }
            let mut out = copy_values(elems);
            let ghost before = out@;
            out.set(k as usize, v);
            proof {
                assert forall|j: int| 0 <= j < out@.len() implies same_value(
                    #[trigger] out@[j],
                    elems@.update(k as int, if args@.len() > 1 { args@[1] } else { JsValue::Undefined })[j],
                ) by {
                    if j != k as int {
                        assert(same_value(before[j], elems@[j]));
                    }
                }
            }
            out
        },
        _ => Vec::new(),
    };
    Ok(new_array_value(interp, out))
}

/// `arr.keys()`: a new array of the indices.
pub fn array_keys(interp: &mut Interpreter, this: JsValue, args: Vec<JsValue>) -> (r: Result<
    JsValue,
    JsError,
>)
    ensures
        (match array_value(old(interp), this) {
            Some(s) => {
                &&& r == Ok::<JsValue, JsError>(JsValue::Object(old(interp).heap.len()))
                &&& final(interp).added_one(old(interp))
                &&& final(interp).array_at(old(interp).heap.len()) matches Some(t) && t.len() == s.len()
                    && forall|i: int| 0 <= i < t.len() ==> is_count(#[trigger] t[i], i)
            },
            None => is_type_error(r) && *final(interp) == *old(interp),
        }),
{
    let id = this_array(interp, &this)?;
    let n = match &interp.heap[id].kind {
        ObjectKind::Array(elems) => elems.len(),
        _ => 0,
    };
    let mut out: Vec<JsValue> = Vec::new();
    let mut i: usize = 0;
    while i < n
        invariant
            i <= n,
            out@.len() == i,
            forall|j: int| 0 <= j < i ==> is_count(#[trigger] out@[j], j),
        decreases n - i,
    {
        out.push(JsValue::from_usize(i));
        i = i + 1;
    }
    Ok(new_array_value(interp, out))
}

/// A copy of element `i` of array `id` as it is now, `undefined` past its end.
fn element_now(interp: &Interpreter, id: usize, i: usize) -> (r: JsValue)
    ensures
        (match interp.array_at(id) {
            Some(s) => if i < s.len() {
                same_value(r, s[i as int])
            } else {
                r == JsValue::Undefined
            },
            None => r == JsValue::Undefined,
        }),
{
    if id >= interp.heap.len() {
        return JsValue::Undefined;
    }
    match &interp.heap[id].kind {
        ObjectKind::Array(elems) => if i < elems.len() {
            elems[i].copy()
        } else {
            JsValue::Undefined
        },
        _ => JsValue::Undefined,
    }
}

/// The current length of array `id` (0 if it is no array).
fn length_now(interp: &Interpreter, id: usize) -> (r: usize)
    ensures
        interp.array_at(id) matches Some(s) ==> r == s.len(),
{
    if id >= interp.heap.len() {
        return 0;
    }
    match &interp.heap[id].kind {
        ObjectKind::Array(elems) => elems.len(),
        _ => 0,
    }
}

/// Calls `cb(element i, i, this)` with `this_arg` as `this`; returns the element and the result.
fn call_on_element(
    interp: &mut Interpreter,
    cb: &JsValue,
    this_arg: &JsValue,
    this: &JsValue,
    id: usize,
    i: usize,
) -> (r: Result<(JsValue, JsValue), JsError>)
    ensures
        final(interp).spends(old(interp), r is Err),
    decreases old(interp).fuel,
{
    interp.step()?;
    let elem = element_now(interp, id, i);
    let argv = vec![elem.copy(), JsValue::from_usize(i), this.copy()];
    let v = interp.call_function(cb.copy(), this_arg.copy(), argv)?;
    Ok((elem, v))
}

/// The callback argument of an iteration method: argument 0 if it is a function.
fn callback_arg(interp: &Interpreter, args: &Vec<JsValue>) -> (r: Result<JsValue, JsError>)
    ensures
        r matches Ok(f) ==> args@.len() > 0 && same_value(f, args@[0]) && interp.is_function(f),
        r is Err <==> !(args@.len() > 0 && interp.is_function(args@[0])),
        r is Err ==> is_type_error(r),
{
    let f = arg_at(args, 0);
    if interp.is_callable(&f) {
        Ok(f)
    } else {
        Err(type_error("callback is not a function"))
    }
}

/// `arr.map(cb, thisArg)`: a new array of `cb(element, index, arr)` for each index.
pub fn array_map(interp: &mut Interpreter, this: JsValue, args: Vec<JsValue>) -> (r: Result<
    JsValue,
    JsError,
>)
    ensures
        final(interp).spends(old(interp), r is Err),
        array_value(old(interp), this) is None ==> is_type_error(r),
        (array_value(old(interp), this) is Some && !(args@.len() > 0 && old(interp).is_function(args@[0])))
            ==> is_type_error(r),
        r matches Ok(v) ==> (v matches JsValue::Object(rid) && final(interp).array_at(rid) matches Some(t)
            && array_value(old(interp), this) matches Some(s) && t.len() == s.len()),
    decreases old(interp).fuel,
{
    let id = this_array(interp, &this)?;
    let cb = callback_arg(interp, &args)?;
    let this_arg = arg_at(&args, 1);
    let len = length_now(interp, id);
    interp.step()?;
    let mut out: Vec<JsValue> = Vec::new();
    let mut i: usize = 0;
    while i < len
        invariant
            interp.spends(old(interp), false),
            array_value(old(interp), this) is Some,
            args@.len() > 0 && old(interp).is_function(args@[0]),
            i <= len,
            out@.len() == i,
        decreases len - i,
    {
        let (_, v) = call_on_element(interp, &cb, &this_arg, &this, id, i)?;
        out.push(v);
        i = i + 1;
    }
    Ok(new_array_value(interp, out))
}

/// `arr.filter(cb, thisArg)`: a new array of the elements for which `cb` returns a truthy value.
pub fn array_filter(interp: &mut Interpreter, this: JsValue, args: Vec<JsValue>) -> (r: Result<
    JsValue,
    JsError,
>)
    ensures
        final(interp).spends(old(interp), r is Err),
        array_value(old(interp), this) is None ==> is_type_error(r),
        (array_value(old(interp), this) is Some && !(args@.len() > 0 && old(interp).is_function(args@[0])))
            ==> is_type_error(r),
        r matches Ok(v) ==> (v matches JsValue::Object(rid) && final(interp).array_at(rid) matches Some(t)
            && array_value(old(interp), this) matches Some(s) && t.len() <= s.len()),
    decreases old(interp).fuel,
{
    let id = this_array(interp, &this)?;
    let cb = callback_arg(interp, &args)?;
    let this_arg = arg_at(&args, 1);
    let len = length_now(interp, id);
    interp.step()?;
    let mut out: Vec<JsValue> = Vec::new();
    let mut i: usize = 0;
    while i < len
        invariant
            interp.spends(old(interp), false),
            array_value(old(interp), this) is Some,
            args@.len() > 0 && old(interp).is_function(args@[0]),
            i <= len,
            out@.len() <= i,
        decreases len - i,
    {
        let (elem, keep) = call_on_element(interp, &cb, &this_arg, &this, id, i)?;
        if keep.to_boolean() {
            out.push(elem);
        }
        i = i + 1;
    }
    Ok(new_array_value(interp, out))
}

/// `arr.forEach(cb, thisArg)`: calls `cb(element, index, arr)` for each index.
pub fn array_foreach(interp: &mut Interpreter, this: JsValue, args: Vec<JsValue>) -> (r: Result<
    JsValue,
    JsError,
>)
    ensures
        final(interp).spends(old(interp), r is Err),
        array_value(old(interp), this) is None ==> is_type_error(r),
        (array_value(old(interp), this) is Some && !(args@.len() > 0 && old(interp).is_function(args@[0])))
            ==> is_type_error(r),
        r is Ok ==> r == Ok::<JsValue, JsError>(JsValue::Undefined),
    decreases old(interp).fuel,
{
    let id = this_array(interp, &this)?;
    let cb = callback_arg(interp, &args)?;
    let this_arg = arg_at(&args, 1);
    let len = length_now(interp, id);
    interp.step()?;
    let mut i: usize = 0;
    while i < len
        invariant
            interp.spends(old(interp), false),
            array_value(old(interp), this) is Some,
            args@.len() > 0 && old(interp).is_function(args@[0]),
            i <= len,
        decreases len - i,
    {
        call_on_element(interp, &cb, &this_arg, &this, id, i)?;
        i = i + 1;
    }
    Ok(JsValue::Undefined)
}

/// Which element a search method reports.
#[derive(Clone, Copy, PartialEq, Eq, Structural)]
pub enum SearchKind {
    /// The element (`find`, `findLast`).
    Element,
    /// The index (`findIndex`, `findLastIndex`).
    Index,
    /// Whether one was found (`some`).
    Any,
    /// Whether all passed (`every`).
    All,
}

/// Shared loop of `find`, `findIndex`, `findLast`, `findLastIndex`, `some` and `every`:
/// visits the indices in order (backwards when `backwards` is set) until `cb` decides.
fn search_with_callback(
    interp: &mut Interpreter,
    this: JsValue,
    args: Vec<JsValue>,
    kind: SearchKind,
    backwards: bool,
) -> (r: Result<JsValue, JsError>)
    ensures
        final(interp).spends(old(interp), r is Err),
        array_value(old(interp), this) is None ==> is_type_error(r),
        (array_value(old(interp), this) is Some && !(args@.len() > 0 && old(interp).is_function(args@[0])))
            ==> is_type_error(r),
        (array_value(old(interp), this) matches Some(s) && s.len() == 0) ==> (r matches Ok(v) ==> v == (
            match kind {
                SearchKind::Element => JsValue::Undefined,
                SearchKind::Index => JsValue::Number(spec_int(-1)),
                SearchKind::Any => JsValue::Boolean(false),
                SearchKind::All => JsValue::Boolean(true),
            })),
        r matches Ok(v) ==> (match kind {
            SearchKind::Index => v == JsValue::Number(spec_int(-1)) || (exists|i: int| 0 <= i && is_count(v, i)
                && (array_value(old(interp), this) matches Some(s) && i < s.len())),
            SearchKind::Any => v is Boolean,
            SearchKind::All => v is Boolean,
            SearchKind::Element => true,
        }),
    decreases old(interp).fuel,
{
    let id = this_array(interp, &this)?;
    let cb = callback_arg(interp, &args)?;
    let this_arg = arg_at(&args, 1);
    let len = length_now(interp, id);
    interp.step()?;
    let mut k: usize = 0;
    while k < len
        invariant
            interp.spends(old(interp), false),
            array_value(old(interp), this) is Some,
            this == JsValue::Object(id),
            args@.len() > 0 && old(interp).is_function(args@[0]),
            k <= len,
            old(interp).array_at(id) matches Some(s) && len == s.len(),
        decreases len - k,
    {
        let i = if backwards {
            len - 1 - k
        } else {
            k
        };
        let (elem, res) = call_on_element(interp, &cb, &this_arg, &this, id, i)?;
        let hit = res.to_boolean();
        match kind {
            SearchKind::Element => if hit {
                return Ok(elem);
            },
            SearchKind::Index => if hit {
                let v = JsValue::from_usize(i);
                assert(is_count(v, i as int));
                return Ok(v);
            },
            SearchKind::Any => if hit {
                return Ok(JsValue::Boolean(true));
            },
            SearchKind::All => if !hit {
                return Ok(JsValue::Boolean(false));
            },
        }
        k = k + 1;
    }
    match kind {
        SearchKind::Element => Ok(JsValue::Undefined),
        SearchKind::Index => Ok(JsValue::Number(JsNumber::from_i64(-1))),
        SearchKind::Any => Ok(JsValue::Boolean(false)),
        SearchKind::All => Ok(JsValue::Boolean(true)),
    }
}

/// `arr.find(cb, thisArg)`: the first element for which `cb` is truthy, else `undefined`.
pub fn array_find(interp: &mut Interpreter, this: JsValue, args: Vec<JsValue>) -> (r: Result<
    JsValue,
    JsError,
>)
    ensures
        final(interp).spends(old(interp), r is Err),
        array_value(old(interp), this) is None ==> is_type_error(r),
        (array_value(old(interp), this) is Some && !(args@.len() > 0 && old(interp).is_function(args@[0])))
            ==> is_type_error(r),
        (array_value(old(interp), this) matches Some(s) && s.len() == 0) ==> (r matches Ok(v) ==> v == JsValue::Undefined),
    decreases old(interp).fuel,
{
    this_array(interp, &this)?;
    callback_arg(interp, &args)?;
    interp.step()?;
    search_with_callback(interp, this, args, SearchKind::Element, false)
}

/// `arr.findIndex(cb, thisArg)`: the first index for which `cb` is truthy, else -1.
pub fn array_find_index(interp: &mut Interpreter, this: JsValue, args: Vec<JsValue>) -> (r: Result<
    JsValue,
    JsError,
>)
    ensures
        final(interp).spends(old(interp), r is Err),
        array_value(old(interp), this) is None ==> is_type_error(r),
        (array_value(old(interp), this) is Some && !(args@.len() > 0 && old(interp).is_function(args@[0])))
            ==> is_type_error(r),
        r matches Ok(v) ==> v == JsValue::Number(spec_int(-1)) || (exists|i: int| 0 <= i && is_count(v, i)
            && (array_value(old(interp), this) matches Some(s) && i < s.len())),
    decreases old(interp).fuel,
{
    this_array(interp, &this)?;
    callback_arg(interp, &args)?;
    interp.step()?;
    search_with_callback(interp, this, args, SearchKind::Index, false)
}

/// `arr.findLast(cb, thisArg)`: the last element for which `cb` is truthy, else `undefined`.
pub fn array_find_last(interp: &mut Interpreter, this: JsValue, args: Vec<JsValue>) -> (r: Result<
    JsValue,
    JsError,
>)
    ensures
        final(interp).spends(old(interp), r is Err),
        array_value(old(interp), this) is None ==> is_type_error(r),
        (array_value(old(interp), this) is Some && !(args@.len() > 0 && old(interp).is_function(args@[0])))
            ==> is_type_error(r),
        (array_value(old(interp), this) matches Some(s) && s.len() == 0) ==> (r matches Ok(v) ==> v == JsValue::Undefined),
    decreases old(interp).fuel,
{
    this_array(interp, &this)?;
    callback_arg(interp, &args)?;
    interp.step()?;
    search_with_callback(interp, this, args, SearchKind::Element, true)
}

/// `arr.findLastIndex(cb, thisArg)`: the last index for which `cb` is truthy, else -1.
pub fn array_find_last_index(interp: &mut Interpreter, this: JsValue, args: Vec<JsValue>) -> (r: Result<
    JsValue,
    JsError,
>)
    ensures
        final(interp).spends(old(interp), r is Err),
        array_value(old(interp), this) is None ==> is_type_error(r),
        (array_value(old(interp), this) is Some && !(args@.len() > 0 && old(interp).is_function(args@[0])))
            ==> is_type_error(r),
        r matches Ok(v) ==> v == JsValue::Number(spec_int(-1)) || (exists|i: int| 0 <= i && is_count(v, i)
            && (array_value(old(interp), this) matches Some(s) && i < s.len())),
    decreases old(interp).fuel,
{
    this_array(interp, &this)?;
    callback_arg(interp, &args)?;
    interp.step()?;
    search_with_callback(interp, this, args, SearchKind::Index, true)
}

/// `arr.some(cb, thisArg)`: whether `cb` is truthy for some element.
pub fn array_some(interp: &mut Interpreter, this: JsValue, args: Vec<JsValue>) -> (r: Result<
    JsValue,
    JsError,
>)
    ensures
        final(interp).spends(old(interp), r is Err),
        array_value(old(interp), this) is None ==> is_type_error(r),
        (array_value(old(interp), this) is Some && !(args@.len() > 0 && old(interp).is_function(args@[0])))
            ==> is_type_error(r),
        (array_value(old(interp), this) matches Some(s) && s.len() == 0) ==> (r matches Ok(v) ==> v == JsValue::Boolean(false)),
        r matches Ok(v) ==> v is Boolean,
    decreases old(interp).fuel,
{
    this_array(interp, &this)?;
    callback_arg(interp, &args)?;
    interp.step()?;
    search_with_callback(interp, this, args, SearchKind::Any, false)
}

/// `arr.every(cb, thisArg)`: whether `cb` is truthy for every element.
pub fn array_every(interp: &mut Interpreter, this: JsValue, args: Vec<JsValue>) -> (r: Result<
    JsValue,
    JsError,
>)
    ensures
        final(interp).spends(old(interp), r is Err),
        array_value(old(interp), this) is None ==> is_type_error(r),
        (array_value(old(interp), this) is Some && !(args@.len() > 0 && old(interp).is_function(args@[0])))
            ==> is_type_error(r),
        (array_value(old(interp), this) matches Some(s) && s.len() == 0) ==> (r matches Ok(v) ==> v == JsValue::Boolean(true)),
        r matches Ok(v) ==> v is Boolean,
    decreases old(interp).fuel,
{
    this_array(interp, &this)?;
    callback_arg(interp, &args)?;
    interp.step()?;
    search_with_callback(interp, this, args, SearchKind::All, false)
}

/// The elements of array `v` converted to text and joined with `sep`
/// (`undefined` and `null` give empty parts); empty for a value that is no array.
pub fn join_values(interp: &mut Interpreter, v: &JsValue, sep: &Vec<char>) -> (r: Result<
    Vec<char>,
    JsError,
>)
    ensures
        final(interp).spends(old(interp), r is Err) || *final(interp) == *old(interp),
        array_value(old(interp), *v) is None ==> (r matches Ok(t) && t@.len() == 0),
        (match array_value(old(interp), *v) {
            Some(s) => (all_plain(s) ==> (r matches Ok(t) ==> t@ == join_texts(s, sep@))) && (all_plain(s)
                && old(interp).fuel > s.len() + 1 ==> r is Ok),
            None => true,
        }),
    decreases old(interp).fuel,
{
    let id = match v {
        JsValue::Object(id) => {
            if !interp.is_array(v) {
                return Ok(Vec::new());
            }
            *id
        },
        _ => {
            return Ok(Vec::new());
        },
    };
    let elems = elements_of(interp, id);
    let ghost s = old(interp).array_at(id).unwrap();
    interp.step()?;
    let mut out: Vec<char> = Vec::new();
    let mut i: usize = 0;
    while i < elems.len()
        invariant
            interp.spends(old(interp), false),
            array_value(old(interp), *v) is Some,
            i <= elems@.len(),
            same_seq(elems@, s),
            all_plain(s) ==> out@ == join_texts(s.take(i as int), sep@),
            all_plain(s) ==> interp.fuel + i + 1 >= old(interp).fuel,
            *v == JsValue::Object(id),
            s == old(interp).array_at(id).unwrap(),
        decreases elems@.len() - i,
    {
        proof {
            if all_plain(s) {
                assert(same_value(elems@[i as int], s[i as int]));
                assert(join_part(s[i as int]) is Some);
                assert(plain_text(elems@[i as int]) is Some);
                if old(interp).fuel > s.len() + 1 {
                    assert(interp.fuel > 0);
                }
            }
        }
        let ghost before = out@;
        if i > 0 {
            append_chars(&mut out, sep.as_slice());
        }
        let part = match &elems[i] {
            JsValue::Undefined => Vec::new(),
            JsValue::Null => Vec::new(),
            x => interp.to_js_string(x)?,
        };
        append_chars(&mut out, part.as_slice());
        proof {
            if all_plain(s) {
                assert(same_value(elems@[i as int], s[i as int]));
                assert(join_part(s[i as int]) is Some);
                let t = s.take(i + 1);
                assert(t.drop_last() =~= s.take(i as int));
                assert(t.last() == s[i as int]);
                if i == 0 {
                    assert(out@ =~= join_texts(t, sep@));
                } else {
                    assert(out@ =~= before + sep@ + part@);
                }
            }
        }
        i = i + 1;
    }
    proof {
        assert(s.take(elems@.len() as int) =~= s);
    }
    Ok(out)
}

/// `arr.join(sep)`: the elements as text separated by `sep` (`","` by default).
pub fn array_join(interp: &mut Interpreter, this: JsValue, args: Vec<JsValue>) -> (r: Result<
    JsValue,
    JsError,
>)
    ensures
        final(interp).spends(old(interp), r is Err) || *final(interp) == *old(interp),
        array_value(old(interp), this) is None ==> is_type_error(r),
        (match array_value(old(interp), this) {
            Some(s) => {
                &&& (all_plain(s) && (args@.len() == 0 || args@[0] is Undefined || args@[0] is String)
                    && old(interp).fuel > s.len() + 2) ==> r is Ok
                &&& (all_plain(s) && (args@.len() == 0 || args@[0] is Undefined)) ==> (r matches Ok(v)
                    ==> v matches JsValue::String(t) && t@ == join_texts(s, ","@))
                &&& (all_plain(s) && args@.len() > 0 && args@[0] is String) ==> (r matches Ok(v) ==> v
                    matches JsValue::String(t) && t@ == join_texts(s, args@[0]->String_0@))
            },
            None => true,
        }),
    decreases old(interp).fuel,
{
    this_array(interp, &this)?;
    interp.step()?;
    let sep: Vec<char> = if args.len() == 0 {
        chars_of(",")
    } else {
        match &args[0] {
            JsValue::Undefined => chars_of(","),
            JsValue::String(t) => copy_chars(t),
            other => interp.to_js_string(other)?,
        }
    };
    proof {
        reveal_strlit(",");
    }
    let t = join_values(interp, &this, &sep)?;
    Ok(JsValue::String(t))
}

/// `arr.toString()`: the same as `arr.join()`.
pub fn array_to_string(interp: &mut Interpreter, this: JsValue, args: Vec<JsValue>) -> (r: Result<
    JsValue,
    JsError,
>)
    ensures
        final(interp).spends(old(interp), r is Err) || *final(interp) == *old(interp),
        array_value(old(interp), this) is None ==> is_type_error(r),
        (match array_value(old(interp), this) {
            Some(s) => (all_plain(s) ==> (r matches Ok(v) ==> v matches JsValue::String(t) && t@
                == join_texts(s, ","@))) && (all_plain(s) && old(interp).fuel > s.len() + 3 ==> r is Ok),
            None => true,
        }),
    decreases old(interp).fuel,
{
    this_array(interp, &this)?;
    interp.step()?;
    array_join(interp, this, Vec::new())
}

/// Sorts `v` ascending.
pub fn sort_usizes(v: &mut Vec<usize>)
    ensures
        final(v)@.to_multiset() == old(v)@.to_multiset(),
        forall|i: int, j: int| 0 <= i < j < final(v)@.len() ==> final(v)@[i] <= final(v)@[j],
{
    broadcast use vstd::seq_lib::group_to_multiset_ensures;
    let mut src: Vec<usize> = Vec::new();
    src.append(v);
    let ghost orig = src@;
    let mut out: Vec<usize> = Vec::new();
    let mut k: usize = 0;
    while k < src.len()
        invariant
            src@ == orig,
            k <= src@.len(),
            out@.to_multiset() == orig.take(k as int).to_multiset(),
            forall|i: int, j: int| 0 <= i < j < out@.len() ==> out@[i] <= out@[j],
        decreases src@.len() - k,
    {
        let x = src[k];
        let mut p: usize = 0;
        while p < out.len() && out[p] <= x
            invariant
                p <= out@.len(),
                forall|i: int| 0 <= i < p ==> out@[i] <= x,
            decreases out@.len() - p,
        {
            p = p + 1;
        }
        let ghost before = out@;
        out.insert(p, x);
        proof {
            vstd::seq_lib::to_multiset_insert(before, p as int, x);
            assert(orig.take(k + 1) =~= orig.take(k as int).push(x));
            vstd::seq_lib::to_multiset_build(orig.take(k as int), x);
            assert forall|i: int, j: int| 0 <= i < j < out@.len() implies out@[i] <= out@[j] by {
                if p < before.len() {
                    assert(before[p as int] > x);
                }
            }
        }
        k = k + 1;
    }
    proof {
        assert(orig.take(orig.len() as int) =~= orig);
    }
    *v = out;
}

/// `p` lists each of `0..n` exactly once.
pub open spec fn is_perm(p: Seq<usize>, n: int) -> bool {
    &&& p.len() == n
    &&& forall|i: int| 0 <= i < p.len() ==> #[trigger] p[i] < n
    &&& forall|i: int, j: int| 0 <= i < p.len() && 0 <= j < p.len() && i != j ==> p[i] != p[j]
}

/// `t` holds the first `s.len()` values of a rearrangement of `s`.
pub open spec fn rearranged(t: Seq<JsValue>, s: Seq<JsValue>) -> bool {
    &&& t.len() >= s.len()
    &&& exists|p: Seq<usize>|
        is_perm(p, s.len() as int) && forall|i: int| 0 <= i < s.len() ==> same_value(#[trigger] t[i], s[p[i] as int])
}

/// Swapping two neighbours keeps a permutation one.
proof fn lemma_swap_perm(p: Seq<usize>, n: int, j: int)
    requires
        is_perm(p, n),
        0 <= j,
        j + 1 < p.len(),
    ensures
        is_perm(p.update(j, p[j + 1]).update(j + 1, p[j]), n),
{
    let q = p.update(j, p[j + 1]).update(j + 1, p[j]);
    assert forall|a: int, b: int| 0 <= a < q.len() && 0 <= b < q.len() && a != b implies q[a] != q[b] by {
        let pa = if a == j { j + 1 } else if a == j + 1 { j } else { a };
        let pb = if b == j { j + 1 } else if b == j + 1 { j } else { b };
        assert(q[a] == p[pa]);
        assert(q[b] == p[pb]);
    }
}

/// Indices `0..keys.len()` ordered by their keys, equal keys keeping their order.
fn sort_indices_by_text(keys: &Vec<Vec<char>>) -> (p: Vec<usize>)
    ensures
        is_perm(p@, keys@.len() as int),
        forall|i: int, j: int| 0 <= i < j < p@.len() ==> text_le(keys@[p@[i] as int]@, keys@[p@[j] as int]@),
{
    let n = keys.len();
    let mut out: Vec<usize> = Vec::new();
    let mut k: usize = 0;
    while k < n
        invariant
            n == keys@.len(),
            k <= n,
            is_perm(out@, k as int),
            forall|i: int, j: int| 0 <= i < j < out@.len() ==> text_le(keys@[out@[i] as int]@, keys@[out@[j] as int]@),
        decreases n - k,
    {
        let mut q: usize = 0;
        while q < out.len() && text_le_exec(keys[out[q]].as_slice(), keys[k].as_slice())
            invariant
                n == keys@.len(),
                k < n,
                q <= out@.len(),
                is_perm(out@, k as int),
                forall|i: int| 0 <= i < q ==> text_le(keys@[out@[i] as int]@, keys@[k as int]@),
            decreases out@.len() - q,
        {
            q = q + 1;
        }
        let ghost before = out@;
        out.insert(q, k);
        proof {
            let kk = keys@[k as int]@;
            if q < before.len() {
                lemma_text_le_total(keys@[before[q as int] as int]@, kk);
            }
            assert forall|i: int, j: int| 0 <= i < j < out@.len() implies text_le(
                keys@[out@[i] as int]@,
                keys@[out@[j] as int]@,
            ) by {
                if i < q && j == q {
                } else if i < q && j > q {
                    if j > q + 1 {
                        lemma_text_le_trans(kk, keys@[before[q as int] as int]@, keys@[before[j - 1] as int]@);
                    }
                    lemma_text_le_trans(keys@[out@[i] as int]@, kk, keys@[out@[j] as int]@);
                } else if i == q {
                    if j > q + 1 {
                        lemma_text_le_trans(kk, keys@[before[q as int] as int]@, keys@[before[j - 1] as int]@);
                    }
                } else {
                }
            }
            assert forall|a: int, b: int| 0 <= a < out@.len() && 0 <= b < out@.len() && a != b implies out@[a]
                != out@[b] by {
                let pa = if a < q { a } else { a - 1 };
                let pb = if b < q { b } else { b - 1 };
                if a != q && b != q {
                    assert(out@[a] == before[pa]);
                    assert(out@[b] == before[pb]);
                }
            }
            assert forall|i: int| 0 <= i < out@.len() implies #[trigger] out@[i] < k + 1 by {
                if i != q {
                    let pi = if i < q { i } else { i - 1 };
                    assert(out@[i] == before[pi]);
                }
            }
        }
        k = k + 1;
    }
    out
}

/// Copies of `elems` in the order `p`.
fn permuted(elems: &Vec<JsValue>, p: &Vec<usize>) -> (r: Vec<JsValue>)
    requires
        is_perm(p@, elems@.len() as int),
    ensures
        r@.len() == elems@.len(),
        forall|i: int| 0 <= i < r@.len() ==> same_value(#[trigger] r@[i], elems@[p@[i] as int]),
{
    let mut out: Vec<JsValue> = Vec::new();
    let mut i: usize = 0;
    while i < p.len()
        invariant
            is_perm(p@, elems@.len() as int),
            i <= p@.len(),
            out@.len() == i,
            forall|j: int| 0 <= j < i ==> same_value(#[trigger] out@[j], elems@[p@[j] as int]),
        decreases p@.len() - i,
    {
        out.push(elems[p[i]].copy());
        i = i + 1;
    }
    out
}

/// The identity permutation of `0..n`.
fn identity_perm(n: usize) -> (p: Vec<usize>)
    ensures
        is_perm(p@, n as int),
        forall|i: int| 0 <= i < n ==> #[trigger] p@[i] == i,
{
    let mut out: Vec<usize> = Vec::new();
    let mut i: usize = 0;
    while i < n
        invariant
            i <= n,
            out@.len() == i,
            forall|j: int| 0 <= j < i ==> #[trigger] out@[j] == j,
        decreases n - i,
    {
        out.push(i);
        i = i + 1;
    }
    out
}

/// The number is greater than zero.
fn is_positive(n: &JsNumber) -> (b: bool)
    ensures
        b == (match *n {
            JsNumber::Finite { neg, mant, .. } => !neg && mant != 0,
            JsNumber::Infinity { neg } => !neg,
            JsNumber::NaN => false,
        }),
{
    match *n {
        JsNumber::Finite { neg, mant, .. } => !neg && mant != 0,
        JsNumber::Infinity { neg } => !neg,
        JsNumber::NaN => false,
    }
}

/// Calls the comparator on `a` and `b`: whether it returns a number above zero.
fn compare_greater(interp: &mut Interpreter, order_fn: &JsValue, a: &JsValue, b: &JsValue) -> (r: Result<
    bool,
    JsError,
>)
    ensures
        final(interp).spends(old(interp), r is Err),
    decreases old(interp).fuel,
{
    interp.step()?;
    let res = interp.call_function(order_fn.copy(), JsValue::Undefined, vec![a.copy(), b.copy()])?;
    let n = interp.to_number_primitive(&res);
    Ok(is_positive(&n))
}

/// The order `sort` and `toSorted` put the snapshot `elems` in: by comparator when one is
/// given (bubble sort for `sort`, insertion sort for `toSorted`), else by text.
/// Every element has a plain text (no object among them), so the default order reads
/// no user code.
pub open spec fn plain_elements(s: Seq<JsValue>) -> bool {
    forall|i: int| 0 <= i < s.len() ==> #[trigger] plain_text(s[i]) is Some
}

/// Permutation `p` lists the elements of `s` in ascending order of their texts.
pub open spec fn texts_sorted(s: Seq<JsValue>, p: Seq<usize>) -> bool {
    forall|a: int, b: int|
        0 <= a < b < p.len() ==> text_le(
            plain_text(#[trigger] s[p[a] as int])->0,
            plain_text(#[trigger] s[p[b] as int])->0,
        )
}

/// The elements of `t` are in ascending order of their texts.
pub open spec fn sorted_by_text(t: Seq<JsValue>) -> bool {
    forall|a: int, b: int| 0 <= a < b < t.len() ==> text_le(plain_text(#[trigger] t[a])->0, plain_text(#[trigger] t[b])->0)
}

/// `p` with positions `j` and `j + 1` exchanged.
pub open spec fn swap_next(p: Seq<usize>, j: int) -> Seq<usize> {
    p.update(j, p[j + 1]).update(j + 1, p[j])
}

/// The order `0, 1, …, n - 1`.
pub open spec fn identity_order(n: nat) -> Seq<usize> {
    Seq::new(n, |i: int| i as usize)
}

/// Bubble sort of the order `p` from pass `i`, position `j` on: pass `i` compares positions
/// `j` and `j + 1` for `j` from 0 while `j + 1 + i < |p|`, exchanging them where the
/// comparator said "greater"; `gts` are its answers in the order the comparisons are made
/// (the run stops where they run out).
pub open spec fn bubble_from(p: Seq<usize>, i: nat, j: nat, gts: Seq<bool>) -> Seq<usize>
    decreases p.len() - i, p.len() - j, 
{
    if i >= p.len() {
        p
    } else if j + 1 + i >= p.len() {
        bubble_from(p, i + 1, 0, gts)
    } else if gts.len() == 0 {
        p
    } else {
        bubble_from(if gts[0] { swap_next(p, j as int) } else { p }, i, j + 1, gts.drop_first())
    }
}

/// How many comparisons bubble sort of `n` items makes from pass `i`, position `j` on.
pub open spec fn bubble_compares(n: nat, i: nat, j: nat) -> nat
    decreases n - i, n - j,
{
    if i >= n {
        0
    } else if j + 1 + i >= n {
        bubble_compares(n, i + 1, 0)
    } else {
        1 + bubble_compares(n, i, j + 1)
    }
}

/// The answers `gts` are those of a comparator that orders items by `key` (it says
/// "greater" exactly when the first item's key is above the second's) at every comparison
/// bubble sort makes from pass `i`, position `j` on, with none missing.
pub open spec fn bubble_answers_by_key(
    p: Seq<usize>,
    i: nat,
    j: nat,
    gts: Seq<bool>,
    key: spec_fn(usize) -> int,
) -> bool
    decreases p.len() - i, p.len() - j,
{
    if i >= p.len() {
        true
    } else if j + 1 + i >= p.len() {
        bubble_answers_by_key(p, i + 1, 0, gts, key)
    } else if gts.len() == 0 {
        false
    } else {
        &&& gts[0] == (key(p[j as int]) > key(p[j + 1 as int]))
        &&& bubble_answers_by_key(
            if gts[0] { swap_next(p, j as int) } else { p },
            i,
            j + 1,
            gts.drop_first(),
            key,
        )
    }
}

/// The items at positions `0..=j` have keys at most that at `j`; the last `i` positions hold
/// keys in ascending order, each at least every key before them.
pub open spec fn bubble_invariant(p: Seq<usize>, i: nat, j: nat, key: spec_fn(usize) -> int) -> bool {
    let n = p.len() as int;
    &&& forall|a: int, b: int| n - i <= a < b < n ==> key(#[trigger] p[a]) <= key(#[trigger] p[b])
    &&& forall|a: int, b: int| 0 <= a < n - i <= b < n ==> key(#[trigger] p[a]) <= key(#[trigger] p[b])
    &&& (j + i < n ==> forall|a: int| 0 <= a <= j ==> key(#[trigger] p[a]) <= key(p[j as int]))
}

/// Bubble sort driven by a comparator that orders by `key` leaves the keys ascending.
pub proof fn lemma_bubble_sorts(p: Seq<usize>, i: nat, j: nat, gts: Seq<bool>, key: spec_fn(usize) -> int)
    requires
        bubble_invariant(p, i, j, key),
        i <= p.len(),
        bubble_answers_by_key(p, i, j, gts, key),
        j + i < p.len() || i >= p.len() || j + 1 + i == p.len(),
    ensures
        bubble_from(p, i, j, gts).len() == p.len(),
        forall|a: int, b: int|
            0 <= a < b < p.len() ==> key(#[trigger] bubble_from(p, i, j, gts)[a]) <= key(
                #[trigger] bubble_from(p, i, j, gts)[b],
            ),
    decreases p.len() - i, p.len() - j,
{
    let n = p.len() as int;
    if i >= p.len() {
        assert forall|a: int, b: int| 0 <= a < b < n implies key(#[trigger] p[a]) <= key(#[trigger] p[b]) by {
        }
    } else if j + 1 + i >= p.len() {
        // the pass is over: position j holds a largest key of the unsorted part
        assert(bubble_invariant(p, i + 1, 0, key)) by {
            assert forall|a: int, b: int| n - (i + 1) <= a < b < n implies key(#[trigger] p[a]) <= key(
                #[trigger] p[b],
            ) by {
                if a == n - (i + 1) {
                    assert(key(p[a]) <= key(p[b]));
                }
            }
            assert forall|a: int, b: int| 0 <= a < n - (i + 1) <= b < n implies key(#[trigger] p[a]) <= key(
                #[trigger] p[b],
            ) by {
                if b == n - (i + 1) {
                    assert(key(p[a]) <= key(p[j as int]));
                }
            }
        }
        lemma_bubble_sorts(p, i + 1, 0, gts, key);
    } else {
        let q = if gts[0] { swap_next(p, j as int) } else { p };
        assert(bubble_invariant(q, i, j + 1, key)) by {
            assert forall|a: int| 0 <= a <= j + 1 implies key(#[trigger] q[a]) <= key(q[j + 1 as int]) by {
                if a < j {
                    assert(q[a] == p[a]);
                }
                if a <= j {
                    assert(key(p[a]) <= key(p[j as int]));
                }
            }
            assert forall|a: int, b: int| n - i <= a < b < n implies key(#[trigger] q[a]) <= key(#[trigger] q[b]) by {
                assert(q[a] == p[a] && q[b] == p[b]);
            }
            assert forall|a: int, b: int| 0 <= a < n - i <= b < n implies key(#[trigger] q[a]) <= key(
                #[trigger] q[b],
            ) by {
                assert(q[b] == p[b]);
                if a == j {
                    assert(key(p[a]) <= key(p[b]));
                    assert(key(p[a + 1]) <= key(p[b]));
                } else if a == j + 1 {
                    assert(key(p[a - 1]) <= key(p[b]));
                    assert(key(p[a]) <= key(p[b]));
                } else {
                    assert(q[a] == p[a]);
                }
            }
        }
        lemma_bubble_sorts(q, i, j + 1, gts.drop_first(), key);
    }
}

/// Insertion sort of the order `p` from pass `i`, position `j` on: pass `i` moves the item at
/// position `i` left, comparing positions `j - 1` and `j` and exchanging them while the
/// comparator says "greater"; `gts` are its answers in order (the run stops where they run out).
pub open spec fn insertion_from(p: Seq<usize>, i: nat, j: nat, gts: Seq<bool>) -> Seq<usize>
    decreases p.len() - i, j,
{
    if i >= p.len() {
        p
    } else if j == 0 || j >= p.len() {
        insertion_from(p, i + 1, i + 1, gts)
    } else if gts.len() == 0 {
        p
    } else if gts[0] {
        insertion_from(swap_next(p, j - 1), i, (j - 1) as nat, gts.drop_first())
    } else {
        insertion_from(p, i + 1, i + 1, gts.drop_first())
    }
}

/// The answers `gts` are exactly those insertion sort asks for from pass `i`, position `j`
/// on: none is missing and none is left over.
pub open spec fn insertion_uses_all(p: Seq<usize>, i: nat, j: nat, gts: Seq<bool>) -> bool
    decreases p.len() - i, j,
{
    if i >= p.len() {
        gts.len() == 0
    } else if j == 0 || j >= p.len() {
        insertion_uses_all(p, i + 1, i + 1, gts)
    } else if gts.len() == 0 {
        false
    } else if gts[0] {
        insertion_uses_all(swap_next(p, j - 1), i, (j - 1) as nat, gts.drop_first())
    } else {
        insertion_uses_all(p, i + 1, i + 1, gts.drop_first())
    }
}

/// The answers `gts` are those of a comparator ordering by `key` at every comparison
/// insertion sort makes from pass `i`, position `j` on.
pub open spec fn insertion_answers_by_key(
    p: Seq<usize>,
    i: nat,
    j: nat,
    gts: Seq<bool>,
    key: spec_fn(usize) -> int,
) -> bool
    decreases p.len() - i, j,
{
    if i >= p.len() {
        true
    } else if j == 0 || j >= p.len() {
        insertion_answers_by_key(p, i + 1, i + 1, gts, key)
    } else if gts.len() == 0 {
        false
    } else {
        &&& gts[0] == (key(p[j - 1]) > key(p[j as int]))
        &&& if gts[0] {
            insertion_answers_by_key(swap_next(p, j - 1), i, (j - 1) as nat, gts.drop_first(), key)
        } else {
            insertion_answers_by_key(p, i + 1, i + 1, gts.drop_first(), key)
        }
    }
}

/// Keys ascend over positions `lo..hi` of `p`.
pub open spec fn keys_ascend(p: Seq<usize>, lo: int, hi: int, key: spec_fn(usize) -> int) -> bool {
    forall|a: int, b: int| lo <= a < b < hi ==> key(#[trigger] p[a]) <= key(#[trigger] p[b])
}

/// Mid-pass state of insertion sort: the item being placed is at `j`; keys ascend before it
/// and after it up to `i`, those before are at most those after, and it is at most those after.
pub open spec fn insertion_invariant(p: Seq<usize>, i: nat, j: nat, key: spec_fn(usize) -> int) -> bool {
    &&& j <= i < p.len()
    &&& keys_ascend(p, 0, j as int, key)
    &&& keys_ascend(p, j + 1 as int, i + 1 as int, key)
    &&& forall|a: int, b: int| 0 <= a < j < b <= i ==> key(#[trigger] p[a]) <= key(#[trigger] p[b])
    &&& forall|b: int| j < b <= i ==> key(p[j as int]) <= key(#[trigger] p[b])
}

/// Insertion sort driven by a comparator that orders by `key` leaves the keys ascending.
pub proof fn lemma_insertion_sorts(p: Seq<usize>, i: nat, j: nat, gts: Seq<bool>, key: spec_fn(usize) -> int)
    requires
        i >= p.len() ==> keys_ascend(p, 0, p.len() as int, key),
        i < p.len() ==> insertion_invariant(p, i, j, key),
        insertion_answers_by_key(p, i, j, gts, key),
    ensures
        insertion_from(p, i, j, gts).len() == p.len(),
        keys_ascend(insertion_from(p, i, j, gts), 0, p.len() as int, key),
    decreases p.len() - i, j,
{
    let n = p.len() as int;
    if i >= p.len() {
    } else if j == 0 || j >= p.len() || !gts[0] {
        // the item is in place: positions 0..=i are in order
        assert(keys_ascend(p, 0, i + 1 as int, key)) by {
            assert forall|a: int, b: int| 0 <= a < b < i + 1 implies key(#[trigger] p[a]) <= key(#[trigger] p[b]) by {
                if a < j && b == j {
                    assert(key(p[j - 1]) <= key(p[j as int]));
                    if a < j - 1 {
                        assert(key(p[a]) <= key(p[j - 1]));
                    }
                }
            }
        }
        let rest = if j == 0 || j >= p.len() { gts } else { gts.drop_first() };
        if i + 1 < p.len() {
            assert(insertion_invariant(p, i + 1, i + 1, key));
        }
        lemma_insertion_sorts(p, i + 1, i + 1, rest, key);
    } else {
        let q = swap_next(p, j - 1);
        assert(insertion_invariant(q, i, (j - 1) as nat, key)) by {
            assert forall|a: int, b: int| 0 <= a < b < j - 1 implies key(#[trigger] q[a]) <= key(#[trigger] q[b]) by {
                assert(q[a] == p[a] && q[b] == p[b]);
            }
            assert forall|a: int, b: int| j <= a < b < i + 1 implies key(#[trigger] q[a]) <= key(#[trigger] q[b]) by {
                assert(q[b] == p[b]);
                if a == j {
                    assert(q[a] == p[j - 1]);
                    assert(key(p[j - 1]) <= key(p[b]));
                } else {
                    assert(q[a] == p[a]);
                }
            }
            assert forall|a: int, b: int| 0 <= a < j - 1 < b <= i implies key(#[trigger] q[a]) <= key(#[trigger] q[b]) by {
                assert(q[a] == p[a]);
                assert(key(p[a]) <= key(p[j - 1]));
                if b == j {
                    assert(q[b] == p[j - 1]);
                } else {
                    assert(q[b] == p[b]);
                }
            }
            assert forall|b: int| j - 1 < b <= i implies key(q[j - 1]) <= key(#[trigger] q[b]) by {
                assert(q[j - 1] == p[j as int]);
                if b == j {
                    assert(q[b] == p[j - 1]);
                } else {
                    assert(q[b] == p[b]);
                }
            }
        }
        lemma_insertion_sorts(q, i, (j - 1) as nat, gts.drop_first(), key);
    }
}

fn sorted_order(interp: &mut Interpreter, elems: &Vec<JsValue>, order_fn: &JsValue, insertion: bool) -> (r:
    Result<(Vec<usize>, Ghost<Seq<bool>>), JsError>)
    ensures
        final(interp).spends(old(interp), r is Err),
        r matches Ok((p, _)) ==> is_perm(p@, elems@.len() as int),
        (!old(interp).is_function(*order_fn) && plain_elements(elems@) && old(interp).fuel > elems@.len())
            ==> (r matches Ok((p, _)) && texts_sorted(elems@, p@)) && final(interp).same_but_fuel(old(interp)),
        (!insertion && old(interp).is_function(*order_fn)) ==> (r matches Ok((p, gts)) ==> (p@ == bubble_from(
            identity_order(elems@.len() as nat),
            0,
            0,
            gts@,
        ) && gts@.len() == bubble_compares(elems@.len() as nat, 0, 0))),
        (insertion && old(interp).is_function(*order_fn)) ==> (r matches Ok((p, gts)) ==> (p@ == insertion_from(
            identity_order(elems@.len() as nat),
            0,
            0,
            gts@,
        ) && insertion_uses_all(identity_order(elems@.len() as nat), 0, 0, gts@))),
    decreases old(interp).fuel,
{
    interp.step()?;
    let n = elems.len();
    if interp.is_callable(order_fn) {
        let mut p = identity_perm(n);
        if insertion {
            let ghost id = identity_order(n as nat);
            let ghost mut gts: Seq<bool> = Seq::empty();
            proof {
                assert(p@ =~= id);
                assert forall|rest: Seq<bool>| insertion_from(id, 0, 0, gts + rest) == #[trigger] insertion_from(
                    p@,
                    0,
                    0,
                    rest,
                ) && insertion_uses_all(id, 0, 0, gts + rest) == insertion_uses_all(p@, 0, 0, rest) by {
                    assert(gts + rest =~= rest);
                }
            }
            let mut i: usize = 0;
            while i < n
                invariant
                    interp.spends(old(interp), false),
                    n == elems@.len(),
                    i <= n,
                    is_perm(p@, n as int),
                    old(interp).is_function(*order_fn),
                    id == identity_order(n as nat),
                    forall|rest: Seq<bool>| insertion_from(id, 0, 0, gts + rest) == #[trigger] insertion_from(
                        p@,
                        i as nat,
                        i as nat,
                        rest,
                    ) && insertion_uses_all(id, 0, 0, gts + rest) == insertion_uses_all(p@, i as nat, i as nat, rest),
                decreases n - i,
            {
                let mut j = i;
                let mut placed = false;
                proof {
                    assert forall|rest: Seq<bool>| insertion_from(id, 0, 0, gts + rest) == #[trigger] insertion_from(
                        p@,
                        i as nat,
                        j as nat,
                        rest,
                    ) && insertion_uses_all(id, 0, 0, gts + rest) == insertion_uses_all(p@, i as nat, j as nat, rest) by {
                        assert(insertion_from(id, 0, 0, gts + rest) == insertion_from(p@, i as nat, i as nat, rest));
                    }
                }
                while j > 0 && !placed
                    invariant
                        interp.spends(old(interp), false),
                        n == elems@.len(),
                        i < n,
                        j <= i,
                        is_perm(p@, n as int),
                        old(interp).is_function(*order_fn),
                        id == identity_order(n as nat),
                        !placed ==> forall|rest: Seq<bool>| insertion_from(id, 0, 0, gts + rest) == #[trigger] insertion_from(
                            p@,
                            i as nat,
                            j as nat,
                            rest,
                        ) && insertion_uses_all(id, 0, 0, gts + rest) == insertion_uses_all(p@, i as nat, j as nat, rest),
                        placed ==> forall|rest: Seq<bool>| insertion_from(id, 0, 0, gts + rest) == #[trigger] insertion_from(
                            p@,
                            (i + 1) as nat,
                            (i + 1) as nat,
                            rest,
                        ) && insertion_uses_all(id, 0, 0, gts + rest) == insertion_uses_all(
                            p@,
                            (i + 1) as nat,
                            (i + 1) as nat,
                            rest,
                        ),
                    decreases j, if placed { 0int } else { 1int },
                {
                    let gt = compare_greater(interp, order_fn, &elems[p[j - 1]], &elems[p[j]])?;
                    let ghost p0 = p@;
                    let ghost g0 = gts;
                    proof {
                        gts = gts.push(gt);
                        assert forall|rest: Seq<bool>| #[trigger] (g0 + (seq![gt] + rest)) == gts + rest by {
                            assert(g0 + (seq![gt] + rest) =~= gts + rest);
                        }
                        assert forall|rest: Seq<bool>| #[trigger] (seq![gt] + rest).drop_first() == rest by {
                            assert((seq![gt] + rest).drop_first() =~= rest);
                        }
                    }
                    if !gt {
                        proof {
                            assert forall|rest: Seq<bool>| insertion_from(id, 0, 0, gts + rest) == #[trigger] insertion_from(
                                p@,
                                (i + 1) as nat,
                                (i + 1) as nat,
                                rest,
                            ) && insertion_uses_all(id, 0, 0, gts + rest) == insertion_uses_all(
                                p@,
                                (i + 1) as nat,
                                (i + 1) as nat,
                                rest,
                            ) by {
                                let r2 = seq![gt] + rest;
                                assert(insertion_from(id, 0, 0, g0 + r2) == insertion_from(p0, i as nat, j as nat, r2));
                                assert(insertion_uses_all(id, 0, 0, g0 + r2) == insertion_uses_all(p0, i as nat, j as nat, r2));
                            }
                        }
                        placed = true;
                    } else {
                        let a = p[j - 1];
                        let b = p[j];
                        proof {
                            lemma_swap_perm(p@, n as int, j - 1);
                        }
                        p.set(j - 1, b);
                        p.set(j, a);
                        let ghost j0 = j;
                        j = j - 1;
                        proof {
                            assert(p@ =~= swap_next(p0, j0 - 1));
                            assert forall|rest: Seq<bool>| insertion_from(id, 0, 0, gts + rest) == #[trigger] insertion_from(
                                p@,
                                i as nat,
                                j as nat,
                                rest,
                            ) && insertion_uses_all(id, 0, 0, gts + rest) == insertion_uses_all(
                                p@,
                                i as nat,
                                j as nat,
                                rest,
                            ) by {
                                let r2 = seq![gt] + rest;
                                assert(insertion_from(id, 0, 0, g0 + r2) == insertion_from(p0, i as nat, j0 as nat, r2));
                                assert(insertion_uses_all(id, 0, 0, g0 + r2) == insertion_uses_all(p0, i as nat, j0 as nat, r2));
                                assert(r2[0] == gt && gt);
                                assert(r2.drop_first() == rest);
                                assert(insertion_from(p0, i as nat, j0 as nat, r2) == insertion_from(
                                    swap_next(p0, j0 - 1),
                                    i as nat,
                                    j as nat,
                                    rest,
                                ));
                                assert(insertion_uses_all(p0, i as nat, j0 as nat, r2) == insertion_uses_all(
                                    swap_next(p0, j0 - 1),
                                    i as nat,
                                    j as nat,
                                    rest,
                                ));
                            }
                        }
                    }
                }
                proof {
                    if !placed {
                        assert forall|rest: Seq<bool>| insertion_from(id, 0, 0, gts + rest) == #[trigger] insertion_from(
                            p@,
                            (i + 1) as nat,
                            (i + 1) as nat,
                            rest,
                        ) && insertion_uses_all(id, 0, 0, gts + rest) == insertion_uses_all(
                            p@,
                            (i + 1) as nat,
                            (i + 1) as nat,
                            rest,
                        ) by {
                            assert(insertion_from(id, 0, 0, gts + rest) == insertion_from(p@, i as nat, j as nat, rest));
                        }
                    }
                }
                i = i + 1;
            }
            proof {
                assert(gts + Seq::<bool>::empty() =~= gts);
                assert(insertion_from(id, 0, 0, gts + Seq::<bool>::empty()) == insertion_from(
                    p@,
                    i as nat,
                    i as nat,
                    Seq::<bool>::empty(),
                ));
                assert(insertion_uses_all(id, 0, 0, gts + Seq::<bool>::empty()) == insertion_uses_all(
                    p@,
                    i as nat,
                    i as nat,
                    Seq::<bool>::empty(),
                ));
            }
            return Ok((p, Ghost(gts)));
        } else {
            let ghost id = identity_order(n as nat);
            let ghost total = bubble_compares(n as nat, 0, 0);
            let ghost mut gts: Seq<bool> = Seq::empty();
            proof {
                assert(p@ =~= id);
                assert forall|rest: Seq<bool>| bubble_from(id, 0, 0, gts + rest) == #[trigger] bubble_from(p@, 0, 0, rest) by {
                    assert(gts + rest =~= rest);
                }
            }
            let mut i: usize = 0;
            while i < n
                invariant
                    interp.spends(old(interp), false),
                    n == elems@.len(),
                    i <= n,
                    is_perm(p@, n as int),
                    old(interp).is_function(*order_fn),
                    id == identity_order(n as nat),
                    total == bubble_compares(n as nat, 0, 0),
                    forall|rest: Seq<bool>| bubble_from(id, 0, 0, gts + rest) == #[trigger] bubble_from(p@, i as nat, 0, rest),
                    gts.len() + bubble_compares(n as nat, i as nat, 0) == total,
                decreases n - i,
            {
                let limit = n - 1 - i;
                let mut j: usize = 0;
                while j < limit
                    invariant
                        interp.spends(old(interp), false),
                        n == elems@.len(),
                        i < n,
                        limit == n - 1 - i,
                        j <= limit,
                        is_perm(p@, n as int),
                        old(interp).is_function(*order_fn),
                        id == identity_order(n as nat),
                        total == bubble_compares(n as nat, 0, 0),
                        forall|rest: Seq<bool>|
                            bubble_from(id, 0, 0, gts + rest) == #[trigger] bubble_from(p@, i as nat, j as nat, rest),
                        gts.len() + bubble_compares(n as nat, i as nat, j as nat) == total,
                    decreases limit - j,
                {
                    let gt = compare_greater(interp, order_fn, &elems[p[j]], &elems[p[j + 1]])?;
                    let ghost p0 = p@;
                    let ghost g0 = gts;
                    if gt {
                        let a = p[j];
                        let b = p[j + 1];
                        proof {
                            lemma_swap_perm(p@, n as int, j as int);
                        }
                        p.set(j, b);
                        p.set(j + 1, a);
                    }
                    proof {
                        gts = gts.push(gt);
                        assert(p@ =~= (if gt { swap_next(p0, j as int) } else { p0 }));
                        assert forall|rest: Seq<bool>|
                            bubble_from(id, 0, 0, gts + rest) == #[trigger] bubble_from(p@, i as nat, (j + 1) as nat, rest) by {
                            let r2 = seq![gt] + rest;
                            assert(g0 + r2 =~= gts + rest);
                            assert(r2.drop_first() =~= rest);
                            assert(bubble_from(id, 0, 0, g0 + r2) == bubble_from(p0, i as nat, j as nat, r2));
                        }
                    }
                    j = j + 1;
                }
                proof {
                    assert forall|rest: Seq<bool>|
                        bubble_from(id, 0, 0, gts + rest) == #[trigger] bubble_from(p@, (i + 1) as nat, 0, rest) by {
                        assert(bubble_from(id, 0, 0, gts + rest) == bubble_from(p@, i as nat, j as nat, rest));
                    }
                }
                i = i + 1;
            }
            proof {
                assert(gts + Seq::<bool>::empty() =~= gts);
                assert(bubble_from(id, 0, 0, gts + Seq::<bool>::empty()) == bubble_from(p@, i as nat, 0, Seq::<bool>::empty()));
            }
            return Ok((p, Ghost(gts)));
        }
        Ok((p, Ghost(Seq::empty())))
    } else {
        let mut keys: Vec<Vec<char>> = Vec::new();
        let mut i: usize = 0;
        let ghost law = plain_elements(elems@) && old(interp).fuel > elems@.len();
        while i < n
            invariant
                interp.spends(old(interp), false),
                n == elems@.len(),
                i <= n,
                keys@.len() == i,
                law == (plain_elements(elems@) && old(interp).fuel > elems@.len()),
                law ==> interp.same_but_fuel(old(interp)) && interp.fuel + 1 + i >= old(interp).fuel,
                law ==> forall|k: int| 0 <= k < i ==> #[trigger] keys@[k]@ == plain_text(elems@[k])->0,
            decreases n - i,
        {
            proof {
                if law {
                    assert(plain_text(elems@[i as int]) is Some);
                }
            }
            let t = interp.to_js_string(&elems[i])?;
            keys.push(t);
            i = i + 1;
        }
        let p = sort_indices_by_text(&keys);
        proof {
            if law {
                assert forall|a: int, b: int| 0 <= a < b < p@.len() implies text_le(
                    plain_text(elems@[p@[a] as int])->0,
                    plain_text(elems@[p@[b] as int])->0,
                ) by {
                    assert(keys@[p@[a] as int]@ == plain_text(elems@[p@[a] as int])->0);
                    assert(keys@[p@[b] as int]@ == plain_text(elems@[p@[b] as int])->0);
                }
            }
        }
        Ok((p, Ghost(Seq::empty())))
    }
}

/// The elements `t` are those of `s` in the order bubble sort puts them in when the
/// comparator answers `gts` ("greater" or not) to its comparisons, all of which it made.
pub open spec fn sorted_by_answers(t: Seq<JsValue>, s: Seq<JsValue>, gts: Seq<bool>) -> bool {
    let order = bubble_from(identity_order(s.len()), 0, 0, gts);
    &&& gts.len() == bubble_compares(s.len(), 0, 0)
    &&& t.len() >= s.len()
    &&& forall|k: int| 0 <= k < s.len() ==> same_value(#[trigger] t[k], s[order[k] as int])
}

/// `arr.sort(order_fn)`: sorts in place (by `order_fn`, else by text) and returns the array.
pub fn array_sort(interp: &mut Interpreter, this: JsValue, args: Vec<JsValue>) -> (r: Result<
    JsValue,
    JsError,
>)
    ensures
        final(interp).spends(old(interp), r is Err) || *final(interp) == *old(interp),
        array_value(old(interp), this) is None ==> is_type_error(r),
        (match array_value(old(interp), this) {
            Some(s) => r matches Ok(v) ==> v == this && (final(interp).array_at(object_index(this)) matches Some(t)
                && rearranged(t, s)),
            None => true,
        }),
        (match array_value(old(interp), this) {
            Some(s) => (!old(interp).is_function(crate::builtins::maps::nth_arg(args@, 0)) && plain_elements(s) && old(interp).fuel > s.len()
                + 1) ==> (r == Ok::<JsValue, JsError>(this) && (final(interp).array_at(object_index(this)) matches Some(
                t,
            ) && t.len() == s.len() && rearranged(t, s) && sorted_by_text(t))),
            None => true,
        }),
        (match array_value(old(interp), this) {
            Some(s) => (old(interp).is_function(crate::builtins::maps::nth_arg(args@, 0)) && r is Ok) ==> (final(interp).array_at(
                object_index(this),
            ) matches Some(t) && exists|gts: Seq<bool>| #[trigger] sorted_by_answers(t, s, gts)),
            None => true,
        }),
    decreases old(interp).fuel,
{
    let id = this_array(interp, &this)?;
    let elems = elements_of(interp, id);
    let ghost s = old(interp).array_at(id).unwrap();
    let order_fn = arg_at(&args, 0);
    interp.step()?;
    let (p, gts) = sorted_order(interp, &elems, &order_fn, false)?;
    let sorted = permuted(&elems, &p);
    if !interp.is_array(&this) {
        return Err(type_error("Not an array"));
    }
    let mut current = interp.take_elements(id);
    let n = sorted.len();
    let mut rest = if n <= current.len() {
        current.split_off(n)
    } else {
        Vec::new()
    };
    let mut out = sorted;
    out.append(&mut rest);
    proof {
        assert forall|i: int| 0 <= i < s.len() implies same_value(#[trigger] out@[i], s[p@[i] as int]) by {
            assert(same_value(elems@[p@[i] as int], s[p@[i] as int]));
        }
        assert(rearranged(out@, s));
        if old(interp).is_function(order_fn) {
            assert(sorted_by_answers(out@, s, gts@));
        }
    }
    interp.set_array_elements(id, out);
    Ok(JsValue::Object(id))
}

/// The elements `t` are those of `s` in the order insertion sort puts them in when the
/// comparator gives the answers `gts` ("greater" or not), exactly those it asked for.
pub open spec fn insertion_sorted_by_answers(t: Seq<JsValue>, s: Seq<JsValue>, gts: Seq<bool>) -> bool {
    let order = insertion_from(identity_order(s.len()), 0, 0, gts);
    &&& insertion_uses_all(identity_order(s.len()), 0, 0, gts)
    &&& t.len() >= s.len()
    &&& forall|k: int| 0 <= k < s.len() ==> same_value(#[trigger] t[k], s[order[k] as int])
}

/// The elements `t` are those of `s` in the order insertion sort puts them in for some
/// complete run of answers from the comparator.
pub open spec fn insertion_sorted(t: Seq<JsValue>, s: Seq<JsValue>) -> bool {
    exists|gts: Seq<bool>| #[trigger] insertion_sorted_by_answers(t, s, gts)
}

/// `arr.toSorted(order_fn)`: a sorted copy (by `order_fn`, else by text).
pub fn array_to_sorted(interp: &mut Interpreter, this: JsValue, args: Vec<JsValue>) -> (r: Result<
    JsValue,
    JsError,
>)
    ensures
        final(interp).spends(old(interp), r is Err) || *final(interp) == *old(interp),
        array_value(old(interp), this) is None ==> is_type_error(r),
        (match array_value(old(interp), this) {
            Some(s) => r matches Ok(v) ==> (v matches JsValue::Object(rid) && final(interp).array_at(rid) matches Some(t)
                && t.len() == s.len() && rearranged(t, s)),
            None => true,
        }),
        (match array_value(old(interp), this) {
            Some(s) => (!old(interp).is_function(crate::builtins::maps::nth_arg(args@, 0)) && plain_elements(s)
                && old(interp).fuel > s.len() + 1) ==> (r == Ok::<JsValue, JsError>(JsValue::Object(old(interp).heap.len()))
                && (final(interp).array_at(old(interp).heap.len()) matches Some(t) && t.len() == s.len() && rearranged(t, s)
                && sorted_by_text(t))),
            None => true,
        }),
        (match array_value(old(interp), this) {
            Some(s) => (old(interp).is_function(crate::builtins::maps::nth_arg(args@, 0)) && r is Ok) ==> (
            final(interp).array_at(object_index(r->Ok_0)) matches Some(t) && insertion_sorted(t, s)),
            None => true,
        }),
    decreases old(interp).fuel,
{
    let id = this_array(interp, &this)?;
    let elems = elements_of(interp, id);
    let ghost s = old(interp).array_at(id).unwrap();
    let order_fn = arg_at(&args, 0);
    interp.step()?;
    let (p, gts) = sorted_order(interp, &elems, &order_fn, true)?;
    let sorted = permuted(&elems, &p);
    proof {
        assert forall|i: int| 0 <= i < s.len() implies same_value(#[trigger] sorted@[i], s[p@[i] as int]) by {
            assert(same_value(elems@[p@[i] as int], s[p@[i] as int]));
        }
        assert(rearranged(sorted@, s));
    }
    let ghost sv = sorted@;
    let ghost hl = interp.heap@.len();
    let res = new_array_value(interp, sorted);
    proof {
        if old(interp).is_function(order_fn) {
            assert(insertion_sorted_by_answers(sv, s, gts@));
            assert(interp.array_at(hl as usize) == Some(sv));
            assert(insertion_sorted(sv, s));
        }
    }
    Ok(res)
}

/// `arr.reduce(cb, initial)`: folds the elements from the left with `cb(acc, element, index, arr)`.
pub fn array_reduce(interp: &mut Interpreter, this: JsValue, args: Vec<JsValue>) -> (r: Result<
    JsValue,
    JsError,
>)
    ensures
        final(interp).spends(old(interp), r is Err),
        array_value(old(interp), this) is None ==> is_type_error(r),
        (array_value(old(interp), this) is Some && !(args@.len() > 0 && old(interp).is_function(args@[0])))
            ==> is_type_error(r),
        (array_value(old(interp), this) matches Some(s) && s.len() == 0 && args@.len() < 2)
            ==> is_type_error(r),
        (array_value(old(interp), this) matches Some(s) && s.len() == 0 && args@.len() >= 2) ==> (r matches Ok(
            v,
        ) ==> same_value(v, args@[1])),
    decreases old(interp).fuel,
{
    reduce_from(interp, this, args, false)
}

/// `arr.reduceRight(cb, initial)`: folds the elements from the right.
pub fn array_reduce_right(interp: &mut Interpreter, this: JsValue, args: Vec<JsValue>) -> (r: Result<
    JsValue,
    JsError,
>)
    ensures
        final(interp).spends(old(interp), r is Err),
        array_value(old(interp), this) is None ==> is_type_error(r),
        (array_value(old(interp), this) is Some && !(args@.len() > 0 && old(interp).is_function(args@[0])))
            ==> is_type_error(r),
        (array_value(old(interp), this) matches Some(s) && s.len() == 0 && args@.len() < 2)
            ==> is_type_error(r),
        (array_value(old(interp), this) matches Some(s) && s.len() == 0 && args@.len() >= 2) ==> (r matches Ok(
            v,
        ) ==> same_value(v, args@[1])),
    decreases old(interp).fuel,
{
    reduce_from(interp, this, args, true)
}

/// The fold of `reduce` (`backwards` false) and `reduceRight` (`backwards` true).
pub(crate) fn reduce_from(interp: &mut Interpreter, this: JsValue, args: Vec<JsValue>, backwards: bool) -> (r: Result<
    JsValue,
    JsError,
>)
    ensures
        final(interp).spends(old(interp), r is Err),
        array_value(old(interp), this) is None ==> is_type_error(r),
        (array_value(old(interp), this) is Some && !(args@.len() > 0 && old(interp).is_function(args@[0])))
            ==> is_type_error(r),
        (array_value(old(interp), this) matches Some(s) && s.len() == 0 && args@.len() < 2)
            ==> is_type_error(r),
        (array_value(old(interp), this) matches Some(s) && s.len() == 0 && args@.len() >= 2) ==> (r matches Ok(
            v,
        ) ==> same_value(v, args@[1])),
    decreases old(interp).fuel,
{
    let id = this_array(interp, &this)?;
    let cb = callback_arg(interp, &args)?;
    let len = length_now(interp, id);
    let (mut acc, mut k) = if args.len() >= 2 {
        (args[1].copy(), 0usize)
    } else {
        if len == 0 {
            return Err(type_error("Reduce of empty array with no initial value"));
        }
        let first = if backwards {
            element_now(interp, id, len - 1)
        } else {
            element_now(interp, id, 0)
        };
        (first, 1usize)
    };
    interp.step()?;
    let ghost acc0 = acc;
    while k < len
        invariant
            interp.spends(old(interp), false),
            array_value(old(interp), this) is Some,
            this == JsValue::Object(id),
            old(interp).array_at(id) matches Some(s) && len == s.len(),
            args@.len() > 0 && old(interp).is_function(args@[0]),
            k <= len || (args@.len() < 2 && k == 1),
            (len == 0 && args@.len() >= 2) ==> same_value(acc, args@[1]),
        decreases len - k,
    {
        let i = if backwards {
            len - 1 - k
        } else {
            k
        };
        interp.step()?;
        let elem = element_now(interp, id, i);
        let argv = vec![acc, elem, JsValue::from_usize(i), this.copy()];
        acc = interp.call_function(cb.copy(), JsValue::Undefined, argv)?;
        k = k + 1;
    }
    Ok(acc)
}

/// The elements of `v` flattened `depth` levels: arrays are replaced by their elements.
pub open spec fn flat_piece(interp: &Interpreter, v: JsValue, depth: int) -> Seq<JsValue>
    decreases depth, 0int,
{
    if depth > 0 {
        match array_value(interp, v) {
            Some(inner) => flat_all(interp, inner, depth - 1),
            None => seq![v],
        }
    } else {
        seq![v]
    }
}

/// The pieces of all elements of `s`, in order.
pub open spec fn flat_all(interp: &Interpreter, s: Seq<JsValue>, depth: int) -> Seq<JsValue>
    decreases depth, s.len() + 1,
{
    if s.len() == 0 {
        Seq::empty()
    } else {
        flat_all(interp, s.drop_last(), depth) + flat_piece(interp, s.last(), depth)
    }
}

/// Appends the elements of `s` flattened `depth` levels to `out`.
fn flatten_into(interp: &Interpreter, s: &Vec<JsValue>, depth: u32, out: &mut Vec<JsValue>)
    ensures
        same_seq(final(out)@, old(out)@ + flat_all(interp, s@, depth as int)),
    decreases depth,
{
    let ghost o = out@;
    let mut i: usize = 0;
    assert(s@.take(0) =~= Seq::<JsValue>::empty());
    while i < s.len()
        invariant
            i <= s@.len(),
            same_seq(out@, o + flat_all(interp, s@.take(i as int), depth as int)),
        decreases s@.len() - i,
    {
        let ghost before = out@;
        let e = &s[i];
        let nested = depth > 0 && interp.is_array(e);
        if nested {
            if let JsValue::Object(id) = e {
                let inner = elements_of(interp, *id);
                let ghost w = interp.array_at(*id).unwrap();
                let mut part: Vec<JsValue> = Vec::new();
                flatten_into(interp, &inner, depth - 1, &mut part);
                proof {
                    lemma_flat_all_same(interp, inner@, w, (depth - 1) as int);
                    assert(Seq::<JsValue>::empty() + flat_all(interp, inner@, (depth - 1) as int)
                        =~= flat_all(interp, inner@, (depth - 1) as int));
                    lemma_same_seq_trans(part@, flat_all(interp, inner@, (depth - 1) as int), flat_piece(interp, s@[i as int], depth as int));
                }
                let ghost p = part@;
                out.append(&mut part);
                proof {
                    lemma_same_seq_add(before, o + flat_all(interp, s@.take(i as int), depth as int), p, flat_piece(interp, s@[i as int], depth as int));
                }
            }
        } else {
            let c = e.copy();
            proof {
                assert(flat_piece(interp, s@[i as int], depth as int) == seq![s@[i as int]]);
                assert(same_seq(seq![c], seq![s@[i as int]]));
                lemma_same_seq_add(before, o + flat_all(interp, s@.take(i as int), depth as int), seq![c], flat_piece(interp, s@[i as int], depth as int));
            }
            out.push(c);
            proof {
                assert(out@ =~= before + seq![c]);
            }
        }
        proof {
            assert(s@.take(i + 1).drop_last() =~= s@.take(i as int));
            assert(s@.take(i + 1).last() == s@[i as int]);
            assert(o + flat_all(interp, s@.take(i + 1), depth as int) =~= (o + flat_all(interp, s@.take(i as int), depth as int)) + flat_piece(interp, s@[i as int], depth as int));
        }
        i = i + 1;
    }
    proof {
        assert(s@.take(s@.len() as int) =~= s@);
    }
}

/// Flattening sequences of the same values gives the same values.
proof fn lemma_flat_all_same(interp: &Interpreter, a: Seq<JsValue>, b: Seq<JsValue>, depth: int)
    requires
        same_seq(a, b),
    ensures
        same_seq(flat_all(interp, a, depth), flat_all(interp, b, depth)),
    decreases a.len(),
{
    if a.len() > 0 {
        lemma_flat_all_same(interp, a.drop_last(), b.drop_last(), depth);
        assert(same_value(a.last(), b.last()));
        lemma_same_seq_add(
            flat_all(interp, a.drop_last(), depth),
            flat_all(interp, b.drop_last(), depth),
            flat_piece(interp, a.last(), depth),
            flat_piece(interp, b.last(), depth),
        );
    }
}

/// `same_seq` is transitive.
pub proof fn lemma_same_seq_trans(a: Seq<JsValue>, b: Seq<JsValue>, c: Seq<JsValue>)
    requires
        same_seq(a, b),
        same_seq(b, c),
    ensures
        same_seq(a, c),
{
    assert forall|i: int| 0 <= i < a.len() implies same_value(#[trigger] a[i], c[i]) by {
        assert(same_value(a[i], b[i]));
        assert(same_value(b[i], c[i]));
    }
}

/// The depth `flat` uses for an integer argument: negative ones count as 0.
pub open spec fn flat_depth(n: int) -> int {
    if n < 0 {
        0
    } else if n > 2147483647 {
        2147483647
    } else {
        n
    }
}

/// `arr.flat(depth)`: a new array with nested arrays spread `depth` levels deep (default 1).
pub fn array_flat(interp: &mut Interpreter, this: JsValue, args: Vec<JsValue>) -> (r: Result<
    JsValue,
    JsError,
>)
    ensures
        (match array_value(old(interp), this) {
            Some(s) => {
                &&& r == Ok::<JsValue, JsError>(JsValue::Object(old(interp).heap.len()))
                &&& final(interp).added_one(old(interp))
                &&& final(interp).array_at(old(interp).heap.len()) matches Some(t)
                    && (args@.len() == 0 ==> same_seq(t, flat_all(old(interp), s, 1)))
                    && ((args@.len() > 0 && int_arg_value(args@[0]) is Some) ==> same_seq(
                    t,
                    flat_all(old(interp), s, flat_depth(int_arg_value(args@[0]).unwrap())),
                ))
            },
            None => is_type_error(r) && *final(interp) == *old(interp),
        }),
{
    let id = this_array(interp, &this)?;
    let depth: u32 = if args.len() == 0 {
        1
    } else {
        let n = int_arg(interp, &args, 0);
        if n < 0 {
            0
        } else if n > 2147483647 {
            2147483647
        } else {
            n as u32
        }
    };
    let elems = elements_of(interp, id);
    let mut out: Vec<JsValue> = Vec::new();
    flatten_into(interp, &elems, depth, &mut out);
    proof {
        lemma_flat_all_same(interp, elems@, interp.array_at(id).unwrap(), depth as int);
        assert(Seq::<JsValue>::empty() + flat_all(interp, elems@, depth as int) =~= flat_all(interp, elems@, depth as int));
        lemma_same_seq_trans(out@, flat_all(interp, elems@, depth as int), flat_all(interp, interp.array_at(id).unwrap(), depth as int));
    }
    Ok(new_array_value(interp, out))
}

/// `arr.flatMap(cb, thisArg)`: maps each element with `cb` and spreads array results one level.
pub fn array_flat_map(interp: &mut Interpreter, this: JsValue, args: Vec<JsValue>) -> (r: Result<
    JsValue,
    JsError,
>)
    ensures
        final(interp).spends(old(interp), r is Err),
        array_value(old(interp), this) is None ==> is_type_error(r),
        (array_value(old(interp), this) is Some && !(args@.len() > 0 && old(interp).is_function(args@[0])))
            ==> is_type_error(r),
        r matches Ok(v) ==> (v matches JsValue::Object(rid) && final(interp).array_at(rid) is Some),
    decreases old(interp).fuel,
{
    let id = this_array(interp, &this)?;
    let cb = callback_arg(interp, &args)?;
    let this_arg = arg_at(&args, 1);
    let len = length_now(interp, id);
    interp.step()?;
    let mut out: Vec<JsValue> = Vec::new();
    let mut i: usize = 0;
    while i < len
        invariant
            interp.spends(old(interp), false),
            array_value(old(interp), this) is Some,
            args@.len() > 0 && old(interp).is_function(args@[0]),
            i <= len,
        decreases len - i,
    {
        let (_, v) = call_on_element(interp, &cb, &this_arg, &this, id, i)?;
        push_piece(interp, &mut out, &v);
        i = i + 1;
    }
    Ok(new_array_value(interp, out))
}

/// How many values `Array.from` reads from a source: an array's elements, a string's characters.
pub open spec fn from_count(interp: &Interpreter, v: JsValue) -> nat {
    match v {
        JsValue::String(s) => s@.len(),
        _ => match array_value(interp, v) {
            Some(s) => s.len(),
            None => 0,
        },
    }
}

/// `x` is the `i`-th value `Array.from` reads from `v`.
pub open spec fn from_item(interp: &Interpreter, v: JsValue, i: int, x: JsValue) -> bool {
    match v {
        JsValue::String(s) => x matches JsValue::String(c) && c@ == seq![s@[i]],
        _ => match array_value(interp, v) {
            Some(s) => same_value(x, s[i]),
            None => false,
        },
    }
}

/// One-character strings of `s`.
fn char_strings(s: &Vec<char>) -> (r: Vec<JsValue>)
    ensures
        r@.len() == s@.len(),
        forall|i: int| 0 <= i < s@.len() ==> (#[trigger] r@[i] matches JsValue::String(c) && c@ == seq![s@[i]]),
{
    let mut out: Vec<JsValue> = Vec::new();
    let mut i: usize = 0;
    while i < s.len()
        invariant
            i <= s@.len(),
            out@.len() == i,
            forall|j: int| 0 <= j < i ==> (#[trigger] out@[j] matches JsValue::String(c) && c@ == seq![s@[j]]),
        decreases s@.len() - i,
    {
        let mut c: Vec<char> = Vec::new();
        c.push(s[i]);
        out.push(JsValue::String(c));
        i = i + 1;
    }
    out
}

/// `Array.from(source, mapFn)`: a new array of an array's elements or a string's characters,
/// each passed through `mapFn(value, index)` when that is a function.
pub fn array_from(interp: &mut Interpreter, this: JsValue, args: Vec<JsValue>) -> (r: Result<
    JsValue,
    JsError,
>)
    ensures
        final(interp).spends(old(interp), r is Err),
        r matches Ok(v) ==> (v matches JsValue::Object(rid) && final(interp).array_at(rid) matches Some(t)
            && t.len() == from_count(old(interp), if args@.len() > 0 { args@[0] } else { JsValue::Undefined })
            && (!(args@.len() > 1 && old(interp).is_function(args@[1])) ==> (forall|i: int| 0 <= i < t.len() ==> from_item(
                old(interp),
                if args@.len() > 0 { args@[0] } else { JsValue::Undefined },
                i,
                #[trigger] t[i],
            )))),
        (old(interp).fuel >= 1 && !(args@.len() > 1 && old(interp).is_function(args@[1]))) ==> (r == Ok::<JsValue, JsError>(
            JsValue::Object(old(interp).heap.len())) && final(interp).heap@.len() == old(interp).heap@.len() + 1),
    decreases old(interp).fuel,
{
    interp.step()?;
    let src = arg_at(&args, 0);
    let ghost a0 = if args@.len() > 0 { args@[0] } else { JsValue::Undefined };
    let items: Vec<JsValue> = match &src {
        JsValue::String(s) => char_strings(s),
        JsValue::Object(id) => if interp.is_array(&src) {
            elements_of(interp, *id)
        } else {
            Vec::new()
        },
        _ => Vec::new(),
    };
    assert(items@.len() == from_count(interp, a0));
    assert(forall|i: int| 0 <= i < items@.len() ==> from_item(interp, a0, i, #[trigger] items@[i]));
    let map_fn = arg_at(&args, 1);
    if !interp.is_callable(&map_fn) {
        let v = new_array_value(interp, items);
        return Ok(v);
    }
    let mut out: Vec<JsValue> = Vec::new();
    let mut i: usize = 0;
    assert(args@.len() > 1 && old(interp).is_function(args@[1]));
    while i < items.len()
        invariant
            interp.spends(old(interp), false),
            i <= items@.len(),
            out@.len() == i,
            items@.len() == from_count(old(interp), a0),
            args@.len() > 1 && old(interp).is_function(args@[1]),
        decreases items@.len() - i,
    {
        interp.step()?;
        let argv = vec![items[i].copy(), JsValue::from_usize(i)];
        let v = interp.call_function(map_fn.copy(), JsValue::Undefined, argv)?;
        out.push(v);
        i = i + 1;
    }
    Ok(new_array_value(interp, out))
}

/// `arr.entries()`: a new array of `[index, element]` pairs.
pub fn array_entries(interp: &mut Interpreter, this: JsValue, args: Vec<JsValue>) -> (r: Result<
    JsValue,
    JsError,
>)
    ensures
        final(interp).grows(old(interp)),
        final(interp).fuel == old(interp).fuel,
        array_value(old(interp), this) is None ==> is_type_error(r) && *final(interp) == *old(interp),
        (match array_value(old(interp), this) {
            Some(s) => r matches Ok(JsValue::Object(rid)) && final(interp).array_at(rid) matches Some(t)
                && t.len() == s.len() && forall|i: int| 0 <= i < t.len() ==> (#[trigger] t[i] matches JsValue::Object(
                pid,
            ) && final(interp).array_at(pid) matches Some(pair) && pair.len() == 2 && is_count(pair[0], i)
                && same_value(pair[1], s[i])),
            None => true,
        }),
{
    let id = this_array(interp, &this)?;
    let elems = elements_of(interp, id);
    let ghost s = old(interp).array_at(id).unwrap();
    let mut out: Vec<JsValue> = Vec::new();
    let mut i: usize = 0;
    while i < elems.len()
        invariant
            i <= elems@.len(),
            same_seq(elems@, s),
            out@.len() == i,
            interp.grows(old(interp)),
            interp.fuel == old(interp).fuel,
            forall|k: int| 0 <= k < out@.len() ==> (#[trigger] out@[k] matches JsValue::Object(pid)
                && interp.array_at(pid) matches Some(pair) && pair.len() == 2 && is_count(pair[0], k)
                && same_value(pair[1], s[k])),
        decreases elems@.len() - i,
    {
        let pair = vec![JsValue::from_usize(i), elems[i].copy()];
        let ghost prev = *interp;
        let v = new_array_value(interp, pair);
        proof {
            assert forall|k: int| 0 <= k < out@.len() implies (#[trigger] out@[k] matches JsValue::Object(pid)
                && interp.array_at(pid) matches Some(p2) && p2.len() == 2 && is_count(p2[0], k)
                && same_value(p2[1], s[k])) by {
                if let JsValue::Object(pid) = out@[k] {
                    assert(prev.array_at(pid) is Some);
                    assert(interp.heap@[pid as int] == prev.heap@[pid as int]);
                }
            }
        }
        out.push(v);
        i = i + 1;
    }
    let ghost prev = *interp;
    let r = new_array_value(interp, out);
    proof {
        assert forall|k: int| 0 <= k < out@.len() implies (#[trigger] out@[k] matches JsValue::Object(pid)
            && interp.array_at(pid) matches Some(p2) && p2.len() == 2 && is_count(p2[0], k)
            && same_value(p2[1], s[k])) by {
            if let JsValue::Object(pid) = out@[k] {
                assert(prev.array_at(pid) is Some);
                assert(interp.heap@[pid as int] == prev.heap@[pid as int]);
            }
        }
    }
    Ok(r)
}

/// `arr.values()`: an iterator over the elements; its `next()` reads the array as it is then.
pub fn array_values(interp: &mut Interpreter, this: JsValue, args: Vec<JsValue>) -> (r: Result<
    JsValue,
    JsError,
>)
    ensures
        final(interp).grows(old(interp)),
        final(interp).fuel == old(interp).fuel,
        array_value(old(interp), this) is None ==> is_type_error(r) && *final(interp) == *old(interp),
        array_value(old(interp), this) is Some ==> (r matches Ok(JsValue::Object(it)) && it < final(interp).heap@.len()
            && lookup_prop(final(interp).heap@[it as int].props@, "__array__"@) == Some(this)
            && lookup_prop(final(interp).heap@[it as int].props@, "__index__"@) == Some(JsValue::Number(spec_int(0)))),
{
    this_array(interp, &this)?;
    let it = interp.create_object();
    let next = interp.create_native(NativeId::ArrayIteratorNext, "next", 0);
    proof {
        reveal_strlit("__array__");
        reveal_strlit("__index__");
        reveal_strlit("next");
    }
    interp.put_own(it, chars_of("next"), JsValue::Object(next), false);
    interp.put_own(it, chars_of("__array__"), this, false);
    let ghost mid = interp.heap@[it as int].props@;
    interp.put_own(it, chars_of("__index__"), JsValue::Number(JsNumber::zero()), false);
    proof {
        assert("__array__"@ != "__index__"@) by {
            assert("__array__"@[2] != "__index__"@[2]);
        }
    }
    Ok(JsValue::Object(it))
}

/// Values that are the same give the same integer argument.
proof fn lemma_int_arg_value_same(a: JsValue, b: JsValue)
    requires
        same_value(a, b),
    ensures
        int_arg_value(a) == int_arg_value(b),
{
}

/// The array object an iterator made by `values()` walks, as its `__array__` property.
pub open spec fn iterator_array(interp: &Interpreter, this: JsValue) -> Option<usize> {
    match this {
        JsValue::Object(it) => if it < interp.heap@.len() {
            match lookup_prop(interp.heap@[it as int].props@, "__array__"@) {
                Some(JsValue::Object(a)) => Some(a),
                _ => None,
            }
        } else {
            None
        },
        _ => None,
    }
}

/// The next index of an array iterator, as its `__index__` property (0 when absent,
/// negative values read as 0), where it is known without running program code.
pub open spec fn iterator_index(interp: &Interpreter, this: JsValue) -> Option<int> {
    match this {
        JsValue::Object(it) => if it < interp.heap@.len() {
            match lookup_prop(interp.heap@[it as int].props@, "__index__"@) {
                Some(v) => match int_arg_value(v) {
                    Some(n) => Some(if n < 0 { 0 } else { n }),
                    None => None,
                },
                None => Some(0),
            }
        } else {
            None
        },
        _ => None,
    }
}

/// `next()` of an array iterator: `{ value, done }` for the next index of its array.
pub fn array_iterator_next(interp: &mut Interpreter, this: JsValue, args: Vec<JsValue>) -> (r: Result<
    JsValue,
    JsError,
>)
    ensures
        final(interp).grows(old(interp)),
        final(interp).fuel == old(interp).fuel,
        !(this is Object) ==> is_type_error(r),
        iterator_array(old(interp), this) is Some ==> (r matches Ok(JsValue::Object(res)) && res < final(interp).heap@.len()),
        (iterator_array(old(interp), this) is Some && iterator_index(old(interp), this) is Some
            && old(interp).array_at(iterator_array(old(interp), this).unwrap()) is Some) ==> ({
            let s = old(interp).array_at(iterator_array(old(interp), this).unwrap()).unwrap();
            let k = iterator_index(old(interp), this).unwrap();
            let res = r->Ok_0->Object_0;
            let props = final(interp).heap@[res as int].props@;
            &&& k >= s.len() ==> lookup_prop(props, "done"@) == Some(JsValue::Boolean(true)) && lookup_prop(props,
                "value"@) == Some(JsValue::Undefined)
            &&& k < s.len() ==> lookup_prop(props, "done"@) == Some(JsValue::Boolean(false)) && (lookup_prop(props,
                "value"@) matches Some(v) && same_value(v, s[k])) && lookup_prop(
                final(interp).heap@[this->Object_0 as int].props@,
                "__index__"@,
            ) == Some(JsValue::Number(spec_int(k + 1)))
        }),
{
    let it = match this {
        JsValue::Object(it) => it,
        _ => {
            return Err(type_error("next called on non-object"));
        },
    };
    let arr = match interp.get_own(it, chars_of("__array__").as_slice()) {
        Some(JsValue::Object(a)) => a,
        _ => {
            return Err(type_error("Invalid array iterator"));
        },
    };
    proof {
        reveal_strlit("__array__");
        reveal_strlit("__index__");
    }
    let k: i64 = match interp.get_own(it, chars_of("__index__").as_slice()) {
        Some(v) => {
            let args1 = vec![v];
            let n = int_arg(interp, &args1, 0);
            proof {
                assert(args1@[0] == v);
                assert(int_arg_value(v) == int_arg_value(
                    lookup_prop(interp.heap@[it as int].props@, "__index__"@).unwrap(),
                )) by {
                    lemma_int_arg_value_same(v, lookup_prop(interp.heap@[it as int].props@, "__index__"@).unwrap());
                }
            }
            if n < 0 {
                0
            } else {
                n
            }
        },
        None => 0,
    };
    let len = length_now(interp, arr);
    if (k as u64) >= (len as u64) {
        return Ok(JsValue::Object(create_generator_result(interp, JsValue::Undefined, true)));
    }
    let index = k as usize;
    let v = element_now(interp, arr, index);
    interp.put_own(it, chars_of("__index__"), JsValue::from_usize(index + 1), false);
    let res = create_generator_result(interp, v, false);
    Ok(JsValue::Object(res))
}

/// Installs the methods of `Array.prototype`.
pub fn init_array_prototype(interp: &mut Interpreter)
    ensures
        final(interp).grows(old(interp)),
        final(interp).same_state(old(interp)),
        final(interp).heap@.len() == old(interp).heap@.len() + 37,
{
    let p = interp.array_prototype;
    interp.register_method(p, "push", NativeId::ArrayPush, 1);
    interp.register_method(p, "pop", NativeId::ArrayPop, 0);
    interp.register_method(p, "shift", NativeId::ArrayShift, 0);
    interp.register_method(p, "unshift", NativeId::ArrayUnshift, 1);
    interp.register_method(p, "splice", NativeId::ArraySplice, 2);
    interp.register_method(p, "reverse", NativeId::ArrayReverse, 0);
    interp.register_method(p, "sort", NativeId::ArraySort, 1);
    interp.register_method(p, "fill", NativeId::ArrayFill, 3);
    interp.register_method(p, "copyWithin", NativeId::ArrayCopyWithin, 3);
    interp.register_method(p, "at", NativeId::ArrayAt, 1);
    interp.register_method(p, "concat", NativeId::ArrayConcat, 1);
    interp.register_method(p, "slice", NativeId::ArraySlice, 2);
    interp.register_method(p, "join", NativeId::ArrayJoin, 1);
    interp.register_method(p, "toString", NativeId::ArrayToString, 0);
    interp.register_method(p, "indexOf", NativeId::ArrayIndexOf, 1);
    interp.register_method(p, "lastIndexOf", NativeId::ArrayLastIndexOf, 1);
    interp.register_method(p, "includes", NativeId::ArrayIncludes, 1);
    interp.register_method(p, "forEach", NativeId::ArrayForEach, 1);
    interp.register_method(p, "map", NativeId::ArrayMap, 1);
    interp.register_method(p, "filter", NativeId::ArrayFilter, 1);
    interp.register_method(p, "reduce", NativeId::ArrayReduce, 1);
    interp.register_method(p, "reduceRight", NativeId::ArrayReduceRight, 1);
    interp.register_method(p, "find", NativeId::ArrayFind, 1);
    interp.register_method(p, "findIndex", NativeId::ArrayFindIndex, 1);
    interp.register_method(p, "findLast", NativeId::ArrayFindLast, 1);
    interp.register_method(p, "findLastIndex", NativeId::ArrayFindLastIndex, 1);
    interp.register_method(p, "every", NativeId::ArrayEvery, 1);
    interp.register_method(p, "some", NativeId::ArraySome, 1);
    interp.register_method(p, "flat", NativeId::ArrayFlat, 1);
    interp.register_method(p, "flatMap", NativeId::ArrayFlatMap, 1);
    interp.register_method(p, "toReversed", NativeId::ArrayToReversed, 0);
    interp.register_method(p, "toSorted", NativeId::ArrayToSorted, 1);
    interp.register_method(p, "toSpliced", NativeId::ArrayToSpliced, 2);
    interp.register_method(p, "with", NativeId::ArrayWith, 2);
    interp.register_method(p, "keys", NativeId::ArrayKeys, 0);
    interp.register_method(p, "values", NativeId::ArrayValues, 0);
    interp.register_method(p, "entries", NativeId::ArrayEntries, 0);
}

/// The `Array` constructor with `isArray`, `of` and `from`, linked to `Array.prototype`.
pub fn create_array_constructor(interp: &mut Interpreter) -> (f: usize)
    ensures
        final(interp).scopes@ == old(interp).scopes@,
        f < final(interp).heap@.len(),
        final(interp).grows(old(interp)),
        final(interp).same_registers(old(interp)),
{
    let f = interp.create_native(NativeId::ArrayCtor, "Array", 0);
    interp.register_method(f, "isArray", NativeId::ArrayIsArray, 1);
    interp.register_method(f, "of", NativeId::ArrayOf, 0);
    interp.register_method(f, "from", NativeId::ArrayFrom, 1);
    let p = interp.array_prototype;
    interp.put_own(f, chars_of("prototype"), JsValue::Object(p), false);
    interp.put_own(p, chars_of("constructor"), JsValue::Object(f), false);
    f
}

} // verus!
