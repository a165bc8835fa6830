//! Evaluation of expressions, calls and conversions.
use crate::ast::{
    Argument, ArrayElement, AssignOp, BinaryOp, Expression, FunctionBody, FunctionDef, LogicalOp,
    MemberProp, ObjectMember, Param, PropName, UnaryOp,
};
use crate::builtins::dispatch::{call_native, native_result};
use crate::builtins::helpers::plain_text;
use crate::eval::share_def;
use crate::interpreter::{
    arg_at, binding_assigned, chain_read, copy_values, first_prop_at, new_object, property_deleted, resolve_binding, same_kind_view, scopes_declared, type_error,
    Completion, Interpreter, Scope,
};
use crate::number::{append_chars, chars_of, JsNumber, NumOrder};
use crate::value::{
    copy_chars, same_value, strict_eq, strict_equals, truthy, ErrorKind, FunctionKind, JsError, JsValue, NativeId,
    ObjectKind, PropertyKey,
};

use vstd::prelude::*;

verus! {

/// Lexicographic comparison of code-unit sequences: -1, 0 or 1.
pub fn compare_chars(a: &[char], b: &[char]) -> (r: i8)
    ensures
        r == 0 <==> a@ == b@,
        -1 <= r <= 1,
{
    let n = if a.len() < b.len() {
        a.len()
    } else {
        b.len()
    };
    let mut i: usize = 0;
    while i < n
        invariant
            i <= n,
            n <= a@.len(),
            n <= b@.len(),
            forall|j: int| 0 <= j < i ==> a@[j] == b@[j],
        decreases n - i,
    {
        if a[i] != b[i] {
            return if (a[i] as u32) < (b[i] as u32) {
                -1
            } else {
                1
            };
        }
        i = i + 1;
    }
    if a.len() < b.len() {
        -1
    } else if a.len() > b.len() {
        1
    } else {
        assert(a@ =~= b@);
        0
    }
}

/// `ToInt32`.
pub fn to_int32(n: &JsNumber) -> (r: i32)
    requires
        n.wf(),
{
    let u = to_uint32(n);
    if u >= 2147483648 {
        (u as i64 - 4294967296) as i32
    } else {
        u as i32
    }
}

/// `ToUint32`.
pub fn to_uint32(n: &JsNumber) -> (r: u32)
    requires
        n.wf(),
{
    match n.round_with(crate::number::RoundMode::Trunc) {
        JsNumber::Finite { neg, mant, exp } => {
            // (mant × 10^exp) mod 2^32
            let mut p: u128 = 1;
            let mut i: i32 = 0;
            while i < exp
                invariant
                    p < 4294967296,
                decreases exp - i,
            {
                p = (p * 10) % 4294967296;
                i = i + 1;
            }
            let a = (mant as u128) % 4294967296;
            assert(a * p <= 4294967295 * 4294967295) by (nonlinear_arith)
                requires
                    a < 4294967296,
                    p < 4294967296,
            ;
            let m = a * p % 4294967296;
            let v: u128 = if neg && m != 0 {
                4294967296 - m
            } else {
                m
            };
            v as u32
        },
        _ => 0,
    }
}

/// `z` is a well-formed result of an arithmetic operation on `x` and `y` whose exact
/// value is `v`: NaN when an operand is, and exactly `v` when both operands are small
/// integers and `v` is within the mantissa range.
pub open spec fn exact_result(x: JsNumber, y: JsNumber, z: JsNumber, v: int) -> bool {
    &&& z.wf()
    &&& (x is NaN || y is NaN) ==> z is NaN
    &&& (x.is_small_int() && y.is_small_int() && -(crate::number::MANT_LIMIT as int) < v
        < crate::number::MANT_LIMIT) ==> z.is_small_int() && z.int_value() == v
}

/// `c` is a comparison of `x` and `y` whose answer on integers is `holds`: false when
/// an operand is NaN, `holds` when both are small integers.
pub open spec fn compared(x: JsNumber, y: JsNumber, c: bool, holds: bool) -> bool {
    &&& (x is NaN || y is NaN) ==> !c
    &&& (x.is_small_int() && y.is_small_int()) ==> c == holds
}

/// The operator and operands fall in the part of `binary_op` that `binary_result`
/// describes: arithmetic and comparison of two numbers, `+` of two strings, and
/// strict (in)equality of primitives.
pub open spec fn stated_binary(op: BinaryOp, a: JsValue, b: JsValue) -> bool {
    match (a, b) {
        (JsValue::Number(x), JsValue::Number(y)) => x.wf() && y.wf() && (op is Add || op is Sub || op is Mul
            || op is Div || op is Mod || op is Exp || op is Lt || op is Gt || op is LtEq || op is GtEq || op is StrictEq
            || op is StrictNotEq),
        (JsValue::String(_), JsValue::String(_)) => op is Add || op is StrictEq || op is StrictNotEq,
        _ => (op is StrictEq || op is StrictNotEq) && !(a is Object) && !(b is Object),
    }
}

/// The result of `a op b` on stated operands (see `stated_binary`).
pub open spec fn binary_result(op: BinaryOp, a: JsValue, b: JsValue, r: Result<JsValue, JsError>) -> bool {
    match op {
        BinaryOp::StrictEq => r == Ok::<JsValue, JsError>(JsValue::Boolean(strict_eq(a, b))),
        BinaryOp::StrictNotEq => r == Ok::<JsValue, JsError>(JsValue::Boolean(!strict_eq(a, b))),
        _ => match (a, b) {
            (JsValue::Number(x), JsValue::Number(y)) => match op {
                BinaryOp::Add => r matches Ok(JsValue::Number(z)) && exact_result(x, y, z, x.int_value() + y.int_value()),
                BinaryOp::Sub => r matches Ok(JsValue::Number(z)) && exact_result(x, y, z, x.int_value() - y.int_value()),
                BinaryOp::Mul => r matches Ok(JsValue::Number(z)) && exact_result(x, y, z, x.int_value() * y.int_value()),
                BinaryOp::Div => r matches Ok(JsValue::Number(z)) && z.wf() && ((x is NaN || y is NaN) ==> z is NaN),
                BinaryOp::Mod => r matches Ok(JsValue::Number(z)) && z.wf() && ((x is NaN || y is NaN) ==> z is NaN) && (
                (x.is_small_int() && y.is_small_int() && y.int_value() != 0) ==> z.is_small_int() && z.int_value()
                    == crate::number::int_rem(x.int_value(), y.int_value())),
                BinaryOp::Exp => r matches Ok(JsValue::Number(z)) && z.wf() && ((x is NaN || y is NaN) && !y.is_zero_spec()
                    ==> z is NaN) && ((x.is_small_int() && y.is_small_int() && 0 <= y.int_value() <= 9007199254740992
                    && crate::number::iabs(crate::number::ipow(x.int_value(), y.int_value() as nat))
                    < crate::number::MANT_LIMIT) ==> z.is_small_int() && z.int_value() == crate::number::ipow(
                    x.int_value(),
                    y.int_value() as nat,
                )),
                BinaryOp::Lt => r matches Ok(JsValue::Boolean(c)) && compared(x, y, c, x.int_value() < y.int_value()),
                BinaryOp::Gt => r matches Ok(JsValue::Boolean(c)) && compared(x, y, c, x.int_value() > y.int_value()),
                BinaryOp::LtEq => r matches Ok(JsValue::Boolean(c)) && compared(x, y, c, x.int_value() <= y.int_value()),
                BinaryOp::GtEq => r matches Ok(JsValue::Boolean(c)) && compared(x, y, c, x.int_value() >= y.int_value()),
                _ => true,
            },
            (JsValue::String(s), JsValue::String(t)) => op is Add ==> (r matches Ok(JsValue::String(u)) && u@ == s@
                + t@),
            _ => true,
        },
    }
}

/// The value a call binds to parameter `p`, the `i`-th: a new array of the remaining
/// arguments for a rest parameter; else the argument where it is given and not `undefined`;
/// else `undefined` where the parameter has no default (the default's value where it has).
pub open spec fn param_value(p: Param, args: Seq<JsValue>, i: int, v: JsValue) -> bool {
    if p.rest {
        v is Object
    } else if i < args.len() && !(args[i] is Undefined) {
        same_value(v, args[i])
    } else if p.default is None {
        v == JsValue::Undefined
    } else {
        true
    }
}

/// The definition of a function written in the program that `callee` is.
pub open spec fn closure_def(interp: &Interpreter, callee: JsValue) -> Option<FunctionDef> {
    match callee {
        JsValue::Object(id) => if id < interp.heap@.len() {
            match interp.heap@[id as int].kind {
                ObjectKind::Function(FunctionKind::Closure { def, .. }) => Some(*def),
                _ => None,
            }
        } else {
            None
        },
        _ => None,
    }
}

/// A call of the function `def` on `args` that gave `r`: `bound` holds the values its
/// parameters were bound to, and `body` how its block body completed (nothing for an
/// expression body). A block body gives the value of its `return`, or `undefined` where
/// it completed without one.
pub open spec fn closure_run(def: FunctionDef, args: Seq<JsValue>, bound: Seq<JsValue>, body: Option<Completion>, r: JsValue) -> bool {
    &&& bound.len() == def.params@.len()
    &&& forall|i: int| 0 <= i < bound.len() ==> param_value(def.params@[i], args, i, #[trigger] bound[i])
    &&& match def.body {
        FunctionBody::Block(_) => body matches Some(c) && r == (match c {
            Completion::Return(v) => v,
            _ => JsValue::Undefined,
        }),
        FunctionBody::Expr(_) => body is None,
    }
}

/// The two values are of one type: two numbers, strings, booleans or objects.
pub open spec fn same_kind(a: JsValue, b: JsValue) -> bool {
    ||| (a is Number && b is Number)
    ||| (a is String && b is String)
    ||| (a is Boolean && b is Boolean)
    ||| (a is Object && b is Object)
}

/// `a == b` where no conversion is needed: `undefined` and `null` equal each other and
/// nothing else, and two values of one type compare as with `===`. Nothing where a
/// conversion decides (a number, string, boolean or object against another type).
pub open spec fn plain_loose_eq(a: JsValue, b: JsValue) -> Option<bool> {
    let na = a is Undefined || a is Null;
    let nb = b is Undefined || b is Null;
    if na || nb {
        Some(na && nb)
    } else if same_kind(a, b) {
        Some(strict_eq(a, b))
    } else {
        None
    }
}

/// What `a == b` (`op` is `Eq`) or `a != b` (`op` is `NotEq`) gives where no conversion is
/// needed: the loose equality, or its negation.
pub open spec fn equality_result(op: BinaryOp, a: JsValue, b: JsValue, r: Result<JsValue, JsError>) -> bool {
    match plain_loose_eq(a, b) {
        Some(e) => r == Ok::<JsValue, JsError>(JsValue::Boolean(if op is NotEq { !e } else { e })),
        None => true,
    }
}

/// The kinds of primitive value that the evaluation law below tracks.
#[derive(PartialEq, Eq, Structural)]
pub enum PrimType {
    /// A well-formed number.
    Num,
    /// A string.
    Str,
    /// `undefined`, `null` or a boolean.
    Other,
}

/// The tracked kind of a value; none for objects and malformed numbers.
pub open spec fn prim_type(v: JsValue) -> Option<PrimType> {
    match v {
        JsValue::Number(x) => if x.wf() {
            Some(PrimType::Num)
        } else {
            None
        },
        JsValue::String(_) => Some(PrimType::Str),
        JsValue::Object(_) => None,
        _ => Some(PrimType::Other),
    }
}

/// The value of the binding that `name` resolves to from scope `env`, if any.
pub open spec fn bound_value(scopes: Seq<Scope>, env: usize, name: Seq<char>) -> Option<JsValue> {
    match resolve_binding(scopes, env as int, name, scopes.len()) {
        Some((s, i)) => Some(scopes[s].vars@[i].value),
        None => None,
    }
}

/// The kind of value that `e` yields in a state with these scopes, current scope and
/// `this`, for the expressions the evaluation law covers: literals, bound names, `this`
/// (all of primitive value), arithmetic and comparison on numbers, `+` on strings,
/// strict (in)equality, and logical and conditional operators whose branches agree in
/// kind. Anything else is outside the law.
pub open spec fn expr_type(scopes: Seq<Scope>, env: usize, this_val: JsValue, e: Expression) -> Option<PrimType>
    decreases e,
{
    match e {
        Expression::Number(n) => if n.wf() {
            Some(PrimType::Num)
        } else {
            None
        },
        Expression::Str(_) => Some(PrimType::Str),
        Expression::Bool(_) => Some(PrimType::Other),
        Expression::Null => Some(PrimType::Other),
        Expression::Ident(n) => match bound_value(scopes, env, n@) {
            Some(v) => prim_type(v),
            None => None,
        },
        Expression::This => prim_type(this_val),
        Expression::Binary(op, l, r) => match (expr_type(scopes, env, this_val, *l), expr_type(scopes, env, this_val, *r)) {
            (Some(PrimType::Num), Some(PrimType::Num)) => if op is Add || op is Sub || op is Mul || op is Div || op is Mod
                || op is Exp {
                Some(PrimType::Num)
            } else if op is Lt || op is Gt || op is LtEq || op is GtEq || op is StrictEq || op is StrictNotEq {
                Some(PrimType::Other)
            } else {
                None
            },
            (Some(PrimType::Str), Some(PrimType::Str)) => if op is Add {
                Some(PrimType::Str)
            } else if op is StrictEq || op is StrictNotEq {
                Some(PrimType::Other)
            } else {
                None
            },
            (Some(_), Some(_)) => if op is StrictEq || op is StrictNotEq {
                Some(PrimType::Other)
            } else {
                None
            },
            _ => None,
        },
        Expression::Logical(_, l, r) => {
            let a = expr_type(scopes, env, this_val, *l);
            if a is Some && a == expr_type(scopes, env, this_val, *r) {
                a
            } else {
                None
            }
        },
        Expression::Conditional(t, x, y) => {
            let a = expr_type(scopes, env, this_val, *x);
            if expr_type(scopes, env, this_val, *t) is Some && a is Some && a == expr_type(scopes, env, this_val, *y) {
                a
            } else {
                None
            }
        },
        _ => None,
    }
}

/// The steps that evaluating `e` may spend at most, for the expressions of the law.
pub open spec fn expr_cost(e: Expression) -> nat
    decreases e,
{
    match e {
        Expression::Binary(_, l, r) => 6 + expr_cost(*l) + expr_cost(*r),
        Expression::Logical(_, l, r) => 1 + expr_cost(*l) + expr_cost(*r),
        Expression::Conditional(t, x, y) => 1 + expr_cost(*t) + expr_cost(*x) + expr_cost(*y),
        Expression::Assign(_, _, v) => 4 + expr_cost(*v),
        _ => 1,
    }
}

/// `e` reads a named property of an object that a name is bound to (`o.key` or `o?.key`):
/// the object.
pub open spec fn name_member_object(scopes: Seq<Scope>, env: usize, e: Expression) -> Option<usize> {
    match e {
        Expression::Member(o, p, _) => match (*o, *p) {
            (Expression::Ident(n), MemberProp::Name(k)) => match bound_value(scopes, env, n@) {
                Some(JsValue::Object(id)) => Some(id),
                _ => None,
            },
            _ => None,
        },
        _ => None,
    }
}

/// The name of the key that `e` reads, for `o.key`.
pub open spec fn member_name(e: Expression) -> Seq<char> {
    match e {
        Expression::Member(_, p, _) => match *p {
            MemberProp::Name(k) => k@,
            _ => Seq::empty(),
        },
        _ => Seq::empty(),
    }
}

/// One plain argument that the evaluation law covers.
pub open spec fn single_plain_arg(scopes: Seq<Scope>, env: usize, this_val: JsValue, args: Seq<Argument>) -> bool {
    args.len() == 1 && args[0] is Plain && expr_type(scopes, env, this_val, args[0]->Plain_0) is Some
}

/// A call of `callee` with `args` where `callee` is a name bound to a built-in function and
/// `args` is one plain argument that the evaluation law covers: the built-in.
pub open spec fn native_call_parts(interp: &Interpreter, callee: Expression, args: Seq<Argument>) -> Option<NativeId> {
    match callee {
        Expression::Ident(n) => match bound_value(interp.scopes@, interp.env, n@) {
            Some(v) => if single_plain_arg(interp.scopes@, interp.env, interp.this_val, args) {
                native_callee(interp, v)
            } else {
                None
            },
            None => None,
        },
        _ => None,
    }
}

/// `e` is such a call (see `native_call_parts`): the built-in.
pub open spec fn native_call_id(interp: &Interpreter, e: Expression) -> Option<NativeId> {
    match e {
        Expression::Call(c, args, _) => native_call_parts(interp, *c, args@),
        _ => None,
    }
}

/// The first argument expression of a call (`null` when there is none).
pub open spec fn call_arg(e: Expression) -> Expression {
    match e {
        Expression::Call(_, args, _) => if args@.len() > 0 && args@[0] is Plain {
            args@[0]->Plain_0
        } else {
            Expression::Null
        },
        _ => Expression::Null,
    }
}

/// The built-in that `v` is, when it is a native function object of `interp`.
pub open spec fn native_callee(interp: &Interpreter, v: JsValue) -> Option<NativeId> {
    match v {
        JsValue::Object(id) => if id < interp.heap@.len() {
            match interp.heap@[id as int].kind {
                ObjectKind::Function(FunctionKind::Native(n)) => Some(n),
                _ => None,
            }
        } else {
            None
        },
        _ => None,
    }
}

/// An assignment to `name` may be made: the name is bound to a variable that is not
/// constant, or it is bound nowhere (and becomes a global).
pub open spec fn name_assignable(scopes: Seq<Scope>, env: usize, name: Seq<char>) -> bool {
    match resolve_binding(scopes, env as int, name, scopes.len()) {
        Some((s, i)) => scopes[s].vars@[i].mutable,
        None => true,
    }
}

/// `after` is `before` with `value` assigned to `name` as seen from scope `env`: the
/// binding it resolves to is updated, or a global is declared when there is none.
pub open spec fn scopes_assigned(before: Seq<Scope>, after: Seq<Scope>, env: usize, name: Seq<char>, value: JsValue) -> bool {
    match resolve_binding(before, env as int, name, before.len()) {
        Some((s, i)) => binding_assigned(before, after, s, i, value),
        None => scopes_declared(before, after, 0, name, value, true),
    }
}

/// `e` is a plain assignment `name = value`.
pub open spec fn name_assignment(e: Expression) -> bool {
    e matches Expression::Assign(op, t, _) && op is Assign && *t is Ident
}

/// The logical operator returns its left operand `a` without evaluating the right.
pub open spec fn short_circuits(op: LogicalOp, a: JsValue) -> bool {
    match op {
        LogicalOp::And => !truthy(a),
        LogicalOp::Or => truthy(a),
        LogicalOp::Nullish => !(a is Undefined || a is Null),
    }
}

/// `r` is what evaluating `e` gives, for the expressions of the law (see `expr_type`):
/// literals give themselves, a name the value bound to it, `this` its value; a binary
/// operator gives `binary_result` of its operands' values; `&&`, `||` and `??` give the
/// left value when it decides and the right operand's result otherwise; `c ? x : y`
/// gives the result of `x` when `c` is truthy and of `y` otherwise.
pub open spec fn expr_outcome(
    scopes: Seq<Scope>,
    env: usize,
    this_val: JsValue,
    e: Expression,
    r: Result<JsValue, JsError>,
) -> bool
    decreases e,
{
    match e {
        Expression::Number(n) => r == Ok::<JsValue, JsError>(JsValue::Number(n)),
        Expression::Str(t) => r matches Ok(JsValue::String(u)) && u@ == t@,
        Expression::Bool(b) => r == Ok::<JsValue, JsError>(JsValue::Boolean(b)),
        Expression::Null => r == Ok::<JsValue, JsError>(JsValue::Null),
        Expression::Ident(n) => match bound_value(scopes, env, n@) {
            Some(w) => r matches Ok(v) && same_value(v, w),
            None => false,
        },
        Expression::This => r matches Ok(v) && same_value(v, this_val),
        Expression::Binary(op, l, rr) => exists|a: JsValue, b: JsValue|
            expr_outcome(scopes, env, this_val, *l, Ok(a)) && expr_outcome(scopes, env, this_val, *rr, Ok(b))
                && binary_result(op, a, b, r),
        Expression::Logical(op, l, rr) => exists|a: JsValue|
            expr_outcome(scopes, env, this_val, *l, Ok(a)) && if short_circuits(op, a) {
                r == Ok::<JsValue, JsError>(a)
            } else {
                expr_outcome(scopes, env, this_val, *rr, r)
            },
        Expression::Conditional(t, x, y) => exists|c: JsValue|
            expr_outcome(scopes, env, this_val, *t, Ok(c)) && if truthy(c) {
                expr_outcome(scopes, env, this_val, *x, r)
            } else {
                expr_outcome(scopes, env, this_val, *y, r)
            },
        _ => false,
    }
}

/// `r` holds a value of kind `t`.
pub open spec fn typed_ok(r: Result<JsValue, JsError>, t: PrimType) -> bool {
    r matches Ok(v) && prim_type(v) == Some(t)
}

impl Interpreter {
    /// Evaluates an expression.
    pub fn evaluate(&mut self, expr: &Expression) -> (r: Result<JsValue, JsError>)
        ensures
            final(self).spends(old(self), r is Err),
            (expr_type(old(self).scopes@, old(self).env, old(self).this_val, *expr) is Some && old(self).fuel
                >= expr_cost(*expr)) ==> expr_outcome(old(self).scopes@, old(self).env, old(self).this_val, *expr, r)
                && typed_ok(r, expr_type(old(self).scopes@, old(self).env, old(self).this_val, *expr)->0) && final(self).same_but_fuel(old(self)) && final(self).fuel + expr_cost(*expr)
                >= old(self).fuel,
            (*expr matches Expression::Ident(n) && bound_value(old(self).scopes@, old(self).env, n@) is None
                && old(self).fuel > 0) ==> (r matches Err(JsError::Raised(k, m)) && k == ErrorKind::ReferenceError
                && m@ == (*expr)->Ident_0@ + " is not defined"@ && final(self).same_but_fuel(old(self))
                && final(self).fuel == old(self).fuel - 1),
            (name_assignment(*expr) && expr_type(old(self).scopes@, old(self).env, old(self).this_val, *(*expr)->Assign_2)
                is Some && old(self).fuel >= expr_cost(*expr) && forall|v: JsValue|
                #![trigger expr_outcome(old(self).scopes@, old(self).env, old(self).this_val, *(*expr)->Assign_2, Ok(v))]
                expr_outcome(old(self).scopes@, old(self).env, old(self).this_val, *(*expr)->Assign_2, Ok(v))
                    ==> name_assignable(old(self).scopes@, old(self).env, (*(*expr)->Assign_1)->Ident_0@)) ==> (r matches Ok(w)
                && final(self).heap@ == old(self).heap@ && final(self).same_registers_but_fuel(old(self))
                && final(self).fuel + expr_cost(*expr) >= old(self).fuel && exists|v: JsValue|
                expr_outcome(old(self).scopes@, old(self).env, old(self).this_val, *(*expr)->Assign_2, Ok(v)) && same_value(
                    w,
                    v,
                ) && scopes_assigned(
                    old(self).scopes@,
                    final(self).scopes@,
                    old(self).env,
                    (*(*expr)->Assign_1)->Ident_0@,
                    v,
                )),
            (name_member_object(old(self).scopes@, old(self).env, *expr) is Some && old(self).fuel >= 4) ==> (r matches Ok(v)
                && (exists|k: PropertyKey|
                #![trigger chain_read(old(self).heap@, name_member_object(old(self).scopes@, old(self).env, *expr)->0 as int, k, old(self).heap@.len(), v)]
                k is Name && k->Name_0@ == member_name(*expr) && chain_read(
                    old(self).heap@,
                    name_member_object(old(self).scopes@, old(self).env, *expr)->0 as int,
                    k,
                    old(self).heap@.len(),
                    v,
                )) && final(self).same_but_fuel(old(self)) && final(self).fuel + 4 >= old(self).fuel),
            native_call_id(old(self), *expr) matches Some(n) ==> (old(self).fuel >= 6 + expr_cost(call_arg(*expr))
                ==> exists|v: JsValue|
                expr_outcome(old(self).scopes@, old(self).env, old(self).this_val, call_arg(*expr), Ok(v))
                    && native_result(n, seq![v], r)),
            (*expr matches Expression::Ident(n) && bound_value(old(self).scopes@, old(self).env, n@) is Some
                && old(self).fuel > 0) ==> (r matches Ok(v) && same_value(v, bound_value(
                old(self).scopes@,
                old(self).env,
                (*expr)->Ident_0@,
            ).unwrap()) && final(self).same_but_fuel(old(self)) && final(self).fuel == old(self).fuel - 1),
        decreases old(self).fuel,
    {
        self.step()?;
        match expr {
            Expression::Number(n) => Ok(JsValue::Number(*n)),
            Expression::Str(s) => Ok(JsValue::String(copy_chars(s))),
            Expression::Bool(b) => Ok(JsValue::Boolean(*b)),
            Expression::Null => Ok(JsValue::Null),
            Expression::Ident(name) => {
                match self.lookup_var(name.as_slice()) {
                    Some(v) => Ok(v),
                    None => {
                        let mut msg = copy_chars(name);
                        append_chars(&mut msg, chars_of(" is not defined").as_slice());
                        Err(JsError::Raised(ErrorKind::ReferenceError, msg))
                    },
                }
            },
            Expression::This => Ok(self.this_val.copy()),
            Expression::Template(strs, exprs) => {
                let mut out: Vec<char> = Vec::new();
                let mut i: usize = 0;
                while i < strs.len()
                    invariant
                        self.spends(old(self), false),
                        expr_type(old(self).scopes@, old(self).env, old(self).this_val, *expr) is None,
                        !(*expr is Ident),
                        !name_assignment(*expr),
                        name_member_object(old(self).scopes@, old(self).env, *expr) is None,
                        native_call_id(old(self), *expr) is None,
                    decreases strs@.len() - i,
                {
                    append_chars(&mut out, strs[i].as_slice());
                    if i < exprs.len() {
                        let v = self.evaluate(&exprs[i])?;
                        let s = self.to_js_string(&v)?;
                        append_chars(&mut out, s.as_slice());
                    }
                    i = i + 1;
                }
                Ok(JsValue::String(out))
            },
            Expression::Array(elems) => {
                let mut out: Vec<JsValue> = Vec::new();
                let mut i: usize = 0;
                while i < elems.len()
                    invariant
                        self.spends(old(self), false),
                        expr_type(old(self).scopes@, old(self).env, old(self).this_val, *expr) is None,
                        !(*expr is Ident),
                        !name_assignment(*expr),
                        name_member_object(old(self).scopes@, old(self).env, *expr) is None,
                        native_call_id(old(self), *expr) is None,
                    decreases elems@.len() - i,
                {
                    match &elems[i] {
                        ArrayElement::Item(e) => {
                            let v = self.evaluate(e)?;
                            out.push(v);
                        },
                        ArrayElement::Spread(e) => {
                            let v = self.evaluate(e)?;
                            match self.iterate_values(&v)? {
                                Some(items) => {
                                    let mut k: usize = 0;
                                    while k < items.len()
                                        invariant
                                            k <= items@.len(),
                                        decreases items@.len() - k,
                                    {
                                        out.push(items[k].copy());
                                        k = k + 1;
                                    }
                                },
                                None => {
                                    return Err(type_error("Spread syntax requires an iterable"));
                                },
                            }
                        },
                        ArrayElement::Hole => {
                            out.push(JsValue::Undefined);
                        },
                    }
                    i = i + 1;
                }
                let id = self.create_array(out);
                Ok(JsValue::Object(id))
            },
            Expression::Object(members) => {
                let obj = self.create_object();
                let mut i: usize = 0;
                while i < members.len()
                    invariant
                        self.spends(old(self), false),
                        expr_type(old(self).scopes@, old(self).env, old(self).this_val, *expr) is None,
                        !(*expr is Ident),
                        !name_assignment(*expr),
                        name_member_object(old(self).scopes@, old(self).env, *expr) is None,
                        native_call_id(old(self), *expr) is None,
                    decreases members@.len() - i,
                {
                    match &members[i] {
                        ObjectMember::Prop(key, value) => {
                            let k = match key {
                                PropName::Name(n) => copy_chars(n),
                                PropName::Computed(e) => {
                                    let kv = self.evaluate(e)?;
                                    self.to_js_string(&kv)?
                                },
                            };
                            let v = self.evaluate(value)?;
                            self.put_own(obj, k, v, true);
                        },
                        ObjectMember::Spread(e) => {
                            let v = self.evaluate(e)?;
                            self.copy_enumerable(&v, obj);
                        },
                    }
                    i = i + 1;
                }
                Ok(JsValue::Object(obj))
            },
            Expression::Function(def) => {
                let f = self.make_closure(def);
                Ok(JsValue::Object(f))
            },
            Expression::Unary(op, arg) => self.evaluate_unary(*op, &**arg),
            Expression::Binary(op, l, r) => {
                let a = self.evaluate(&**l)?;
                let b = self.evaluate(&**r)?;
                let ghost ga = a;
                let ghost gb = b;
                let res = self.binary_op(*op, a, b);
                proof {
                    if expr_type(old(self).scopes@, old(self).env, old(self).this_val, *expr) is Some
                        && old(self).fuel >= expr_cost(*expr) {
                        assert(expr_outcome(old(self).scopes@, old(self).env, old(self).this_val, **l, Ok(ga)));
                        assert(expr_outcome(old(self).scopes@, old(self).env, old(self).this_val, **r, Ok(gb)));
                        assert(binary_result(*op, ga, gb, res));
                        assert(*expr == Expression::Binary(*op, *l, *r));
                        assert(expr_outcome(old(self).scopes@, old(self).env, old(self).this_val, *expr, res));
                    }
                }
                res
            },
            Expression::Logical(op, l, r) => {
                let a = self.evaluate(&**l)?;
                let ghost ga = a;
                proof {
                    if expr_type(old(self).scopes@, old(self).env, old(self).this_val, *expr) is Some
                        && old(self).fuel >= expr_cost(*expr) {
                        assert(expr_outcome(old(self).scopes@, old(self).env, old(self).this_val, **l, Ok(ga)));
                    }
                }
                let short = match op {
                    LogicalOp::And => !a.to_boolean(),
                    LogicalOp::Or => a.to_boolean(),
                    LogicalOp::Nullish => !a.is_nullish(),
                };
                let res = if short {
                    Ok(a)
                } else {
                    self.evaluate(&**r)
                };
                proof {
                    if expr_type(old(self).scopes@, old(self).env, old(self).this_val, *expr) is Some
                        && old(self).fuel >= expr_cost(*expr) {
                        assert(*expr == Expression::Logical(*op, *l, *r));
                        assert(short == short_circuits(*op, ga));
                        if short {
                            assert(res == Ok::<JsValue, JsError>(ga));
                        } else {
                            assert(expr_outcome(old(self).scopes@, old(self).env, old(self).this_val, **r, res));
                        }
                        assert(expr_outcome(old(self).scopes@, old(self).env, old(self).this_val, *expr, res));
                    }
                }
                res
            },
            Expression::Conditional(t, a, b) => {
                let tv = self.evaluate(&**t)?;
                let ghost gt = tv;
                proof {
                    if expr_type(old(self).scopes@, old(self).env, old(self).this_val, *expr) is Some
                        && old(self).fuel >= expr_cost(*expr) {
                        assert(expr_outcome(old(self).scopes@, old(self).env, old(self).this_val, **t, Ok(gt)));
                    }
                }
                let res = if tv.to_boolean() {
                    self.evaluate(&**a)
                } else {
                    self.evaluate(&**b)
                };
                proof {
                    if expr_type(old(self).scopes@, old(self).env, old(self).this_val, *expr) is Some
                        && old(self).fuel >= expr_cost(*expr) {
                        assert(*expr == Expression::Conditional(*t, *a, *b));
                        assert(expr_outcome(old(self).scopes@, old(self).env, old(self).this_val, *expr, res));
                    }
                }
                res
            },
            Expression::Assign(op, target, value) => self.evaluate_assign(*op, &**target, &**value),
            Expression::Update(inc, prefix, target) => {
                let old_v = self.evaluate(&**target)?;
                let n = self.to_number(&old_v)?;
                let one = JsNumber::from_u64(1);
                let new_n = if *inc {
                    n.add(&one)
                } else {
                    n.sub(&one)
                };
                self.assign_to(&**target, JsValue::Number(new_n))?;
                if *prefix {
                    Ok(JsValue::Number(new_n))
                } else {
                    Ok(JsValue::Number(n))
                }
            },
            Expression::Member(obj, prop, optional) => {
                let ghost read = name_member_object(old(self).scopes@, old(self).env, *expr) is Some && old(self).fuel >= 4;
                let base = self.evaluate(&**obj)?;
                proof {
                    if read {
                        assert(base == JsValue::Object(name_member_object(old(self).scopes@, old(self).env, *expr)->0));
                    }
                }
                if *optional && base.is_nullish() {
                    return Ok(JsValue::Undefined);
                }
                let key = self.member_key(&**prop)?;
                let r = self.get_member(&base, &key);
                proof {
                    if read {
                        assert(key->Name_0@ == member_name(*expr));
                        assert(r is Ok);
                        assert(chain_read(
                            old(self).heap@,
                            name_member_object(old(self).scopes@, old(self).env, *expr)->0 as int,
                            key,
                            old(self).heap@.len(),
                            r->Ok_0,
                        ));
                    }
                }
                r
            },
            Expression::Call(callee, args, optional) => self.evaluate_call(&**callee, args, *optional),
            Expression::New(callee, args) => {
                let f = self.evaluate(&**callee)?;
                let argv = self.evaluate_args(args)?;
                self.construct(f, argv)
            },
            Expression::Sequence(items) => {
                let mut last = JsValue::Undefined;
                let mut i: usize = 0;
                while i < items.len()
                    invariant
                        self.spends(old(self), false),
                        expr_type(old(self).scopes@, old(self).env, old(self).this_val, *expr) is None,
                        !(*expr is Ident),
                        !name_assignment(*expr),
                        name_member_object(old(self).scopes@, old(self).env, *expr) is None,
                        native_call_id(old(self), *expr) is None,
                    decreases items@.len() - i,
                {
                    last = self.evaluate(&items[i])?;
                    i = i + 1;
                }
                Ok(last)
            },
            Expression::Spread(_) => Err(
                JsError::Raised(ErrorKind::SyntaxError, chars_of("Unexpected token '...'")),
            ),
        }
    }

    /// Copies the own enumerable properties of `src` onto object `dst`.
    pub fn copy_enumerable(&mut self, src: &JsValue, dst: usize)
        ensures
            final(self).heap@.len() == old(self).heap@.len(),
            final(self).scopes@ == old(self).scopes@,
            final(self).fuel == old(self).fuel,
            final(self).env == old(self).env,
            final(self).this_val == old(self).this_val,
    {
        match src {
            JsValue::Object(id) => {
                if *id >= self.heap.len() {
                    return;
                }
                let id = *id;
                if let Some(elems) = self.array_elements(src) {
                    let mut i: usize = 0;
                    while i < elems.len()
                        invariant
                            self.heap@.len() == old(self).heap@.len(),
                            self.scopes@ == old(self).scopes@,
                            self.fuel == old(self).fuel,
                            self.env == old(self).env,
                            self.this_val == old(self).this_val,
                        decreases elems@.len() - i,
                    {
                        self.put_own(dst, crate::number::u64_to_dec(i as u64), elems[i].copy(), true);
                        i = i + 1;
                    }
                }
                let n = self.heap[id].props.len();
                let mut k: usize = 0;
                while k < n
                    invariant
                        id < self.heap@.len(),
                        self.heap@.len() == old(self).heap@.len(),
                        self.scopes@ == old(self).scopes@,
                        self.fuel == old(self).fuel,
                        self.env == old(self).env,
                        self.this_val == old(self).this_val,
                    decreases n - k,
                {
                    if k < self.heap[id].props.len() && self.heap[id].props[k].enumerable {
                        let key = copy_chars(&self.heap[id].props[k].key);
                        let v = self.heap[id].props[k].value.copy();
                        self.put_own(dst, key, v, true);
                    }
                    k = k + 1;
                }
            },
            JsValue::String(s) => {
                let mut i: usize = 0;
                while i < s.len()
                    invariant
                        self.heap@.len() == old(self).heap@.len(),
                        self.scopes@ == old(self).scopes@,
                        self.fuel == old(self).fuel,
                        self.env == old(self).env,
                        self.this_val == old(self).this_val,
                    decreases s@.len() - i,
                {
                    let mut c: Vec<char> = Vec::new();
                    c.push(s[i]);
                    self.put_own(dst, crate::number::u64_to_dec(i as u64), JsValue::String(c), true);
                    i = i + 1;
                }
            },
            _ => {},
        }
    }

    /// The property key of a member expression.
    fn member_key(&mut self, prop: &MemberProp) -> (r: Result<PropertyKey, JsError>)
        ensures
            final(self).spends(old(self), r is Err),
            (*prop is Name && old(self).fuel > 0) ==> (r matches Ok(PropertyKey::Name(k)) && k@ == prop->Name_0@
                && final(self).same_but_fuel(old(self)) && final(self).fuel == old(self).fuel - 1),
        decreases old(self).fuel,
    {
        self.step()?;
        match prop {
            MemberProp::Name(n) => Ok(PropertyKey::Name(copy_chars(n))),
            MemberProp::Computed(e) => {
                let v = self.evaluate(e)?;
                self.to_property_key(&v)
            },
        }
    }

    /// `ToPropertyKey`.
    pub fn to_property_key(&mut self, v: &JsValue) -> (r: Result<PropertyKey, JsError>)
        ensures
            final(self).spends(old(self), r is Err),
        decreases old(self).fuel,
    {
        self.step()?;
        match v {
            JsValue::Object(_) => {
                let s = self.to_js_string(v)?;
                Ok(self.key_of_primitive(&JsValue::String(s)))
            },
            _ => Ok(self.key_of_primitive(v)),
        }
    }

    /// Reads a property of any value (primitives use their prototype).
    pub fn get_member(&mut self, base: &JsValue, key: &PropertyKey) -> (r: Result<
        JsValue,
        JsError,
    >)
        ensures
            final(self).spends(old(self), r is Err),
            (*base is Object && old(self).fuel > 0) ==> (r matches Ok(v) && chain_read(
                old(self).heap@,
                base->Object_0 as int,
                *key,
                old(self).heap@.len(),
                v,
            ) && final(self).same_but_fuel(old(self)) && final(self).fuel == old(self).fuel - 1),
        decreases old(self).fuel,
    {
        self.step()?;
        match base {
            JsValue::Object(id) => Ok(self.get_property(*id, key)),
            JsValue::String(s) => {
                match key {
                    PropertyKey::Index(i) => {
                        if *i < s.len() {
                            let mut c: Vec<char> = Vec::new();
                            c.push(s[*i]);
                            return Ok(JsValue::String(c));
                        }
                        Ok(JsValue::Undefined)
                    },
                    PropertyKey::Name(n) => {
                        if crate::parser::text_is(n, "length") {
                            return Ok(JsValue::from_usize(s.len()));
                        }
                        let p = self.string_prototype;
                        Ok(self.get_property(p, key))
                    },
                }
            },
            JsValue::Number(_) => {
                let p = self.number_prototype;
                Ok(self.get_property(p, key))
            },
            JsValue::Boolean(_) => {
                let p = self.boolean_prototype;
                Ok(self.get_property(p, key))
            },
            JsValue::Undefined => Err(
                type_error("Cannot read properties of undefined"),
            ),
            JsValue::Null => Err(type_error("Cannot read properties of null")),
        }
    }

    /// Assigns a value to an identifier or member target.
    fn assign_to(&mut self, target: &Expression, value: JsValue) -> (r: Result<(), JsError>)
        ensures
            final(self).spends(old(self), r is Err),
            (*target is Ident && old(self).fuel > 0 && name_assignable(old(self).scopes@, old(self).env, target->Ident_0@))
                ==> r is Ok && final(self).heap@ == old(self).heap@ && final(self).same_registers_but_fuel(old(self))
                && final(self).fuel == old(self).fuel - 1 && scopes_assigned(
                old(self).scopes@,
                final(self).scopes@,
                old(self).env,
                target->Ident_0@,
                value,
            ),
        decreases old(self).fuel,
    {
        self.step()?;
        match target {
            Expression::Ident(name) => self.assign_var(name.as_slice(), value),
            Expression::Member(obj, prop, _) => {
                let base = self.evaluate(&**obj)?;
                let key = self.member_key(&**prop)?;
                match base {
                    JsValue::Object(id) => {
                        self.set_property(id, key, value);
                        Ok(())
                    },
                    JsValue::Undefined => Err(type_error("Cannot set properties of undefined")),
                    JsValue::Null => Err(type_error("Cannot set properties of null")),
                    _ => Ok(()),
                }
            },
            _ => Err(
                JsError::Raised(
                    ErrorKind::SyntaxError,
                    chars_of("Invalid left-hand side in assignment"),
                ),
            ),
        }
    }

    fn evaluate_assign(&mut self, op: AssignOp, target: &Expression, value: &Expression) -> (r:
        Result<JsValue, JsError>)
        ensures
            final(self).spends(old(self), r is Err),
            (op is Assign && *target is Ident && expr_type(old(self).scopes@, old(self).env, old(self).this_val, *value)
                is Some && old(self).fuel >= 3 + expr_cost(*value) && forall|v: JsValue|
                #![trigger expr_outcome(old(self).scopes@, old(self).env, old(self).this_val, *value, Ok(v))]
                expr_outcome(old(self).scopes@, old(self).env, old(self).this_val, *value, Ok(v)) ==> name_assignable(
                    old(self).scopes@,
                    old(self).env,
                    target->Ident_0@,
                )) ==> (r matches Ok(w) && final(self).heap@ == old(self).heap@ && final(self).same_registers_but_fuel(
                old(self),
            ) && final(self).fuel + 3 + expr_cost(*value) >= old(self).fuel && exists|v: JsValue|
                expr_outcome(old(self).scopes@, old(self).env, old(self).this_val, *value, Ok(v)) && same_value(w, v)
                    && scopes_assigned(old(self).scopes@, final(self).scopes@, old(self).env, target->Ident_0@, v)),
        decreases old(self).fuel,
    {
        self.step()?;
        match op {
            AssignOp::Assign => {
                let v = self.evaluate(value)?;
                let keep = v.copy();
                let ghost mid = *self;
                self.assign_to(target, v)?;
                proof {
                    if *target is Ident && expr_type(old(self).scopes@, old(self).env, old(self).this_val, *value) is Some
                        && old(self).fuel >= 3 + expr_cost(*value) {
                        assert(expr_outcome(old(self).scopes@, old(self).env, old(self).this_val, *value, Ok(v)));
                        assert(mid.scopes@ == old(self).scopes@);
                    }
                }
                Ok(keep)
            },
            AssignOp::Compound(bop) => {
                let cur = self.evaluate(target)?;
                let rhs = self.evaluate(value)?;
                let v = self.binary_op(bop, cur, rhs)?;
                let keep = v.copy();
                self.assign_to(target, v)?;
                Ok(keep)
            },
            AssignOp::AndAssign | AssignOp::OrAssign | AssignOp::NullishAssign => {
                let cur = self.evaluate(target)?;
                let skip = match op {
                    AssignOp::AndAssign => !cur.to_boolean(),
                    AssignOp::OrAssign => cur.to_boolean(),
                    _ => !cur.is_nullish(),
                };
                if skip {
                    return Ok(cur);
                }
                let v = self.evaluate(value)?;
                let keep = v.copy();
                self.assign_to(target, v)?;
                Ok(keep)
            },
        }
    }

    fn evaluate_unary(&mut self, op: UnaryOp, arg: &Expression) -> (r: Result<JsValue, JsError>)
        ensures
            final(self).spends(old(self), r is Err),
        decreases old(self).fuel,
    {
        self.step()?;
        if let UnaryOp::TypeOf = op {
            if let Expression::Ident(name) = arg {
                match self.lookup_var(name.as_slice()) {
                    Some(v) => {
                        return Ok(JsValue::String(self.type_of(&v)));
                    },
                    None => {
                        return Ok(JsValue::String(chars_of("undefined")));
                    },
                }
            }
        }
        if let UnaryOp::Delete = op {
            if let Expression::Member(obj, prop, _) = arg {
                let base = self.evaluate(&**obj)?;
                let key = self.member_key(&**prop)?;
                if let JsValue::Object(id) = base {
                    let ok = self.delete_property(id, &key);
                    return Ok(JsValue::Boolean(ok));
                }
                return Ok(JsValue::Boolean(true));
            }
            return Ok(JsValue::Boolean(true));
        }
        let v = self.evaluate(arg)?;
        match op {
            UnaryOp::Minus => {
                let n = self.to_number(&v)?;
                Ok(JsValue::Number(n.neg()))
            },
            UnaryOp::Plus => {
                let n = self.to_number(&v)?;
                Ok(JsValue::Number(n))
            },
            UnaryOp::Not => Ok(JsValue::Boolean(!v.to_boolean())),
            UnaryOp::BitNot => {
                let n = self.to_number(&v)?;
                let i = to_int32(&n);
                Ok(JsValue::from_i64(-(i as i64) - 1))
            },
            UnaryOp::TypeOf => Ok(JsValue::String(self.type_of(&v))),
            UnaryOp::Void => Ok(JsValue::Undefined),
            UnaryOp::Delete => Ok(JsValue::Boolean(true)),
        }
    }

    /// Removes an own property; false when it is not configurable.
    pub fn delete_property(&mut self, obj: usize, key: &PropertyKey) -> (b: bool)
        ensures
            final(self).unchanged_but(old(self), obj as int),
            obj >= old(self).heap@.len() ==> b && final(self).heap@ == old(self).heap@,
            obj < old(self).heap@.len() ==> property_deleted(
                old(self).heap@[obj as int],
                final(self).heap@[obj as int],
                *key,
                b,
            ),
    {
        if obj >= self.heap.len() {
            return true;
        }
        let ghost before = self.heap@[obj as int];
        let name = match key {
            PropertyKey::Index(i) => {
                if self.is_array(&JsValue::Object(obj)) {
                    let mut elems = self.take_elements(obj);
                    let inside = *i < elems.len();
                    if inside {
                        elems.set(*i, JsValue::Undefined);
                    }
                    self.set_array_elements(obj, elems);
                    if inside {
                        return true;
                    }
                }
                crate::number::u64_to_dec(*i as u64)
            },
            PropertyKey::Name(n) => copy_chars(n),
        };
        let ghost mid = self.heap@[obj as int];
        assert(same_kind_view(before, mid));
        match crate::interpreter::find_prop(&self.heap[obj].props, name.as_slice()) {
            Some(i) => {
                proof {
                    assert(first_prop_at(mid.props@, name@, i as int));
                    let k = choose|k: int| first_prop_at(mid.props@, name@, k);
                    assert(first_prop_at(mid.props@, name@, k));
                    if k < i {
                        assert(mid.props@[k].key@ != name@);
                    } else if i < k {
                        assert(mid.props@[i as int].key@ != name@);
                    }
                }
                if !self.heap[obj].props[i].configurable {
                    return false;
                }
                self.heap[obj].props.remove(i);
                true
            },
            None => true,
        }
    }

    /// Applies a binary operator to two values.
    pub fn binary_op(&mut self, op: BinaryOp, a: JsValue, b: JsValue) -> (r: Result<
        JsValue,
        JsError,
    >)
        ensures
            final(self).spends(old(self), r is Err),
            (stated_binary(op, a, b) && old(self).fuel >= 5) ==> binary_result(op, a, b, r)
                && final(self).same_but_fuel(old(self)) && final(self).fuel + 5 >= old(self).fuel,
            ((op is Eq || op is NotEq) && old(self).fuel >= 2) ==> equality_result(op, a, b, r),
        decreases old(self).fuel,
    {
        self.step()?;
        match op {
            BinaryOp::Add => {
                let pa = self.to_primitive(&a)?;
                let pb = self.to_primitive(&b)?;
                let a_str = match pa {
                    JsValue::String(_) => true,
                    _ => false,
                };
                let b_str = match pb {
                    JsValue::String(_) => true,
                    _ => false,
                };
                if a_str || b_str {
                    let mut s = self.to_js_string(&pa)?;
                    let t = self.to_js_string(&pb)?;
                    append_chars(&mut s, t.as_slice());
                    Ok(JsValue::String(s))
                } else {
                    let x = self.to_number(&pa)?;
                    let y = self.to_number(&pb)?;
                    Ok(JsValue::Number(x.add(&y)))
                }
            },
            BinaryOp::Sub | BinaryOp::Mul | BinaryOp::Div | BinaryOp::Mod | BinaryOp::Exp => {
                let x = self.to_number(&a)?;
                let y = self.to_number(&b)?;
                let n = match op {
                    BinaryOp::Sub => x.sub(&y),
                    BinaryOp::Mul => x.mul(&y),
                    BinaryOp::Div => x.div(&y),
                    BinaryOp::Mod => x.rem(&y),
                    _ => x.pow(&y),
                };
                Ok(JsValue::Number(n))
            },
            BinaryOp::StrictEq => Ok(JsValue::Boolean(strict_equals(&a, &b))),
            BinaryOp::StrictNotEq => Ok(JsValue::Boolean(!strict_equals(&a, &b))),
            BinaryOp::Eq => {
                let e = self.loose_equals(&a, &b)?;
                Ok(JsValue::Boolean(e))
            },
            BinaryOp::NotEq => {
                let e = self.loose_equals(&a, &b)?;
                Ok(JsValue::Boolean(!e))
            },
            BinaryOp::Lt | BinaryOp::Gt | BinaryOp::LtEq | BinaryOp::GtEq => {
                let pa = self.to_primitive(&a)?;
                let pb = self.to_primitive(&b)?;
                let ord: NumOrder = match (&pa, &pb) {
                    (JsValue::String(x), JsValue::String(y)) => {
                        let c = compare_chars(x.as_slice(), y.as_slice());
                        if c < 0 {
                            NumOrder::Less
                        } else if c == 0 {
                            NumOrder::Equal
                        } else {
                            NumOrder::Greater
                        }
                    },
                    _ => {
                        let x = self.to_number(&pa)?;
                        let y = self.to_number(&pb)?;
                        x.compare(&y)
                    },
                };
                let res = match op {
                    BinaryOp::Lt => ord == NumOrder::Less,
                    BinaryOp::Gt => ord == NumOrder::Greater,
                    BinaryOp::LtEq => ord == NumOrder::Less || ord == NumOrder::Equal,
                    _ => ord == NumOrder::Greater || ord == NumOrder::Equal,
                };
                Ok(JsValue::Boolean(res))
            },
            BinaryOp::BitAnd | BinaryOp::BitOr | BinaryOp::BitXor | BinaryOp::Shl | BinaryOp::Shr
            | BinaryOp::UShr => {
                let x = self.to_number(&a)?;
                let y = self.to_number(&b)?;
                let xi = to_int32(&x);
                let xu = to_uint32(&x);
                let sh = to_uint32(&y) % 32;
                let yi = to_int32(&y);
                let res: i64 = match op {
                    BinaryOp::BitAnd => (xi & yi) as i64,
                    BinaryOp::BitOr => (xi | yi) as i64,
                    BinaryOp::BitXor => (xi ^ yi) as i64,
                    BinaryOp::Shl => {
                        let v: u32 = ((xu as u64) << (sh as u64)) as u32;
                        (v as i32) as i64
                    },
                    BinaryOp::Shr => (xi >> sh) as i64,
                    _ => (xu >> sh) as i64,
                };
                Ok(JsValue::from_i64(res))
            },
            BinaryOp::In => {
                match b {
                    JsValue::Object(id) => {
                        let key = self.to_property_key(&a)?;
                        let mut cur = id;
                        let mut steps: usize = 0;
                        let limit = self.heap.len();
                        while steps < limit
                            invariant
                                steps <= limit,
                                self.spends(old(self), false),
                                !stated_binary(op, a, b),
                                !(op is Eq || op is NotEq),
                            decreases limit - steps,
                        {
                            if self.has_own_property(cur, &key) {
                                return Ok(JsValue::Boolean(true));
                            }
                            if cur >= self.heap.len() {
                                break;
                            }
                            match self.heap[cur].proto {
                                Some(p) => {
                                    cur = p;
                                },
                                None => {
                                    break;
                                },
                            }
                            steps = steps + 1;
                        }
                        Ok(JsValue::Boolean(false))
                    },
                    _ => Err(type_error("Cannot use 'in' operator to search for a key in a non-object")),
                }
            },
            BinaryOp::InstanceOf => {
                let proto = match &b {
                    JsValue::Object(f) => self.get_property(*f, &PropertyKey::Name(chars_of("prototype"))),
                    _ => {
                        return Err(type_error("Right-hand side of 'instanceof' is not callable"));
                    },
                };
                let target = match proto {
                    JsValue::Object(p) => p,
                    _ => {
                        return Ok(JsValue::Boolean(false));
                    },
                };
                match a {
                    JsValue::Object(id) => {
                        let mut cur = id;
                        let mut steps: usize = 0;
                        let limit = self.heap.len();
                        while steps < limit
                            invariant
                                steps <= limit,
                                self.spends(old(self), false),
                                !stated_binary(op, a, b),
                                !(op is Eq || op is NotEq),
                            decreases limit - steps,
                        {
                            if cur >= self.heap.len() {
                                break;
                            }
                            match self.heap[cur].proto {
                                Some(p) => {
                                    if p == target {
                                        return Ok(JsValue::Boolean(true));
                                    }
                                    cur = p;
                                },
                                None => {
                                    break;
                                },
                            }
                            steps = steps + 1;
                        }
                        Ok(JsValue::Boolean(false))
                    },
                    _ => Ok(JsValue::Boolean(false)),
                }
            },
        }
    }

    /// `==`: null and undefined are equal to each other; numbers, strings and
    /// booleans compare by number; objects by identity or through their primitive value.
    pub fn loose_equals(&mut self, a: &JsValue, b: &JsValue) -> (r: Result<bool, JsError>)
        ensures
            final(self).spends(old(self), r is Err),
            plain_loose_eq(*a, *b) matches Some(e) ==> (old(self).fuel > 0 ==> (r == Ok::<bool, JsError>(e)
                && final(self).same_but_fuel(old(self)) && final(self).fuel == old(self).fuel - 1)),
        decreases old(self).fuel,
    {
        self.step()?;
        match (a, b) {
            (JsValue::Undefined, JsValue::Null) | (JsValue::Null, JsValue::Undefined) => Ok(true),
            (JsValue::Number(_), JsValue::Number(_)) | (JsValue::Boolean(_), JsValue::Boolean(_)) => Ok(
                strict_equals(a, b),
            ),
            (JsValue::Undefined, _) | (JsValue::Null, _) | (_, JsValue::Undefined) | (
                _,
                JsValue::Null,
            ) => Ok(strict_equals(a, b)),
            (JsValue::Object(x), JsValue::Object(y)) => Ok(*x == *y),
            (JsValue::Object(_), _) | (_, JsValue::Object(_)) => {
                let pa = self.to_primitive(a)?;
                let pb = self.to_primitive(b)?;
                match (&pa, &pb) {
                    (JsValue::String(x), JsValue::String(y)) => Ok(crate::value::chars_equal(
                        x.as_slice(),
                        y.as_slice(),
                    )),
                    _ => {
                        let x = self.to_number(&pa)?;
                        let y = self.to_number(&pb)?;
                        Ok(x.num_equals(&y))
                    },
                }
            },
            (JsValue::String(x), JsValue::String(y)) => Ok(crate::value::chars_equal(
                x.as_slice(),
                y.as_slice(),
            )),
            _ => {
                if strict_equals(a, b) {
                    return Ok(true);
                }
                let x = self.to_number(a)?;
                let y = self.to_number(b)?;
                Ok(x.num_equals(&y))
            },
        }
    }

    /// `ToPrimitive`: objects become their text (or the value a wrapper holds).
    pub fn to_primitive(&mut self, v: &JsValue) -> (r: Result<JsValue, JsError>)
        ensures
            final(self).spends(old(self), r is Err),
            (!(*v is Object) && old(self).fuel > 0) ==> final(self).same_but_fuel(old(self))
                && final(self).fuel == old(self).fuel - 1 && (r matches Ok(p) && same_value(p, *v)),
        decreases old(self).fuel,
    {
        self.step()?;
        match v {
            JsValue::Object(id) => {
                if *id < self.heap.len() {
                    match &self.heap[*id].kind {
                        ObjectKind::NumberBox(n) => {
                            return Ok(JsValue::Number(*n));
                        },
                        ObjectKind::BooleanBox(b) => {
                            return Ok(JsValue::Boolean(*b));
                        },
                        _ => {},
                    }
                    // a user-defined valueOf returning a primitive
                    let vo = self.get_property(*id, &PropertyKey::Name(chars_of("valueOf")));
                    if self.is_user_function(&vo) {
                        let r = self.call_function(vo, v.copy(), Vec::new())?;
                        match r {
                            JsValue::Object(_) => {},
                            other => {
                                return Ok(other);
                            },
                        }
                    }
                }
                let s = self.to_js_string(v)?;
                Ok(JsValue::String(s))
            },
            _ => Ok(v.copy()),
        }
    }

    /// The value is a function written in the program (or one bound from a function).
    pub fn is_user_function(&self, v: &JsValue) -> (r: bool)
        ensures
            r == (*v matches JsValue::Object(id) && id < self.heap@.len() && (self.heap@[id as int].kind matches ObjectKind::Function(
                f,
            ) && !(f is Native))),
    {
        match v {
            JsValue::Object(id) => {
                if *id < self.heap.len() {
                    match &self.heap[*id].kind {
                        ObjectKind::Function(FunctionKind::Closure { .. }) => true,
                        ObjectKind::Function(FunctionKind::Bound { .. }) => true,
                        _ => false,
                    }
                } else {
                    false
                }
            },
            _ => false,
        }
    }

    /// `ToNumber`.
    pub fn to_number(&mut self, v: &JsValue) -> (r: Result<JsNumber, JsError>)
        ensures
            final(self).spends(old(self), r is Err),
            r matches Ok(n) ==> n.wf(),
            (match *v {
                JsValue::Number(n) => n.wf() ==> (r matches Ok(x) ==> x == n),
                _ => true,
            }),
            (!(*v is Object) && old(self).fuel > 0) ==> r is Ok,
            (!(*v is Object) && old(self).fuel > 0) ==> final(self).same_but_fuel(old(self))
                && final(self).fuel == old(self).fuel - 1,
        decreases old(self).fuel,
    {
        self.step()?;
        match v {
            JsValue::Object(_) => {
                let p = self.to_primitive(v)?;
                Ok(self.to_number_primitive(&p))
            },
            _ => Ok(self.to_number_primitive(v)),
        }
    }

    /// `ToString`.
    pub fn to_js_string(&mut self, v: &JsValue) -> (r: Result<Vec<char>, JsError>)
        ensures
            final(self).spends(old(self), r is Err),
            (plain_text(*v) matches Some(t) ==> (r matches Ok(u) ==> u@ == t)),
            (plain_text(*v) is Some && old(self).fuel > 0) ==> r is Ok,
            (!(*v is Object) && old(self).fuel > 0) ==> final(self).same_but_fuel(old(self))
                && final(self).fuel == old(self).fuel - 1,
        decreases old(self).fuel,
    {
        proof {
            reveal_strlit("NaN");
        }
        self.step()?;
        match v {
            JsValue::Undefined => Ok(chars_of("undefined")),
            JsValue::Null => Ok(chars_of("null")),
            JsValue::Boolean(b) => Ok(
                if *b {
                    chars_of("true")
                } else {
                    chars_of("false")
                },
            ),
            JsValue::Number(n) => {
                if n.check_wf() {
                    Ok(n.to_js_string())
                } else {
                    Ok(chars_of("NaN"))
                }
            },
            JsValue::String(s) => Ok(copy_chars(s)),
            JsValue::Object(id) => {
                let id = *id;
                if id >= self.heap.len() {
                    return Ok(chars_of("undefined"));
                }
                // a user-defined toString takes precedence
                let ts = self.get_property(id, &PropertyKey::Name(chars_of("toString")));
                if self.is_user_function(&ts) {
                    let r = self.call_function(ts, v.copy(), Vec::new())?;
                    return match r {
                        JsValue::Object(_) => Ok(chars_of("[object Object]")),
                        other => self.to_js_string(&other),
                    };
                }
                let kind_tag: u8 = match &self.heap[id].kind {
                    ObjectKind::Array(_) => 0,
                    ObjectKind::Function(_) => 1,
                    ObjectKind::Error(_) => 2,
                    ObjectKind::BooleanBox(_) => 3,
                    ObjectKind::NumberBox(_) => 4,
                    ObjectKind::StringBox(_) => 5,
                    ObjectKind::MapData(_) => 6,
                    ObjectKind::Ordinary => 7,
                    ObjectKind::DateValue(_) => 8,
                    ObjectKind::PromiseData(..) => 9,
                    ObjectKind::PromiseAllState(..) => 7,
                    ObjectKind::PromiseRaceState(..) => 7,
                    ObjectKind::RawJson(..) => 7,
                    ObjectKind::Generator(..) => 7,
                };
                if kind_tag == 0 {
                    let sep = chars_of(",");
                    crate::builtins::array::join_values(self, v, &sep)
                } else if kind_tag == 1 {
                    let name = self.get_property(id, &PropertyKey::Name(chars_of("name")));
                    let mut out = chars_of("function ");
                    if let JsValue::String(n) = name {
                        append_chars(&mut out, n.as_slice());
                    }
                    append_chars(&mut out, chars_of("() { [native code] }").as_slice());
                    Ok(out)
                } else if kind_tag == 2 {
                    Ok(crate::builtins::error::error_text(self, id))
                } else if kind_tag >= 3 && kind_tag <= 5 {
                    let p = match &self.heap[id].kind {
                        ObjectKind::BooleanBox(b) => JsValue::Boolean(*b),
                        ObjectKind::NumberBox(n) => JsValue::Number(*n),
                        ObjectKind::StringBox(s) => JsValue::String(copy_chars(s)),
                        _ => JsValue::Undefined,
                    };
                    self.to_js_string(&p)
                } else if kind_tag == 6 {
                    Ok(chars_of("[object Map]"))
                } else if kind_tag == 9 {
                    Ok(chars_of("[object Promise]"))
                } else if kind_tag == 8 {
                    match &self.heap[id].kind {
                        ObjectKind::DateValue(n) => Ok(crate::builtins::date::date_display(*n)),
                        _ => Ok(chars_of("[object Object]")),
                    }
                } else {
                    Ok(chars_of("[object Object]"))
                }
            },
        }
    }

    /// Evaluates call arguments, expanding spreads.
    pub fn evaluate_args(&mut self, args: &Vec<Argument>) -> (r: Result<Vec<JsValue>, JsError>)
        ensures
            final(self).spends(old(self), r is Err),
            (single_plain_arg(old(self).scopes@, old(self).env, old(self).this_val, args@) && old(self).fuel >= 1
                + expr_cost(args@[0]->Plain_0)) ==> (r matches Ok(vs) && vs@.len() == 1 && expr_outcome(
                old(self).scopes@,
                old(self).env,
                old(self).this_val,
                args@[0]->Plain_0,
                Ok(vs@[0]),
            ) && final(self).same_but_fuel(old(self)) && final(self).fuel + 1 + expr_cost(args@[0]->Plain_0)
                >= old(self).fuel),
        decreases old(self).fuel,
    {
        let ghost law = single_plain_arg(old(self).scopes@, old(self).env, old(self).this_val, args@) && old(self).fuel
            >= 1 + expr_cost(args@[0]->Plain_0);
        self.step()?;
        let mut out: Vec<JsValue> = Vec::new();
        let mut i: usize = 0;
        while i < args.len()
            invariant
                self.spends(old(self), false),
                i <= args@.len(),
                law == (single_plain_arg(old(self).scopes@, old(self).env, old(self).this_val, args@) && old(self).fuel
                    >= 1 + expr_cost(args@[0]->Plain_0)),
                law && i == 0 ==> out@.len() == 0 && self.same_but_fuel(old(self)) && self.fuel == old(self).fuel - 1,
                law && i == 1 ==> out@.len() == 1 && expr_outcome(
                    old(self).scopes@,
                    old(self).env,
                    old(self).this_val,
                    args@[0]->Plain_0,
                    Ok(out@[0]),
                ) && self.same_but_fuel(old(self)) && self.fuel + 1 + expr_cost(args@[0]->Plain_0) >= old(self).fuel,
            decreases args@.len() - i,
        {
            match &args[i] {
                Argument::Plain(e) => {
                    let v = self.evaluate(e)?;
                    out.push(v);
                },
                Argument::Spread(e) => {
                    let v = self.evaluate(e)?;
                    match self.iterate_values(&v)? {
                        Some(items) => {
                            let mut k: usize = 0;
                            while k < items.len()
                                invariant
                                    k <= items@.len(),
                                decreases items@.len() - k,
                            {
                                out.push(items[k].copy());
                                k = k + 1;
                            }
                        },
                        None => {
                            return Err(type_error("Spread syntax requires an iterable"));
                        },
                    }
                },
            }
            i = i + 1;
        }
        Ok(out)
    }

    fn evaluate_call(&mut self, callee: &Expression, args: &Vec<Argument>, optional: bool) -> (r:
        Result<JsValue, JsError>)
        ensures
            final(self).spends(old(self), r is Err),
            native_call_parts(old(self), *callee, args@) matches Some(n) ==> (old(self).fuel >= 5 + expr_cost(
                args@[0]->Plain_0,
            ) ==> exists|v: JsValue|
                expr_outcome(old(self).scopes@, old(self).env, old(self).this_val, args@[0]->Plain_0, Ok(v))
                    && native_result(n, seq![v], r)),
        decreases old(self).fuel,
    {
        let ghost law = native_call_parts(old(self), *callee, args@) is Some && old(self).fuel >= 5 + expr_cost(
            args@[0]->Plain_0,
        );
        self.step()?;
        let (f, this_v) = match callee {
            Expression::Member(obj, prop, opt_member) => {
                let base = self.evaluate(&**obj)?;
                if *opt_member && base.is_nullish() {
                    return Ok(JsValue::Undefined);
                }
                let key = self.member_key(&**prop)?;
                let f = self.get_member(&base, &key)?;
                (f, base)
            },
            _ => {
                let f = self.evaluate(callee)?;
                (f, JsValue::Undefined)
            },
        };
        if optional && f.is_nullish() {
            return Ok(JsValue::Undefined);
        }
        if !self.is_callable(&f) {
            let mut msg = match callee {
                Expression::Ident(n) => copy_chars(n),
                Expression::Member(_, prop, _) => match &**prop {
                    MemberProp::Name(n) => copy_chars(n),
                    _ => chars_of("expression"),
                },
                _ => chars_of("expression"),
            };
            append_chars(&mut msg, chars_of(" is not a function").as_slice());
            return Err(JsError::Raised(ErrorKind::TypeError, msg));
        }
        let argv = self.evaluate_args(args)?;
        let ghost pre = *self;
        let r = self.call_function(f, this_v, argv);
        proof {
            if law {
                let v = argv@[0];
                assert(argv@ =~= seq![v]);
                assert(native_callee(&pre, f) == native_call_parts(old(self), *callee, args@));
            }
        }
        r
    }

    /// Calls a function value.
    pub fn call_function(&mut self, callee: JsValue, this_value: JsValue, args: Vec<JsValue>) -> (r:
        Result<JsValue, JsError>)
        ensures
            final(self).spends(old(self), r is Err),
            (old(self).fuel > 0 && !old(self).is_function(callee)) ==> (r matches Err(JsError::Raised(k, m))
                && k == ErrorKind::TypeError && m@ == "Not a function"@ && final(self).fuel == old(self).fuel - 1
                && final(self).heap@ == old(self).heap@ && final(self).scopes@ == old(self).scopes@),
            (callee matches JsValue::Object(id) && id < old(self).heap@.len()
                && old(self).heap@[id as int].kind matches ObjectKind::Function(FunctionKind::Closure { .. }))
                ==> final(self).env == old(self).env && final(self).this_val == old(self).this_val,
            native_callee(old(self), callee) matches Some(n) ==> (old(self).fuel > 1 ==> native_result(n, args@, r)),
            closure_def(old(self), callee) matches Some(d) ==> (r matches Ok(v) ==> exists|
                bound: Seq<JsValue>,
                body: Option<Completion>,
            | #[trigger] closure_run(d, args@, bound, body, v)),
        decreases old(self).fuel,
    {
        self.step()?;
        let id = match callee {
            JsValue::Object(id) => id,
            _ => {
                return Err(type_error("Not a function"));
            },
        };
        if id >= self.heap.len() {
            return Err(type_error("Not a function"));
        }
        // Look at the function kind without holding a borrow of the heap.
        let (tag, native, target, bound_this, bound_args, def, scope, captured_this) = match &self.heap[id].kind {
            ObjectKind::Function(FunctionKind::Native(n)) => (
                0u8,
                Some(*n),
                0usize,
                JsValue::Undefined,
                Vec::new(),
                None,
                0usize,
                None,
            ),
            ObjectKind::Function(FunctionKind::Bound { target, this_val, args: bargs }) => (
                1u8,
                None,
                *target,
                this_val.copy(),
                copy_values(bargs),
                None,
                0usize,
                None,
            ),
            ObjectKind::Function(FunctionKind::Closure { def, scope, this_val }) => (
                2u8,
                None,
                0usize,
                JsValue::Undefined,
                Vec::new(),
                Some(share_def(def)),
                *scope,
                match this_val {
                    Some(t) => Some(t.copy()),
                    None => None,
                },
            ),
            _ => {
                return Err(type_error("Not a function"));
            },
        };
        if tag == 0 {
            match native {
                Some(n) => call_native(self, n, this_value, args),
                None => Err(type_error("Not a function")),
            }
        } else if tag == 1 {
            let mut all = bound_args;
            let mut k: usize = 0;
            while k < args.len()
                invariant
                    k <= args@.len(),
                decreases args@.len() - k,
            {
                all.push(args[k].copy());
                k = k + 1;
            }
            self.call_function(JsValue::Object(target), bound_this, all)
        } else {
            match def {
                Some(d) => {
                    let this_v = match captured_this {
                        Some(t) => t,
                        None => this_value,
                    };
                    self.call_closure(&*d, scope, this_v, args)
                },
                None => Err(type_error("Not a function")),
            }
        }
    }

    /// Runs a function body with its parameters bound.
    fn call_closure(&mut self, def: &FunctionDef, scope: usize, this_value: JsValue, args: Vec<
        JsValue,
    >) -> (r: Result<JsValue, JsError>)
        ensures
            final(self).spends(old(self), r is Err),
            final(self).env == old(self).env,
            final(self).this_val == old(self).this_val,
            r matches Ok(v) ==> exists|bound: Seq<JsValue>, body: Option<Completion>| #[trigger] closure_run(
                *def,
                args@,
                bound,
                body,
                v,
            ),
        decreases old(self).fuel,
    {
        self.step()?;
        let saved_env = self.env;
        let mut saved_this = this_value;
        std::mem::swap(&mut saved_this, &mut self.this_val);
        let s = self.push_scope(scope);
        self.env = s;
        let r = self.run_closure_body(def, s, &args);
        self.env = saved_env;
        self.this_val = saved_this;
        r
    }

    fn run_closure_body(&mut self, def: &FunctionDef, s: usize, args: &Vec<JsValue>) -> (r: Result<
        JsValue,
        JsError,
    >)
        ensures
            final(self).spends(old(self), r is Err),
            r matches Ok(v) ==> exists|bound: Seq<JsValue>, body: Option<Completion>| #[trigger] closure_run(
                *def,
                args@,
                bound,
                body,
                v,
            ),
        decreases old(self).fuel,
    {
        self.step()?;
        // `arguments`
        if !def.is_arrow {
            let argv = copy_values(args);
            let a = self.create_array(argv);
            self.declare(s, chars_of("arguments"), JsValue::Object(a), true);
        }
        let mut i: usize = 0;
        let ghost mut bound: Seq<JsValue> = Seq::empty();
        while i < def.params.len()
            invariant
                self.spends(old(self), false),
                i <= def.params@.len(),
                bound.len() == i,
                forall|k: int| 0 <= k < i ==> param_value(def.params@[k], args@, k, #[trigger] bound[k]),
            decreases def.params@.len() - i,
        {
            let p = &def.params[i];
            let v = if p.rest {
                let mut rest: Vec<JsValue> = Vec::new();
                let mut k = i;
                while k < args.len()
                    invariant
                        k <= args@.len() || k == i,
                    decreases args@.len() - k,
                {
                    rest.push(args[k].copy());
                    k = k + 1;
                }
                let a = self.create_array(rest);
                JsValue::Object(a)
            } else {
                let mut v = arg_at(args, i);
                if let JsValue::Undefined = v {
                    if let Some(d) = &p.default {
                        v = self.evaluate(d)?;
                    }
                }
                v
            };
            proof {
                let b0 = bound;
                bound = bound.push(v);
                assert forall|k: int| 0 <= k < i + 1 implies param_value(def.params@[k], args@, k, #[trigger] bound[k]) by {
                    if k < i {
                        assert(bound[k] == b0[k]);
                    }
                }
            }
            self.bind_pattern(&p.target, v, s, true, true)?;
            i = i + 1;
        }
        match &def.body {
            FunctionBody::Block(stmts) => {
                let c = self.execute_block(stmts, false)?;
                let ghost cg = c;
                let out = match c {
                    Completion::Return(v) => v,
                    _ => JsValue::Undefined,
                };
                proof {
                    assert(closure_run(*def, args@, bound, Some(cg), out));
                }
                Ok(out)
            },
            FunctionBody::Expr(e) => {
                let r = self.evaluate(e);
                proof {
                    if r is Ok {
                        assert(closure_run(*def, args@, bound, None, r->Ok_0));
                    }
                }
                r
            },
        }
    }

    /// `new f(...args)`.
    pub fn construct(&mut self, f: JsValue, args: Vec<JsValue>) -> (r: Result<JsValue, JsError>)
        ensures
            final(self).spends(old(self), r is Err),
        decreases old(self).fuel,
    {
        self.step()?;
        if !self.is_callable(&f) {
            return Err(type_error("is not a constructor"));
        }
        let fid = match f {
            JsValue::Object(id) => id,
            _ => {
                return Err(type_error("is not a constructor"));
            },
        };
        let proto = match self.get_property(fid, &PropertyKey::Name(chars_of("prototype"))) {
            JsValue::Object(p) => p,
            _ => self.object_prototype,
        };
        let obj = self.allocate(new_object(ObjectKind::Ordinary, Some(proto)));
        // built-in constructors give their own result, which may be the new object
        if fid < self.heap.len() {
            if let ObjectKind::Function(FunctionKind::Native(_)) = &self.heap[fid].kind {
                return self.call_function(f, JsValue::Object(obj), args);
            }
        }
        let r = self.call_function(f, JsValue::Object(obj), args)?;
        match r {
            JsValue::Object(_) => Ok(r),
            _ => Ok(JsValue::Object(obj)),
        }
    }
}

} // verus!
