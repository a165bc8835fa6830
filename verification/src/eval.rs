//! Evaluation of statements and expressions.
//!
//! Every evaluation routine spends one step of the interpreter's budget, so
//! any program either finishes or stops with `JsError::OutOfFuel`.
use crate::ast::{Declarator, EnumMember, Expression, ForInit, FunctionDef, Pattern, Program, PropName, Statement, SwitchCase, VarKind};

use crate::expr::{expr_cost, expr_outcome, expr_type, name_assignable, name_assignment, scopes_assigned};
use crate::interpreter::{
    arg_at, copy_values, lookup_prop, new_object, scopes_declared, type_error, Completion, Interpreter, Scope,
};
use crate::number::{chars_of, dec_digits, spec_int, JsNumber};
use crate::value::{
    strict_eq, same_value, truthy, chars_equal, copy_chars, strict_equals, ErrorKind, FunctionKind, JsError, JsObject, JsValue,
    ObjectKind, Property, PropertyKey,
};
use std::rc::Rc;
use vstd::prelude::*;

verus! {

/// A second handle on a shared function definition.
#[verifier::external_body]
pub fn share_def(d: &Rc<FunctionDef>) -> (r: Rc<FunctionDef>)
    ensures
        r == *d,
{
    Rc::clone(d)
}

/// A run of `try { block } catch { handler } finally { finalizer }` (`has_handler`,
/// `has_finalizer`: those clauses are there): `block_r` is how the block ended, `caught`
/// how the handler ended (it runs exactly when the block failed with an error other than
/// running out of steps and there is a handler), `fin` how the finalizer ended (it runs
/// exactly when there is one, whatever came before). The outcome is the handler's where
/// it ran, else the block's; a finalizer that fails or jumps (`return`, `break`,
/// `continue`) replaces it, and one that completes normally leaves it.
pub open spec fn try_run(
    block_r: Result<Completion, JsError>,
    caught: Option<Result<Completion, JsError>>,
    fin: Option<Result<Completion, JsError>>,
    has_handler: bool,
    has_finalizer: bool,
    out: Result<Completion, JsError>,
) -> bool {
    let handled = has_handler && block_r is Err && !(block_r->Err_0 is OutOfFuel);
    let mid = if handled {
        caught->Some_0
    } else {
        block_r
    };
    &&& caught is Some <==> handled
    &&& fin is Some <==> has_finalizer
    &&& out == match fin {
        None => mid,
        Some(Err(e)) => Err(e),
        Some(Ok(Completion::Normal(_))) => mid,
        Some(Ok(c)) => Ok(c),
    }
}

/// The statements of the cases from `k` on, one case after another.
pub open spec fn stmts_from(cases: Seq<SwitchCase>, k: int) -> Seq<Statement>
    decreases cases.len() - k,
{
    if k < 0 || k >= cases.len() {
        Seq::empty()
    } else {
        cases[k].body@ + stmts_from(cases, k + 1)
    }
}

/// The statements of case `k` from position `j` on, then those of the cases after it.
pub open spec fn case_rest(cases: Seq<SwitchCase>, k: int, j: int) -> Seq<Statement> {
    if 0 <= k < cases.len() {
        cases[k].body@.subrange(j, cases[k].body@.len() as int) + stmts_from(cases, k + 1)
    } else {
        Seq::empty()
    }
}

/// The case a `switch` on `d` runs from, looking at the cases from `i` on, where `vals` are
/// the values of the case tests evaluated from there on, in order, and `dflt` the last
/// `default` seen: the first case whose test value is `d` (by `===`), else the last
/// `default`, else none.
pub open spec fn switch_choice(d: JsValue, cases: Seq<SwitchCase>, i: int, vals: Seq<JsValue>, dflt: Option<usize>) -> Option<
    int,
>
    decreases cases.len() - i,
{
    if i < 0 || i >= cases.len() {
        match dflt {
            Some(k) => Some(k as int),
            None => None,
        }
    } else if cases[i].test is None {
        switch_choice(d, cases, i + 1, vals, Some(i as usize))
    } else if vals.len() == 0 {
        None
    } else if strict_eq(d, vals[0]) {
        Some(i)
    } else {
        switch_choice(d, cases, i + 1, vals.drop_first(), dflt)
    }
}

/// `vals` are exactly the test values a `switch` on `d` evaluates from case `i` on: one per
/// case with a test, up to the first whose value is `d`.
pub open spec fn switch_tests_used(d: JsValue, cases: Seq<SwitchCase>, i: int, vals: Seq<JsValue>) -> bool
    decreases cases.len() - i,
{
    if i < 0 || i >= cases.len() {
        vals.len() == 0
    } else if cases[i].test is None {
        switch_tests_used(d, cases, i + 1, vals)
    } else if vals.len() == 0 {
        false
    } else if strict_eq(d, vals[0]) {
        vals.len() == 1
    } else {
        switch_tests_used(d, cases, i + 1, vals.drop_first())
    }
}

/// A run of `switch (d) { cases }` that did not fail: `vals` are the test values evaluated,
/// `ran` the statements run and `done` how each completed. The statements run are those
/// from the chosen case on, in order and falling through into the next cases, each after
/// the one before completed normally; the switch ends with the last statement (completing
/// normally), at an unlabelled `break` (the same), or with any other jump, which it passes on.
pub open spec fn switch_run(
    d: JsValue,
    cases: Seq<SwitchCase>,
    vals: Seq<JsValue>,
    ran: Seq<Statement>,
    done: Seq<Completion>,
    out: Completion,
) -> bool {
    &&& switch_tests_used(d, cases, 0, vals)
    &&& match switch_choice(d, cases, 0, vals, None) {
        None => ran.len() == 0 && out == Completion::Normal(JsValue::Undefined),
        Some(f) => {
            let all = stmts_from(cases, f);
            &&& ran.len() == done.len() <= all.len()
            &&& ran == all.subrange(0, ran.len() as int)
            &&& forall|m: int| 0 <= m < done.len() - 1 ==> (#[trigger] done[m]) is Normal
            &&& if done.len() == 0 || done.last() is Normal {
                ran.len() == all.len() && out == Completion::Normal(JsValue::Undefined)
            } else if done.last() == Completion::Break(None) {
                out == Completion::Normal(JsValue::Undefined)
            } else {
                out == done.last()
            }
        },
    }
}

/// A jump labelled `jump` is aimed at a statement carrying `labels`: it has no label, or
/// one of them.
pub open spec fn aimed_at(jump: Option<Vec<char>>, labels: Seq<Vec<char>>) -> bool {
    match jump {
        None => true,
        Some(l) => exists|i: int| 0 <= i < labels.len() && (#[trigger] labels[i])@ == l@,
    }
}

/// After the body completed with `c` the loop carrying `labels` goes on to its update and
/// test: the body completed normally or with a `continue` aimed at this loop.
pub open spec fn loop_goes_on(c: Completion, labels: Seq<Vec<char>>) -> bool {
    match c {
        Completion::Normal(_) => true,
        Completion::Continue(l) => aimed_at(l, labels),
        _ => false,
    }
}

/// A run of `for (init; test; update) body` that did not fail: `tests` holds whether each
/// evaluation of the test was truthy (true where there is no test), `bodies` each completion
/// of the body, `updates` how often the update ran (`has_update`: there is one), and `out`
/// the loop's completion. Each body runs after a truthy test; a body that goes on is
/// followed by the update and the test again; the loop ends at a falsy test (completing
/// normally), at a `break` aimed at it (the same), or with the completion of a body that
/// neither goes on nor breaks out of it (a `return`, or a jump aimed elsewhere).
pub open spec fn for_loop_run(
    tests: Seq<bool>,
    bodies: Seq<Completion>,
    updates: nat,
    has_update: bool,
    labels: Seq<Vec<char>>,
    out: Completion,
) -> bool {
    &&& forall|k: int| 0 <= k < bodies.len() ==> #[trigger] tests[k]
    &&& forall|k: int| 0 <= k < bodies.len() - 1 ==> loop_goes_on(#[trigger] bodies[k], labels)
    &&& if tests.len() == bodies.len() + 1 {
        &&& !tests.last()
        &&& bodies.len() > 0 ==> loop_goes_on(bodies.last(), labels)
        &&& updates == (if has_update { bodies.len() } else { 0 })
        &&& out == Completion::Normal(JsValue::Undefined)
    } else {
        &&& tests.len() == bodies.len()
        &&& bodies.len() > 0
        &&& !loop_goes_on(bodies.last(), labels)
        &&& updates == (if has_update { (bodies.len() - 1) as nat } else { 0 })
        &&& out == (match bodies.last() {
            Completion::Break(l) => if aimed_at(l, labels) {
                Completion::Normal(JsValue::Undefined)
            } else {
                bodies.last()
            },
            _ => bodies.last(),
        })
    }
}

/// The label matches (an unlabelled jump matches any loop).
fn label_matches(jump: &Option<Vec<char>>, labels: &Vec<Vec<char>>) -> (r: bool)
    ensures
        r == aimed_at(*jump, labels@),
        r == match jump {
            None => true,
            Some(l) => exists|i: int| 0 <= i < labels@.len() && (#[trigger] labels@[i])@ == l@,
        },
{
    match jump {
        None => true,
        Some(l) => {
            let mut i: usize = 0;
            while i < labels.len()
                invariant
                    i <= labels@.len(),
                    *jump == Some(*l),
                    forall|k: int| 0 <= k < i ==> (#[trigger] labels@[k])@ != l@,
                decreases labels@.len() - i,
            {
                if chars_equal(labels[i].as_slice(), l.as_slice()) {
                    assert((labels@[i as int])@ == l@);
                    return true;
                }
                i = i + 1;
            }
            false
        },
    }
}

fn copy_label(l: &Option<Vec<char>>) -> (r: Option<Vec<char>>) {
    match l {
        Some(x) => Some(copy_chars(x)),
        None => None,
    }
}

/// Mapping a sequence with one more element at its end maps that element last.
pub proof fn lemma_map_push(s: Seq<Vec<char>>, x: Vec<char>)
    ensures
        s.push(x).map_values(|k: Vec<char>| k@) == s.map_values(|k: Vec<char>| k@).push(x@),
{
    assert(s.push(x).map_values(|k: Vec<char>| k@) =~= s.map_values(|k: Vec<char>| k@).push(x@));
}

/// The keys of the elements `0..n`, in decimal.
pub open spec fn element_keys(n: nat) -> Seq<Seq<char>> {
    Seq::new(n, |i: int| crate::number::dec_digits(i as nat))
}

/// The element keys of an array or a string wrapper; none for other kinds.
pub open spec fn elements_of(kind: ObjectKind) -> Seq<Seq<char>> {
    match kind {
        ObjectKind::Array(e) => element_keys(e@.len()),
        ObjectKind::StringBox(s) => element_keys(s@.len()),
        _ => Seq::empty(),
    }
}

/// The index values of the enumerable properties whose keys are array indices, in
/// property order.
pub open spec fn index_values(props: Seq<Property>) -> Seq<usize>
    decreases props.len(),
{
    if props.len() == 0 {
        Seq::empty()
    } else {
        let p = props.last();
        index_values(props.drop_last()) + if p.enumerable && crate::value::index_text(p.key@) {
            seq![crate::number::digits_value(p.key@) as usize]
        } else {
            Seq::empty()
        }
    }
}

/// The keys of the enumerable properties whose keys are not array indices, in
/// property order.
pub open spec fn named_keys(props: Seq<Property>) -> Seq<Seq<char>>
    decreases props.len(),
{
    if props.len() == 0 {
        Seq::empty()
    } else {
        let p = props.last();
        named_keys(props.drop_last()) + if p.enumerable && !crate::value::index_text(p.key@) {
            seq![p.key@]
        } else {
            Seq::empty()
        }
    }
}

/// `keys` are the own enumerable keys of `v`, in the order `Object.keys` gives them:
/// element indices, then index-like property keys in ascending order, then the
/// other property keys in the order they were added. A string gives its indices.
pub open spec fn own_keys_spec(heap: Seq<JsObject>, v: JsValue, keys: Seq<Seq<char>>) -> bool {
    match v {
        JsValue::Object(id) => if id < heap.len() {
            let o = heap[id as int];
            exists|s: Seq<usize>|
                #![trigger s.to_multiset()]
                {
                    &&& s.to_multiset() == index_values(o.props@).to_multiset()
                    &&& (forall|a: int, b: int| 0 <= a < b < s.len() ==> s[a] <= s[b])
                    &&& keys == elements_of(o.kind) + s.map_values(
                        |x: usize| crate::number::dec_digits(x as nat),
                    ) + named_keys(o.props@)
                }
        } else {
            keys == Seq::<Seq<char>>::empty()
        },
        JsValue::String(s) => keys == element_keys(s@.len()),
        _ => keys == Seq::<Seq<char>>::empty(),
    }
}

/// An `enum` whose members have no initializers, distinct names none of which is the
/// decimal text of a member's position, and fewer members than numbers hold exactly.
pub open spec fn plain_enum(members: Seq<EnumMember>) -> bool {
    &&& members.len() < crate::number::MANT_LIMIT
    &&& forall|j: int| 0 <= j < members.len() ==> (#[trigger] members[j]).init is None
    &&& forall|j: int, k: int| 0 <= j < k < members.len() ==> (#[trigger] members[j]).name@ != (#[trigger] members[k]).name@
    &&& forall|j: int, k: int|
        0 <= j < members.len() && 0 <= k < members.len() ==> (#[trigger] members[j]).name@ != #[trigger] dec_digits(
            k as nat,
        )
}

/// The number after an initializer's number value, as an enum counts on from it: its
/// integer part saturated to the 32-bit range, plus one.
pub fn enum_next(n: &JsNumber) -> (r: i64)
    requires
        n.wf(),
    ensures
        -2147483647 <= r <= 2147483648,
{
    let t = n.to_integer_clamped();
    let c: i64 = if t < -2147483648 {
        -2147483648
    } else if t > 2147483647 {
        2147483647
    } else {
        t
    };
    c + 1
}

/// Names declared with `kind` can be assigned later (all but `const`).
pub open spec fn decl_mutable(kind: VarKind) -> bool {
    !(kind is Const)
}

/// A declaration of one plain name with an initializer that the evaluation law covers.
pub open spec fn simple_decl(scopes: Seq<Scope>, env: usize, this_val: JsValue, decls: Seq<Declarator>) -> bool {
    &&& decls.len() == 1
    &&& decls[0].target is Ident
    &&& decls[0].init is Some
    &&& expr_type(scopes, env, this_val, decls[0].init->0) is Some
}

/// The steps that a declaration of one plain name may spend at most.
pub open spec fn decl_cost(decls: Seq<Declarator>) -> nat {
    if decls.len() > 0 && decls[0].init is Some {
        2 + expr_cost(decls[0].init->0)
    } else {
        2
    }
}

/// The steps that a statement the evaluation law covers may spend at most.
pub open spec fn stmt_cost(s: Statement) -> nat
    decreases s,
{
    match s {
        Statement::Expr(e) => 1 + expr_cost(e),
        Statement::Throw(e) => 1 + expr_cost(e),
        Statement::Return(Some(e)) => 1 + expr_cost(e),
        Statement::VarDecl(_, ds) => 1 + decl_cost(ds@),
        Statement::If(t, c, a) => 1 + expr_cost(t) + stmt_cost(*c) + match a {
            Some(x) => stmt_cost(*x),
            None => 0,
        },
        _ => 1,
    }
}

/// An expression statement that the evaluation law covers.
pub open spec fn plain_expr_stmt(scopes: Seq<Scope>, env: usize, this_val: JsValue, s: Statement) -> bool {
    s matches Statement::Expr(e) && expr_type(scopes, env, this_val, e) is Some
}

/// An `if` whose test and branches are expressions that the evaluation law covers.
pub open spec fn simple_if(scopes: Seq<Scope>, env: usize, this_val: JsValue, s: Statement) -> bool {
    s matches Statement::If(t, c, a) && expr_type(scopes, env, this_val, t) is Some && plain_expr_stmt(
        scopes,
        env,
        this_val,
        *c,
    ) && match a {
        Some(x) => plain_expr_stmt(scopes, env, this_val, *x),
        None => true,
    }
}

/// Running `if (t) c else a` can complete with value `v`: the branch that the test's
/// value picks gives `v`; without an `else`, a false test gives `undefined`.
pub open spec fn if_outcome(
    scopes: Seq<Scope>,
    env: usize,
    this_val: JsValue,
    t: Expression,
    c: Statement,
    a: Option<Box<Statement>>,
    v: JsValue,
) -> bool {
    exists|tv: JsValue|
        #![trigger expr_outcome(scopes, env, this_val, t, Ok(tv))]
        expr_outcome(scopes, env, this_val, t, Ok(tv)) && (truthy(tv) ==> expr_outcome(
            scopes,
            env,
            this_val,
            c->Expr_0,
            Ok(v),
        )) && (!truthy(tv) ==> match a {
            Some(x) => expr_outcome(scopes, env, this_val, (*x)->Expr_0, Ok(v)),
            None => v == JsValue::Undefined,
        })
}

/// The steps that a run of expression statements may spend at most.
pub open spec fn statements_cost(stmts: Seq<Statement>) -> nat
    decreases stmts.len(),
{
    if stmts.len() == 0 {
        0
    } else {
        stmt_cost(stmts[0]) + statements_cost(stmts.drop_first())
    }
}

/// The statements are expression statements (plain assignments to a name among them),
/// one-name declarations and `if` statements with expression branches that the
/// evaluation law covers, each in the scopes that the statements before it leave, for
/// every value those may give.
pub open spec fn simple_program(scopes: Seq<Scope>, env: usize, this_val: JsValue, stmts: Seq<Statement>) -> bool {
    &&& forall|j: int| 0 <= j < stmts.len() ==> (#[trigger] stmts[j] is Expr || stmts[j] is VarDecl || stmts[j] is If)
    &&& simple_steps(scopes, env, this_val, stmts)
}

/// `stmts` from these scopes on, as `simple_program` says.
pub open spec fn simple_steps(scopes: Seq<Scope>, env: usize, this_val: JsValue, stmts: Seq<Statement>) -> bool
    decreases stmts.len(),
{
    if stmts.len() == 0 {
        true
    } else {
        match stmts[0] {
            Statement::Expr(e) => if name_assignment(e) {
                &&& expr_type(scopes, env, this_val, *e->Assign_2) is Some
                &&& forall|v: JsValue|
                    #![trigger expr_outcome(scopes, env, this_val, *e->Assign_2, Ok(v))]
                    expr_outcome(scopes, env, this_val, *e->Assign_2, Ok(v)) ==> name_assignable(
                        scopes,
                        env,
                        (*e->Assign_1)->Ident_0@,
                    ) && forall|after: Seq<Scope>|
                        #![trigger scopes_assigned(scopes, after, env, (*e->Assign_1)->Ident_0@, v)]
                        scopes_assigned(scopes, after, env, (*e->Assign_1)->Ident_0@, v) ==> simple_steps(
                            after,
                            env,
                            this_val,
                            stmts.drop_first(),
                        )
            } else {
                expr_type(scopes, env, this_val, e) is Some && simple_steps(scopes, env, this_val, stmts.drop_first())
            },
            Statement::VarDecl(kind, ds) => simple_decl(scopes, env, this_val, ds@) && forall|v: JsValue, after: Seq<Scope>|
                #![trigger scopes_declared(scopes, after, env as int, ds@[0].target->Ident_0@, v, decl_mutable(kind))]
                expr_outcome(scopes, env, this_val, ds@[0].init->0, Ok(v)) && scopes_declared(
                    scopes,
                    after,
                    env as int,
                    ds@[0].target->Ident_0@,
                    v,
                    decl_mutable(kind),
                ) ==> simple_steps(after, env, this_val, stmts.drop_first()),
            Statement::If(_, _, _) => simple_if(scopes, env, this_val, stmts[0]) && simple_steps(
                scopes,
                env,
                this_val,
                stmts.drop_first(),
            ),
            _ => false,
        }
    }
}

/// Running `stmts` from these scopes, with `last` the completion value so far, can end
/// with completion value `result`: an expression statement's or an `if`'s value replaces
/// `last` unless it is `undefined`; a declaration binds its name in the current scope; an
/// assignment updates the binding its name resolves to.
pub open spec fn runs_to(
    scopes: Seq<Scope>,
    env: usize,
    this_val: JsValue,
    stmts: Seq<Statement>,
    last: JsValue,
    result: JsValue,
) -> bool
    decreases stmts.len(),
{
    if stmts.len() == 0 {
        result == last
    } else {
        match stmts[0] {
            Statement::Expr(e) => if name_assignment(e) {
                exists|v: JsValue, w: JsValue, after: Seq<Scope>|
                    #![trigger scopes_assigned(scopes, after, env, (*e->Assign_1)->Ident_0@, v), same_value(w, v)]
                    expr_outcome(scopes, env, this_val, *e->Assign_2, Ok(v)) && same_value(w, v) && scopes_assigned(
                        scopes,
                        after,
                        env,
                        (*e->Assign_1)->Ident_0@,
                        v,
                    ) && runs_to(
                        after,
                        env,
                        this_val,
                        stmts.drop_first(),
                        if w is Undefined {
                            last
                        } else {
                            w
                        },
                        result,
                    )
            } else {
                exists|v: JsValue|
                    #![trigger expr_outcome(scopes, env, this_val, e, Ok(v))]
                    expr_outcome(scopes, env, this_val, e, Ok(v)) && runs_to(
                        scopes,
                        env,
                        this_val,
                        stmts.drop_first(),
                        if v is Undefined {
                            last
                        } else {
                            v
                        },
                        result,
                    )
            },
            Statement::VarDecl(kind, ds) => exists|v: JsValue, after: Seq<Scope>|
                #![trigger scopes_declared(scopes, after, env as int, ds@[0].target->Ident_0@, v, decl_mutable(kind))]
                expr_outcome(scopes, env, this_val, ds@[0].init->0, Ok(v)) && scopes_declared(
                    scopes,
                    after,
                    env as int,
                    ds@[0].target->Ident_0@,
                    v,
                    decl_mutable(kind),
                ) && runs_to(after, env, this_val, stmts.drop_first(), last, result),
            Statement::If(t, c, el) => exists|v: JsValue|
                #![trigger if_outcome(scopes, env, this_val, t, *c, el, v)]
                if_outcome(scopes, env, this_val, t, *c, el, v) && runs_to(
                    scopes,
                    env,
                    this_val,
                    stmts.drop_first(),
                    if v is Undefined {
                        last
                    } else {
                        v
                    },
                    result,
                ),
            _ => false,
        }
    }
}

impl Interpreter {
    /// Runs a program; the result is the completion value of its statements: the value of
    /// the last expression statement whose value is not `undefined`.
    pub fn execute(&mut self, program: &Program) -> (r: Result<JsValue, JsError>)
        ensures
            final(self).spends(old(self), r is Err),
            (simple_program(old(self).scopes@, old(self).env, old(self).this_val, program.body@)
                && old(self).fuel >= 1 + statements_cost(program.body@)) ==> (r matches Ok(v) && runs_to(
                old(self).scopes@,
                old(self).env,
                old(self).this_val,
                program.body@,
                JsValue::Undefined,
                v,
            )),
        decreases old(self).fuel,
    {
        self.step()?;
        let env = self.env;
        let ghost body = program.body@;
        let ghost law = simple_program(old(self).scopes@, old(self).env, old(self).this_val, body) && old(self).fuel
            >= 1 + statements_cost(body);
        proof {
            if law {
                assert forall|j: int| 0 <= j < body.len() implies !(#[trigger] body[j] is FunctionDecl) by {
                    assert(body[j] is Expr || body[j] is VarDecl || body[j] is If);
                }
            }
        }
        self.hoist_functions(&program.body, env)?;
        let mut result = JsValue::Undefined;
        let mut i: usize = 0;
        proof {
            if law {
                assert(body.subrange(0, body.len() as int) =~= body);
            }
        }
        while i < program.body.len()
            invariant
                self.spends(old(self), false),
                i <= body.len(),
                body == program.body@,
                env == old(self).env,
                law == (simple_program(old(self).scopes@, old(self).env, old(self).this_val, body)
                    && old(self).fuel >= 1 + statements_cost(body)),
                law ==> self.env == old(self).env && self.this_val == old(self).this_val && simple_steps(
                    self.scopes@,
                    env,
                    self.this_val,
                    body.subrange(i as int, body.len() as int),
                ) && self.fuel >= statements_cost(body.subrange(i as int, body.len() as int)) && (forall|j: int|
                    0 <= j < body.len() ==> (#[trigger] body[j] is Expr || body[j] is VarDecl || body[j] is If)) && (forall|res: JsValue|
                    #[trigger] runs_to(self.scopes@, env, self.this_val, body.subrange(i as int, body.len() as int), result, res)
                    ==> runs_to(old(self).scopes@, env, old(self).this_val, body, JsValue::Undefined, res)),
            decreases body.len() - i,
        {
            let ghost rest = body.subrange(i as int, body.len() as int);
            let ghost rest1 = body.subrange(i + 1, body.len() as int);
            let ghost pre = *self;
            let ghost result0 = result;
            proof {
                if law {
                    assert(rest.drop_first() =~= rest1);
                    assert(rest[0] == body[i as int]);
                }
            }
            match self.execute_statement(&program.body[i])? {
                Completion::Normal(v) => {
                    match v {
                        JsValue::Undefined => {},
                        _ => {
                            result = v;
                        },
                    }
                    proof {
                        if law {
                            match body[i as int] {
                                Statement::Expr(e) => {
                                    assert(result == (if v is Undefined { result0 } else { v }));
                                    if name_assignment(e) {
                                        let u = choose|u: JsValue| expr_outcome(pre.scopes@, env, pre.this_val, *e->Assign_2, Ok(u))
                                            && same_value(v, u) && scopes_assigned(
                                            pre.scopes@,
                                            self.scopes@,
                                            env,
                                            (*e->Assign_1)->Ident_0@,
                                            u,
                                        );
                                        assert(scopes_assigned(pre.scopes@, self.scopes@, env, (*e->Assign_1)->Ident_0@, u));
                                        assert(simple_steps(self.scopes@, env, self.this_val, rest1));
                                        assert forall|res: JsValue|
                                            #[trigger] runs_to(self.scopes@, env, self.this_val, rest1, result, res) implies runs_to(
                                            old(self).scopes@,
                                            env,
                                            old(self).this_val,
                                            body,
                                            JsValue::Undefined,
                                            res,
                                        ) by {
                                            assert(same_value(v, u));
                                            assert(runs_to(pre.scopes@, env, pre.this_val, rest, result0, res));
                                        }
                                    } else {
                                        assert forall|res: JsValue|
                                            #[trigger] runs_to(self.scopes@, env, self.this_val, rest1, result, res) implies runs_to(
                                            old(self).scopes@,
                                            env,
                                            old(self).this_val,
                                            body,
                                            JsValue::Undefined,
                                            res,
                                        ) by {
                                            assert(expr_outcome(pre.scopes@, env, pre.this_val, e, Ok(v)));
                                            assert(runs_to(pre.scopes@, env, pre.this_val, rest, result0, res));
                                        }
                                    }
                                },
                                Statement::If(t, c, el) => {
                                    assert(if_outcome(pre.scopes@, env, pre.this_val, t, *c, el, v));
                                    assert forall|res: JsValue|
                                        #[trigger] runs_to(self.scopes@, env, self.this_val, rest1, result, res) implies runs_to(
                                        old(self).scopes@,
                                        env,
                                        old(self).this_val,
                                        body,
                                        JsValue::Undefined,
                                        res,
                                    ) by {
                                        assert(runs_to(pre.scopes@, env, pre.this_val, rest, result0, res));
                                    }
                                },
                                Statement::VarDecl(kind, ds) => {
                                    let w = choose|w: JsValue| expr_outcome(pre.scopes@, env, pre.this_val, ds@[0].init->0, Ok(w))
                                        && scopes_declared(
                                        pre.scopes@,
                                        self.scopes@,
                                        env as int,
                                        ds@[0].target->Ident_0@,
                                        w,
                                        decl_mutable(kind),
                                    );
                                    assert(scopes_declared(
                                        pre.scopes@,
                                        self.scopes@,
                                        env as int,
                                        ds@[0].target->Ident_0@,
                                        w,
                                        decl_mutable(kind),
                                    ));
                                    assert(simple_steps(self.scopes@, env, self.this_val, rest1));
                                    assert forall|res: JsValue|
                                        #[trigger] runs_to(self.scopes@, env, self.this_val, rest1, result, res) implies runs_to(
                                        old(self).scopes@,
                                        env,
                                        old(self).this_val,
                                        body,
                                        JsValue::Undefined,
                                        res,
                                    ) by {
                                        assert(runs_to(pre.scopes@, env, pre.this_val, rest, result0, res));
                                    }
                                },
                                _ => {},
                            }
                        }
                    }
                },
                Completion::Return(v) => {
                    return Ok(v);
                },
                Completion::Break(_) => {
                    return Err(
                        JsError::Raised(ErrorKind::SyntaxError, chars_of("Illegal break statement")),
                    );
                },
                Completion::Continue(_) => {
                    return Err(
                        JsError::Raised(
                            ErrorKind::SyntaxError,
                            chars_of("Illegal continue statement"),
                        ),
                    );
                },
            }
            i = i + 1;
        }
        proof {
            if law {
                assert(body.subrange(i as int, body.len() as int) =~= Seq::<Statement>::empty());
                assert(runs_to(self.scopes@, env, self.this_val, body.subrange(i as int, body.len() as int), result, result));
            }
        }
        Ok(result)
    }

    /// Declares the function declarations of a statement list before it runs.
    fn hoist_functions(&mut self, stmts: &Vec<Statement>, scope: usize) -> (r: Result<
        (),
        JsError,
    >)
        ensures
            final(self).grows(old(self)),
            final(self).env == old(self).env,
            (forall|j: int| 0 <= j < stmts@.len() ==> !(#[trigger] stmts@[j] is FunctionDecl)) ==> r is Ok
                && *final(self) == *old(self),
    {
        let mut i: usize = 0;
        while i < stmts.len()
            invariant
                self.grows(old(self)),
                (forall|j: int| 0 <= j < stmts@.len() ==> !(#[trigger] stmts@[j] is FunctionDecl)) ==> *self
                    == *old(self),
                self.env == old(self).env,
            decreases stmts@.len() - i,
        {
            if let Statement::FunctionDecl(def) = &stmts[i] {
                let f = self.make_closure(def);
                let name = match &def.name {
                    Some(n) => copy_chars(n),
                    None => chars_of("anonymous"),
                };
                self.declare(scope, name, JsValue::Object(f), true);
            }
            i = i + 1;
        }
        Ok(())
    }

    /// A function object for a definition, closing over the current scope.
    pub fn make_closure(&mut self, def: &Rc<FunctionDef>) -> (id: usize)
        ensures
            id == old(self).heap@.len(),
            final(self).heap@.len() > old(self).heap@.len(),
            forall|i: int| 0 <= i < old(self).heap@.len() ==> #[trigger] final(self).heap@[i] == old(self).heap@[i],
            final(self).same_state(old(self)),
    {
        let this_val = if def.is_arrow {
            Some(self.this_val.copy())
        } else {
            None
        };
        let kind = FunctionKind::Closure { def: share_def(def), scope: self.env, this_val };
        let proto = self.function_prototype;
        let f = self.allocate(new_object(ObjectKind::Function(kind), Some(proto)));
        let name = match &def.name {
            Some(n) => copy_chars(n),
            None => Vec::new(),
        };
        self.put_own(f, chars_of("name"), JsValue::String(name), false);
        self.put_own(f, chars_of("length"), JsValue::from_usize(def.params.len()), false);
        if !def.is_arrow {
            // a fresh `prototype` object for use with `new`
            let p = self.create_object();
            self.put_own(p, chars_of("constructor"), JsValue::Object(f), false);
            self.put_own(f, chars_of("prototype"), JsValue::Object(p), false);
        }
        f
    }

    /// Runs a list of statements, in a new scope when `scoped`.
    pub fn execute_block(&mut self, stmts: &Vec<Statement>, scoped: bool) -> (r: Result<
        Completion,
        JsError,
    >)
        ensures
            final(self).spends(old(self), r is Err),
            final(self).env == old(self).env,
        decreases old(self).fuel,
    {
        self.step()?;
        let saved = self.env;
        if scoped {
            let s = self.push_scope(saved);
            self.env = s;
        }
        let env = self.env;
        match self.hoist_functions(stmts, env) {
            Ok(()) => {},
            Err(e) => {
                self.env = saved;
                return Err(e);
            },
        }
        let mut last = JsValue::Undefined;
        let mut i: usize = 0;
        while i < stmts.len()
            invariant
                self.spends(old(self), false),
                saved == old(self).env,
            decreases stmts@.len() - i,
        {
            match self.execute_statement(&stmts[i]) {
                Ok(Completion::Normal(v)) => {
                    last = v;
                },
                Ok(c) => {
                    self.env = saved;
                    return Ok(c);
                },
                Err(e) => {
                    self.env = saved;
                    return Err(e);
                },
            }
            i = i + 1;
        }
        self.env = saved;
        Ok(Completion::Normal(last))
    }

    /// Runs one statement.
    pub fn execute_statement(&mut self, stmt: &Statement) -> (r: Result<Completion, JsError>)
        ensures
            final(self).spends(old(self), r is Err),
            (*stmt matches Statement::Expr(e) && expr_type(old(self).scopes@, old(self).env, old(self).this_val, e)
                is Some && old(self).fuel >= stmt_cost(*stmt)) ==> (r matches Ok(Completion::Normal(v))
                && expr_outcome(old(self).scopes@, old(self).env, old(self).this_val, (*stmt)->Expr_0, Ok(v))
                && final(self).same_but_fuel(old(self)) && final(self).fuel + stmt_cost(*stmt) >= old(self).fuel),
            (*stmt is Empty && old(self).fuel > 0) ==> r == Ok::<Completion, JsError>(Completion::Normal(JsValue::Undefined)),
            (simple_if(old(self).scopes@, old(self).env, old(self).this_val, *stmt) && old(self).fuel >= stmt_cost(*stmt))
                ==> (r matches Ok(Completion::Normal(v)) && if_outcome(
                old(self).scopes@,
                old(self).env,
                old(self).this_val,
                (*stmt)->If_0,
                *(*stmt)->If_1,
                (*stmt)->If_2,
                v,
            ) && final(self).same_but_fuel(old(self)) && final(self).fuel + stmt_cost(*stmt) >= old(self).fuel),
            (*stmt matches Statement::Expr(e) && name_assignment(e) && expr_type(old(self).scopes@, old(self).env, old(self).this_val, *e->Assign_2)
                is Some && old(self).fuel >= stmt_cost(*stmt) && forall|v: JsValue|
                #![trigger expr_outcome(old(self).scopes@, old(self).env, old(self).this_val, *e->Assign_2, Ok(v))]
                expr_outcome(old(self).scopes@, old(self).env, old(self).this_val, *e->Assign_2, Ok(v))
                    ==> name_assignable(old(self).scopes@, old(self).env, (*e->Assign_1)->Ident_0@)) ==> (r matches Ok(
                Completion::Normal(w)) && final(self).heap@ == old(self).heap@ && final(self).same_registers_but_fuel(old(self))
                && final(self).fuel + stmt_cost(*stmt) >= old(self).fuel && exists|v: JsValue|
                expr_outcome(old(self).scopes@, old(self).env, old(self).this_val, *(*stmt)->Expr_0->Assign_2, Ok(v))
                    && same_value(w, v) && scopes_assigned(
                    old(self).scopes@,
                    final(self).scopes@,
                    old(self).env,
                    (*(*stmt)->Expr_0->Assign_1)->Ident_0@,
                    v,
                )),
            (*stmt matches Statement::Throw(e) && expr_type(old(self).scopes@, old(self).env, old(self).this_val, e)
                is Some && old(self).fuel >= stmt_cost(*stmt)) ==> (r matches Err(JsError::Thrown(v))
                && expr_outcome(old(self).scopes@, old(self).env, old(self).this_val, (*stmt)->Throw_0, Ok(v))
                && final(self).same_but_fuel(old(self))),
            (*stmt matches Statement::Return(Some(e)) && expr_type(old(self).scopes@, old(self).env, old(self).this_val, e)
                is Some && old(self).fuel >= stmt_cost(*stmt)) ==> (r matches Ok(Completion::Return(v))
                && expr_outcome(old(self).scopes@, old(self).env, old(self).this_val, (*stmt)->Return_0->0, Ok(v))
                && final(self).same_but_fuel(old(self))),
            (*stmt matches Statement::VarDecl(kind, ds) && simple_decl(old(self).scopes@, old(self).env, old(self).this_val, ds@)
                && old(self).fuel >= stmt_cost(*stmt)) ==> (r == Ok::<Completion, JsError>(Completion::Normal(JsValue::Undefined))
                && final(self).heap@ == old(self).heap@ && final(self).same_registers_but_fuel(old(self))
                && final(self).fuel + stmt_cost(*stmt) >= old(self).fuel && exists|v: JsValue|
                expr_outcome(old(self).scopes@, old(self).env, old(self).this_val, (*stmt)->VarDecl_1@[0].init->0, Ok(v))
                    && scopes_declared(
                    old(self).scopes@,
                    final(self).scopes@,
                    old(self).env as int,
                    (*stmt)->VarDecl_1@[0].target->Ident_0@,
                    v,
                    decl_mutable((*stmt)->VarDecl_0),
                )),
        decreases old(self).fuel,
    {
        self.step()?;
        match stmt {
            Statement::Empty => Ok(Completion::Normal(JsValue::Undefined)),
            Statement::Expr(e) => {
                let v = self.evaluate(e)?;
                Ok(Completion::Normal(v))
            },
            Statement::VarDecl(kind, decls) => {
                self.execute_var_decl(*kind, decls)?;
                Ok(Completion::Normal(JsValue::Undefined))
            },
            Statement::FunctionDecl(_) => Ok(Completion::Normal(JsValue::Undefined)),
            Statement::Return(e) => {
                let v = match e {
                    Some(x) => self.evaluate(x)?,
                    None => JsValue::Undefined,
                };
                Ok(Completion::Return(v))
            },
            Statement::If(test, cons, alt) => {
                let t = self.evaluate(test)?;
                proof {
                    if simple_if(old(self).scopes@, old(self).env, old(self).this_val, *stmt) && old(self).fuel
                        >= stmt_cost(*stmt) {
                        assert(expr_outcome(old(self).scopes@, old(self).env, old(self).this_val, *test, Ok(t)));
                    }
                }
                if t.to_boolean() {
                    self.execute_statement(&**cons)
                } else {
                    match alt {
                        Some(a) => self.execute_statement(&**a),
                        None => Ok(Completion::Normal(JsValue::Undefined)),
                    }
                }
            },
            Statement::Block(body) => self.execute_block(body, true),
            Statement::For(init, test, update, body) => {
                let labels: Vec<Vec<char>> = Vec::new();
                self.execute_for(init, test, update, &**body, &labels)
            },
            Statement::ForEach(is_of, kind, target, iter, body) => {
                let labels: Vec<Vec<char>> = Vec::new();
                self.execute_for_each(*is_of, *kind, target, iter, &**body, &labels)
            },
            Statement::While(test, body) => {
                let labels: Vec<Vec<char>> = Vec::new();
                self.execute_while(test, &**body, false, &labels)
            },
            Statement::DoWhile(body, test) => {
                let labels: Vec<Vec<char>> = Vec::new();
                self.execute_while(test, &**body, true, &labels)
            },
            Statement::Break(l) => Ok(Completion::Break(copy_label(l))),
            Statement::Continue(l) => Ok(Completion::Continue(copy_label(l))),
            Statement::Throw(e) => {
                let v = self.evaluate(e)?;
                Err(JsError::Thrown(v))
            },
            Statement::Try(block, param, handler, finalizer) => {
                self.execute_try(block, param, handler, finalizer)
            },
            Statement::Labeled(label, body) => {
                let mut labels: Vec<Vec<char>> = Vec::new();
                labels.push(copy_chars(label));
                let c = match &**body {
                    Statement::For(init, test, update, b) => self.execute_for(
                        init,
                        test,
                        update,
                        &**b,
                        &labels,
                    )?,
                    Statement::ForEach(is_of, kind, target, iter, b) => self.execute_for_each(
                        *is_of,
                        *kind,
                        target,
                        iter,
                        &**b,
                        &labels,
                    )?,
                    Statement::While(test, b) => self.execute_while(test, &**b, false, &labels)?,
                    Statement::DoWhile(b, test) => self.execute_while(test, &**b, true, &labels)?,
                    other => self.execute_statement(other)?,
                };
                match c {
                    Completion::Break(Some(l)) => {
                        if chars_equal(l.as_slice(), label.as_slice()) {
                            Ok(Completion::Normal(JsValue::Undefined))
                        } else {
                            Ok(Completion::Break(Some(l)))
                        }
                    },
                    other => Ok(other),
                }
            },
            Statement::Switch(disc, cases) => self.execute_switch(disc, cases),
            Statement::Enum(name, members) => {
                self.execute_enum(name, members)?;
                Ok(Completion::Normal(JsValue::Undefined))
            },
        }
    }

    /// Runs an `enum` declaration: a new object that maps each member name to its value and
    /// each number value back to its member name, bound as a constant under the enum's
    /// name. A member without an initializer takes the number after the previous number
    /// value (from 0); an initializer's value is taken as it is.
    pub fn execute_enum(&mut self, name: &Vec<char>, members: &Vec<EnumMember>) -> (r: Result<(), JsError>)
        ensures
            final(self).spends(old(self), r is Err),
            (plain_enum(members@) && old(self).fuel >= 1) ==> r is Ok && final(self).heap@.len() == old(self).heap@.len()
                + 1 && final(self).same_registers_but_fuel(old(self)) && scopes_declared(
                old(self).scopes@,
                final(self).scopes@,
                old(self).env as int,
                name@,
                JsValue::Object(old(self).heap@.len() as usize),
                false,
            ) && forall|j: int|
                0 <= j < members@.len() ==> lookup_prop(
                    final(self).heap@[old(self).heap@.len() as int].props@,
                    #[trigger] members@[j].name@,
                ) == Some(JsValue::Number(spec_int(j))) && (lookup_prop(
                    final(self).heap@[old(self).heap@.len() as int].props@,
                    dec_digits(j as nat),
                ) matches Some(JsValue::String(t)) && t@ == members@[j].name@),
        decreases old(self).fuel,
    {
        let ghost plain = plain_enum(members@) && old(self).fuel >= 1;
        self.step()?;
        let obj = self.create_object();
        let mut next: i64 = 0;
        let mut i: usize = 0;
        while i < members.len()
            invariant
                self.spends(old(self), false),
                i <= members@.len(),
                obj == old(self).heap@.len(),
                obj < self.heap@.len(),
                plain == (plain_enum(members@) && old(self).fuel >= 1),
                plain ==> self.heap@.len() == old(self).heap@.len() + 1 && self.same_registers_but_fuel(old(self))
                    && self.scopes@ == old(self).scopes@,
                plain ==> next == i && forall|j: int|
                    0 <= j < i ==> lookup_prop(self.heap@[obj as int].props@, #[trigger] members@[j].name@) == Some(
                        JsValue::Number(spec_int(j)),
                    ) && (lookup_prop(self.heap@[obj as int].props@, dec_digits(j as nat)) matches Some(
                        JsValue::String(t),
                    ) && t@ == members@[j].name@),
            decreases members@.len() - i,
        {
            let value = match &members[i].init {
                Some(e) => {
                    let v = self.evaluate(e)?;
                    if let JsValue::Number(n) = &v {
                        if n.check_wf() {
                            next = enum_next(n);
                        }
                    }
                    v
                },
                None => {
                    let v = JsValue::from_i64(next);
                    if next < i64::MAX {
                        next = next + 1;
                    }
                    v
                },
            };
            let ghost h0 = self.heap@[obj as int].props@;
            let key = copy_chars(&members[i].name);
            let number = match &value {
                JsValue::Number(n) => if n.check_wf() {
                    Some(n.to_js_string())
                } else {
                    None
                },
                _ => None,
            };
            let shown = JsValue::String(copy_chars(&members[i].name));
            self.put_own(obj, key, value, true);
            let ghost h1 = self.heap@[obj as int].props@;
            if let Some(k) = number {
                self.put_own(obj, k, shown, true);
            }
            proof {
                if plain {
                    let ii = i as int;
                    assert(members@[ii].name@ != dec_digits(ii as nat));
                    assert forall|j: int| 0 <= j < ii + 1 implies lookup_prop(
                        self.heap@[obj as int].props@,
                        #[trigger] members@[j].name@,
                    ) == Some(JsValue::Number(spec_int(j))) && (lookup_prop(
                        self.heap@[obj as int].props@,
                        dec_digits(j as nat),
                    ) matches Some(JsValue::String(t)) && t@ == members@[j].name@) by {
                        assert(members@[j].name@ != dec_digits(ii as nat));
                        if j < ii {
                            assert(members@[j].name@ != members@[ii].name@);
                            assert(members@[ii].name@ != dec_digits(j as nat));
                            if dec_digits(j as nat) == dec_digits(ii as nat) {
                                crate::number::lemma_dec_digits_injective(j as nat, ii as nat);
                            }
                        }
                    }
                }
            }
            i = i + 1;
        }
        let env = self.env;
        self.declare(env, copy_chars(name), JsValue::Object(obj), false);
        Ok(())
    }

    fn execute_var_decl(&mut self, kind: VarKind, decls: &Vec<Declarator>) -> (r: Result<
        (),
        JsError,
    >)
        ensures
            final(self).spends(old(self), r is Err),
            simple_decl(old(self).scopes@, old(self).env, old(self).this_val, decls@) && old(self).fuel >= decl_cost(
                decls@,
            ) ==> r is Ok && final(self).heap@ == old(self).heap@ && final(self).same_registers_but_fuel(old(self))
                && final(self).fuel + decl_cost(decls@) >= old(self).fuel && exists|v: JsValue|
                expr_outcome(old(self).scopes@, old(self).env, old(self).this_val, decls@[0].init->0, Ok(v))
                    && scopes_declared(
                    old(self).scopes@,
                    final(self).scopes@,
                    old(self).env as int,
                    decls@[0].target->Ident_0@,
                    v,
                    decl_mutable(kind),
                ),
        decreases old(self).fuel,
    {
        let ghost law = simple_decl(old(self).scopes@, old(self).env, old(self).this_val, decls@) && old(self).fuel
            >= decl_cost(decls@);
        self.step()?;
        let mutable = match kind {
            VarKind::Const => false,
            _ => true,
        };
        let scope = self.env;
        let mut i: usize = 0;
        while i < decls.len()
            invariant
                self.spends(old(self), false),
                i <= decls@.len(),
                scope == old(self).env,
                mutable == decl_mutable(kind),
                law == (simple_decl(old(self).scopes@, old(self).env, old(self).this_val, decls@) && old(self).fuel
                    >= decl_cost(decls@)),
                law && i == 0 ==> self.same_but_fuel(old(self)) && self.fuel == old(self).fuel - 1,
                law && i == 1 ==> self.heap@ == old(self).heap@ && self.same_registers_but_fuel(old(self))
                    && self.fuel + decl_cost(decls@) >= old(self).fuel && exists|v: JsValue|
                    expr_outcome(old(self).scopes@, old(self).env, old(self).this_val, decls@[0].init->0, Ok(v))
                        && scopes_declared(
                        old(self).scopes@,
                        self.scopes@,
                        old(self).env as int,
                        decls@[0].target->Ident_0@,
                        v,
                        mutable,
                    ),
            decreases decls@.len() - i,
        {
            let v = match &decls[i].init {
                Some(e) => self.evaluate(e)?,
                None => JsValue::Undefined,
            };
            let ghost mid = *self;
            self.bind_pattern(&decls[i].target, v, scope, mutable, true)?;
            proof {
                if law && i == 0 {
                    assert(expr_outcome(old(self).scopes@, old(self).env, old(self).this_val, decls@[0].init->0, Ok(v)));
                    assert(mid.scopes@ == old(self).scopes@);
                }
            }
            i = i + 1;
        }
        Ok(())
    }

    /// Binds (`declare`) or assigns the parts of `value` to the names in `pat`.
    pub fn bind_pattern(
        &mut self,
        pat: &Pattern,
        value: JsValue,
        scope: usize,
        mutable: bool,
        declare: bool,
    ) -> (r: Result<(), JsError>)
        ensures
            final(self).spends(old(self), r is Err),
            (*pat is Ident && declare && old(self).fuel > 0) ==> r is Ok && final(self).heap@ == old(self).heap@
                && final(self).same_registers_but_fuel(old(self)) && final(self).fuel == old(self).fuel - 1 && scopes_declared(
                old(self).scopes@,
                final(self).scopes@,
                scope as int,
                pat->Ident_0@,
                value,
                mutable,
            ),
            (*pat is Object && !(value is Object) && old(self).fuel > 0) ==> (r matches Err(JsError::Raised(k, m))
                && k == ErrorKind::TypeError && m@ == "Cannot destructure non-object"@),
        decreases old(self).fuel,
    {
        self.step()?;
        match pat {
            Pattern::Ident(name) => {
                if declare {
                    self.declare(scope, copy_chars(name), value, mutable);
                    Ok(())
                } else {
                    self.assign_var(name.as_slice(), value)
                }
            },
            Pattern::Array(elems, rest) => {
                let items = match self.iterate_values(&value)? {
                    Some(v) => v,
                    None => {
                        return Err(type_error("value is not iterable"));
                    },
                };
                let mut i: usize = 0;
                while i < elems.len()
                    invariant
                        self.spends(old(self), false),
                        *pat is Array,
                    decreases elems@.len() - i,
                {
                    if let Some(el) = &elems[i] {
                        let mut v = arg_at(&items, i);
                        if let JsValue::Undefined = v {
                            if let Some(d) = &el.default {
                                v = self.evaluate(d)?;
                            }
                        }
                        self.bind_pattern(&el.target, v, scope, mutable, declare)?;
                    }
                    i = i + 1;
                }
                if let Some(r) = rest {
                    let mut remaining: Vec<JsValue> = Vec::new();
                    let mut k: usize = elems.len();
                    while k < items.len()
                        invariant
                            self.spends(old(self), false),
                            *pat is Array,
                        decreases items@.len() - k,
                    {
                        remaining.push(items[k].copy());
                        k = k + 1;
                    }
                    let arr = self.create_array(remaining);
                    self.bind_pattern(&**r, JsValue::Object(arr), scope, mutable, declare)?;
                }
                Ok(())
            },
            Pattern::Object(props, rest) => {
                if !matches!(value, JsValue::Object(_)) {
                    return Err(type_error("Cannot destructure non-object"));
                }
                let mut used: Vec<Vec<char>> = Vec::new();
                let mut i: usize = 0;
                while i < props.len()
                    invariant
                        self.spends(old(self), false),
                        *pat is Object,
                        value is Object,

                    decreases props@.len() - i,
                {
                    let key = match &props[i].key {
                        PropName::Name(n) => copy_chars(n),
                        PropName::Computed(e) => {
                            let kv = self.evaluate(e)?;
                            self.to_js_string(&kv)?
                        },
                    };
                    used.push(copy_chars(&key));
                    let k = match crate::value::key_to_index(key.as_slice()) {
                        Some(ix) => PropertyKey::Index(ix),
                        None => PropertyKey::Name(key),
                    };
                    let mut v = self.get_member(&value, &k)?;
                    if let JsValue::Undefined = v {
                        if let Some(d) = &props[i].default {
                            v = self.evaluate(d)?;
                        }
                    }
                    self.bind_pattern(&props[i].target, v, scope, mutable, declare)?;
                    i = i + 1;
                }
                if let Some(r) = rest {
                    let obj = self.create_object();
                    if let JsValue::Object(src) = value {
                        if src < self.heap.len() {
                            let n = self.heap[src].props.len();
                            let mut k: usize = 0;
                            while k < n
                                invariant
                                    self.spends(old(self), false),
                                    *pat is Object,
                                    value is Object,

                                    src < self.heap@.len(),
                                decreases n - k,
                            {
                                if k < self.heap[src].props.len() && self.heap[src].props[k].enumerable {
                                    let key = copy_chars(&self.heap[src].props[k].key);
                                    let mut found = false;
                                    let mut u: usize = 0;
                                    while u < used.len()
                                        invariant
                                            u <= used@.len(),
                                        decreases used@.len() - u,
                                    {
                                        if chars_equal(used[u].as_slice(), key.as_slice()) {
                                            found = true;
                                        }
                                        u = u + 1;
                                    }
                                    if !found {
                                        let v = self.heap[src].props[k].value.copy();
                                        self.put_own(obj, key, v, true);
                                    }
                                }
                                k = k + 1;
                            }
                        }
                    }
                    self.bind_pattern(&**r, JsValue::Object(obj), scope, mutable, declare)?;
                }
                Ok(())
            },
        }
    }

    /// The values produced by iterating `v` (arrays, strings, and maps), or `None`.
    pub fn iterate_values(&mut self, v: &JsValue) -> (r: Result<Option<Vec<JsValue>>, JsError>)
        ensures
            final(self).spends(old(self), r is Err),
        decreases old(self).fuel,
    {
        self.step()?;
        match v {
            JsValue::String(s) => {
                let mut out: Vec<JsValue> = Vec::new();
                let mut i: usize = 0;
                while i < s.len()
                    invariant
                        i <= s@.len(),
                    decreases s@.len() - i,
                {
                    let mut c: Vec<char> = Vec::new();
                    c.push(s[i]);
                    out.push(JsValue::String(c));
                    i = i + 1;
                }
                Ok(Some(out))
            },
            JsValue::Object(id) => {
                if *id >= self.heap.len() {
                    return Ok(None);
                }
                match &self.heap[*id].kind {
                    ObjectKind::Array(elems) => Ok(Some(copy_values(elems))),
                    ObjectKind::StringBox(s) => {
                        let mut out: Vec<JsValue> = Vec::new();
                        let mut i: usize = 0;
                        while i < s.len()
                            invariant
                                i <= s@.len(),
                            decreases s@.len() - i,
                        {
                            let mut c: Vec<char> = Vec::new();
                            c.push(s[i]);
                            out.push(JsValue::String(c));
                            i = i + 1;
                        }
                        Ok(Some(out))
                    },
                    ObjectKind::MapData(t) => {
                        let entries = crate::table::table_copy(t);
                        let mut pairs: Vec<Vec<JsValue>> = Vec::new();
                        let mut i: usize = 0;
                        while i < entries.len()
                            invariant
                                i <= entries@.len(),
                            decreases entries@.len() - i,
                        {
                            let mut pair: Vec<JsValue> = Vec::new();
                            pair.push(entries[i].0.copy());
                            pair.push(entries[i].1.copy());
                            pairs.push(pair);
                            i = i + 1;
                        }
                        let mut out: Vec<JsValue> = Vec::new();
                        while pairs.len() > 0
                            invariant
                                self.spends(old(self), false),
                            decreases pairs@.len(),
                        {
                            let p = pairs.remove(0);
                            let a = self.create_array(p);
                            out.push(JsValue::Object(a));
                        }
                        Ok(Some(out))
                    },
                    _ => Ok(None),
                }
            },
            _ => Ok(None),
        }
    }

    /// A `while` loop (`body_first`: a `do … while` loop, whose body runs once before the
    /// first test). Its run is one that `for_loop_run` allows with no update, where a
    /// `do … while` loop counts its first run as following a truthy test.
    fn execute_while(
        &mut self,
        test: &Expression,
        body: &Statement,
        body_first: bool,
        labels: &Vec<Vec<char>>,
    ) -> (r: Result<Completion, JsError>)
        ensures
            final(self).spends(old(self), r is Err),
            r matches Ok(c) ==> exists|tests: Seq<bool>, bodies: Seq<Completion>|
                #[trigger] for_loop_run(tests, bodies, 0, false, labels@, c),
        decreases old(self).fuel,
    {
        self.step()?;
        let mut first = body_first;
        let ghost mut tests: Seq<bool> = Seq::empty();
        let ghost mut bodies: Seq<Completion> = Seq::empty();
        loop
            invariant
                self.spends(old(self), false),
                tests.len() == bodies.len(),
                forall|k: int| 0 <= k < bodies.len() ==> #[trigger] tests[k],
                forall|k: int| 0 <= k < bodies.len() ==> loop_goes_on(#[trigger] bodies[k], labels@),
            decreases self.fuel,
        {
            if !first {
                let t = self.evaluate(test)?;
                if !t.to_boolean() {
                    let ghost tests2 = tests.push(false);
                    proof {
                        assert forall|k: int| 0 <= k < bodies.len() implies #[trigger] tests2[k] by {
                            assert(tests2[k] == tests[k]);
                        }
                        if bodies.len() > 0 {
                            assert(loop_goes_on(bodies[bodies.len() - 1], labels@));
                        }
                        assert(for_loop_run(tests2, bodies, 0, false, labels@, Completion::Normal(JsValue::Undefined)));
                    }
                    return Ok(Completion::Normal(JsValue::Undefined));
                }
            }
            first = false;
            proof {
                tests = tests.push(true);
            }
            let cv = self.execute_statement(body)?;
            let ghost before = bodies;
            proof {
                bodies = bodies.push(cv);
                assert(bodies.last() == cv);
                assert forall|k: int| 0 <= k < bodies.len() - 1 implies loop_goes_on(#[trigger] bodies[k], labels@) by {
                    assert(bodies[k] == before[k]);
                }
            }
            match cv {
                Completion::Break(l) => {
                    if label_matches(&l, labels) {
                        proof {
                            assert(for_loop_run(tests, bodies, 0, false, labels@, Completion::Normal(JsValue::Undefined)));
                        }
                        return Ok(Completion::Normal(JsValue::Undefined));
                    }
                    let out = Completion::Break(l);
                    proof {
                        assert(for_loop_run(tests, bodies, 0, false, labels@, out));
                    }
                    return Ok(out);
                },
                Completion::Continue(l) => {
                    if !label_matches(&l, labels) {
                        let out = Completion::Continue(l);
                        proof {
                            assert(for_loop_run(tests, bodies, 0, false, labels@, out));
                        }
                        return Ok(out);
                    }
                },
                Completion::Return(v) => {
                    let out = Completion::Return(v);
                    proof {
                        assert(for_loop_run(tests, bodies, 0, false, labels@, out));
                    }
                    return Ok(out);
                },
                Completion::Normal(_) => {},
            }
        }
    }

    fn execute_for(
        &mut self,
        init: &Option<ForInit>,
        test: &Option<Expression>,
        update: &Option<Expression>,
        body: &Statement,
        labels: &Vec<Vec<char>>,
    ) -> (r: Result<Completion, JsError>)
        ensures
            final(self).spends(old(self), r is Err),
            final(self).env == old(self).env,
            r matches Ok(c) ==> exists|tests: Seq<bool>, bodies: Seq<Completion>, updates: nat|
                #[trigger] for_loop_run(tests, bodies, updates, update is Some, labels@, c),
        decreases old(self).fuel,
    {
        self.step()?;
        let saved = self.env;
        let loop_scope = self.push_scope(saved);
        self.env = loop_scope;
        let r = self.run_for(init, test, update, body, labels);
        self.env = saved;
        match r {
            Ok((c, trace)) => {
                proof {
                    let (tests, bodies, updates) = trace@;
                    assert(for_loop_run(tests, bodies, updates, update is Some, labels@, c));
                }
                Ok(c)
            },
            Err(e) => Err(e),
        }
    }

    /// Runs a `for` loop after its scope is set up; besides the loop's completion it gives
    /// the run's trace (see `for_loop_run`).
    fn run_for(
        &mut self,
        init: &Option<ForInit>,
        test: &Option<Expression>,
        update: &Option<Expression>,
        body: &Statement,
        labels: &Vec<Vec<char>>,
    ) -> (r: Result<(Completion, Ghost<(Seq<bool>, Seq<Completion>, nat)>), JsError>)
        ensures
            final(self).spends(old(self), r is Err),
            r matches Ok((c, t)) ==> for_loop_run(t@.0, t@.1, t@.2, update is Some, labels@, c),
        decreases old(self).fuel,
    {
        self.step()?;
        match init {
            Some(ForInit::Decl(kind, decls)) => {
                self.execute_var_decl(*kind, decls)?;
            },
            Some(ForInit::Expr(e)) => {
                self.evaluate(e)?;
            },
            None => {},
        }
        let ghost mut tests: Seq<bool> = Seq::empty();
        let ghost mut bodies: Seq<Completion> = Seq::empty();
        let ghost mut updates: nat = 0;
        loop
            invariant
                self.spends(old(self), false),
                tests.len() == bodies.len(),
                forall|k: int| 0 <= k < bodies.len() ==> #[trigger] tests[k],
                forall|k: int| 0 <= k < bodies.len() ==> loop_goes_on(#[trigger] bodies[k], labels@),
                updates == (if update is Some { bodies.len() } else { 0 }),
            decreases self.fuel,
        {
            self.step()?;
            if let Some(t) = test {
                let tv = self.evaluate(t)?;
                if !tv.to_boolean() {
                    let ghost tests2 = tests.push(false);
                    proof {
                        assert(tests2.last() == false);
                        assert forall|k: int| 0 <= k < bodies.len() implies #[trigger] tests2[k] by {
                            assert(tests2[k] == tests[k]);
                        }
                        if bodies.len() > 0 {
                            assert(loop_goes_on(bodies[bodies.len() - 1], labels@));
                        }
                    }
                    return Ok((Completion::Normal(JsValue::Undefined), Ghost((tests2, bodies, updates))));
                }
            }
            proof {
                tests = tests.push(true);
            }
            // each iteration sees its own copy of the loop variables
            let outer = self.env;
            let iter_scope = self.push_scope(outer);
            self.copy_bindings(outer, iter_scope);
            self.env = iter_scope;
            let c = self.execute_statement(body);
            self.copy_bindings(iter_scope, outer);
            self.env = outer;
            let cv = c?;
            let ghost before = bodies;
            proof {
                bodies = bodies.push(cv);
                assert(bodies.last() == cv);
                assert forall|k: int| 0 <= k < bodies.len() - 1 implies loop_goes_on(#[trigger] bodies[k], labels@) by {
                    assert(bodies[k] == before[k]);
                }
            }
            match cv {
                Completion::Break(l) => {
                    if label_matches(&l, labels) {
                        return Ok((Completion::Normal(JsValue::Undefined), Ghost((tests, bodies, updates))));
                    }
                    return Ok((Completion::Break(l), Ghost((tests, bodies, updates))));
                },
                Completion::Continue(l) => {
                    if !label_matches(&l, labels) {
                        return Ok((Completion::Continue(l), Ghost((tests, bodies, updates))));
                    }
                },
                Completion::Return(v) => {
                    return Ok((Completion::Return(v), Ghost((tests, bodies, updates))));
                },
                Completion::Normal(_) => {},
            }
            if let Some(u) = update {
                self.evaluate(u)?;
                proof {
                    updates = updates + 1;
                }
            }
        }
    }

    /// Copies the bindings of scope `from` into scope `to`.
    fn copy_bindings(&mut self, from: usize, to: usize)
        ensures
            final(self).heap@ == old(self).heap@,
            final(self).scopes@.len() == old(self).scopes@.len(),
            final(self).fuel == old(self).fuel,
            final(self).env == old(self).env,
            final(self).this_val == old(self).this_val,
    {
        if from >= self.scopes.len() {
            return;
        }
        let n = self.scopes[from].vars.len();
        let mut i: usize = 0;
        while i < n
            invariant
                from < self.scopes@.len(),
                self.heap@ == old(self).heap@,
                self.scopes@.len() == old(self).scopes@.len(),
                self.fuel == old(self).fuel,
                self.env == old(self).env,
                self.this_val == old(self).this_val,
            decreases n - i,
        {
            if i < self.scopes[from].vars.len() {
                let name = copy_chars(&self.scopes[from].vars[i].name);
                let v = self.scopes[from].vars[i].value.copy();
                let m = self.scopes[from].vars[i].mutable;
                self.declare(to, name, v, m);
            }
            i = i + 1;
        }
    }

    fn execute_for_each(
        &mut self,
        is_of: bool,
        kind: VarKind,
        target: &Pattern,
        iter: &Expression,
        body: &Statement,
        labels: &Vec<Vec<char>>,
    ) -> (r: Result<Completion, JsError>)
        ensures
            final(self).spends(old(self), r is Err),
            final(self).env == old(self).env,
            r matches Ok(c) ==> exists|tests: Seq<bool>, bodies: Seq<Completion>|
                #[trigger] for_loop_run(tests, bodies, 0, false, labels@, c),
        decreases old(self).fuel,
    {
        self.step()?;
        let saved = self.env;
        let r = self.run_for_each(is_of, kind, target, iter, body, labels);
        self.env = saved;
        r
    }

    fn run_for_each(
        &mut self,
        is_of: bool,
        kind: VarKind,
        target: &Pattern,
        iter: &Expression,
        body: &Statement,
        labels: &Vec<Vec<char>>,
    ) -> (r: Result<Completion, JsError>)
        ensures
            final(self).spends(old(self), r is Err),
            r matches Ok(c) ==> exists|tests: Seq<bool>, bodies: Seq<Completion>|
                #[trigger] for_loop_run(tests, bodies, 0, false, labels@, c),
        decreases old(self).fuel,
    {
        self.step()?;
        let source = self.evaluate(iter)?;
        let items: Vec<JsValue> = if is_of {
            match self.iterate_values(&source)? {
                Some(v) => v,
                None => {
                    return Err(type_error("object is not iterable"));
                },
            }
        } else {
            let keys = self.own_enumerable_keys(&source);
            let mut out: Vec<JsValue> = Vec::new();
            let mut k: usize = 0;
            while k < keys.len()
                invariant
                    k <= keys@.len(),
                decreases keys@.len() - k,
            {
                out.push(JsValue::String(copy_chars(&keys[k])));
                k = k + 1;
            }
            out
        };
        let saved = self.env;
        let declare = true;
        let mutable = match kind {
            VarKind::Const => false,
            _ => true,
        };
        let mut i: usize = 0;
        let ghost mut tests: Seq<bool> = Seq::empty();
        let ghost mut bodies: Seq<Completion> = Seq::empty();
        while i < items.len()
            invariant
                self.spends(old(self), false),
                self.env == saved,
                tests.len() == bodies.len(),
                forall|k: int| 0 <= k < bodies.len() ==> #[trigger] tests[k],
                forall|k: int| 0 <= k < bodies.len() ==> loop_goes_on(#[trigger] bodies[k], labels@),
            decreases items@.len() - i,
        {
            let s = self.push_scope(saved);
            self.env = s;
            let r1 = self.bind_pattern(target, items[i].copy(), s, mutable, declare);
            if let Err(e) = r1 {
                self.env = saved;
                return Err(e);
            }
            let c = self.execute_statement(body);
            self.env = saved;
            let cv = c?;
            let ghost before = bodies;
            proof {
                tests = tests.push(true);
                bodies = bodies.push(cv);
                assert(bodies.last() == cv);
                assert forall|k: int| 0 <= k < bodies.len() - 1 implies loop_goes_on(#[trigger] bodies[k], labels@) by {
                    assert(bodies[k] == before[k]);
                }
            }
            match cv {
                Completion::Break(l) => {
                    if label_matches(&l, labels) {
                        proof {
                            assert(for_loop_run(tests, bodies, 0, false, labels@, Completion::Normal(JsValue::Undefined)));
                        }
                        return Ok(Completion::Normal(JsValue::Undefined));
                    }
                    let out = Completion::Break(l);
                    proof {
                        assert(for_loop_run(tests, bodies, 0, false, labels@, out));
                    }
                    return Ok(out);
                },
                Completion::Continue(l) => {
                    if !label_matches(&l, labels) {
                        let out = Completion::Continue(l);
                        proof {
                            assert(for_loop_run(tests, bodies, 0, false, labels@, out));
                        }
                        return Ok(out);
                    }
                },
                Completion::Return(v) => {
                    let out = Completion::Return(v);
                    proof {
                        assert(for_loop_run(tests, bodies, 0, false, labels@, out));
                    }
                    return Ok(out);
                },
                Completion::Normal(_) => {},
            }
            i = i + 1;
        }
        let ghost tests2 = tests.push(false);
        proof {
            assert forall|k: int| 0 <= k < bodies.len() implies #[trigger] tests2[k] by {
                assert(tests2[k] == tests[k]);
            }
            if bodies.len() > 0 {
                assert(loop_goes_on(bodies[bodies.len() - 1], labels@));
            }
            assert(for_loop_run(tests2, bodies, 0, false, labels@, Completion::Normal(JsValue::Undefined)));
        }
        Ok(Completion::Normal(JsValue::Undefined))
    }

    /// Own enumerable string keys in order: indices first, then other keys by insertion.
    pub fn own_enumerable_keys(&self, v: &JsValue) -> (r: Vec<Vec<char>>)
        ensures
            own_keys_spec(self.heap@, *v, r@.map_values(|k: Vec<char>| k@)),
    {
        let mut out: Vec<Vec<char>> = Vec::new();
        match v {
            JsValue::Object(id) => {
                if *id < self.heap.len() {
                    let o = &self.heap[*id];
                    match &o.kind {
                        ObjectKind::Array(elems) => {
                            let mut i: usize = 0;
                            while i < elems.len()
                                invariant
                                    i <= elems@.len(),
                                    out@.map_values(|k: Vec<char>| k@) == element_keys(i as nat),
                                decreases elems@.len() - i,
                            {
                                let ghost prev = out@;
                                let item = crate::number::u64_to_dec(i as u64);
                                proof {
                                    lemma_map_push(prev, item);
                                }
                                out.push(item);
                                i = i + 1;
                                assert(out@.map_values(|k: Vec<char>| k@) =~= element_keys(i as nat));
                            }
                        },
                        ObjectKind::StringBox(s) => {
                            let mut i: usize = 0;
                            while i < s.len()
                                invariant
                                    i <= s@.len(),
                                    out@.map_values(|k: Vec<char>| k@) == element_keys(i as nat),
                                decreases s@.len() - i,
                            {
                                let ghost prev = out@;
                                let item = crate::number::u64_to_dec(i as u64);
                                proof {
                                    lemma_map_push(prev, item);
                                }
                                out.push(item);
                                i = i + 1;
                                assert(out@.map_values(|k: Vec<char>| k@) =~= element_keys(i as nat));
                            }
                        },
                        _ => {
                            assert(out@.map_values(|k: Vec<char>| k@) =~= element_keys(0));
                        },
                    }
                    let ghost head = out@.map_values(|k: Vec<char>| k@);
                    assert(head == elements_of(o.kind));
                    // integer-like keys first, in ascending order
                    let mut idx_keys: Vec<usize> = Vec::new();
                    let mut j: usize = 0;
                    assert(o.props@.subrange(0, 0) =~= Seq::<Property>::empty());
                    while j < o.props.len()
                        invariant
                            j <= o.props@.len(),
                            idx_keys@ == index_values(o.props@.subrange(0, j as int)),
                        decreases o.props@.len() - j,
                    {
                        assert(o.props@.subrange(0, j + 1).drop_last() =~= o.props@.subrange(0, j as int));
                        if o.props[j].enumerable {
                            if let Some(ix) = crate::value::key_to_index(o.props[j].key.as_slice()) {
                                idx_keys.push(ix);
                            }
                        }
                        j = j + 1;
                    }
                    assert(o.props@.subrange(0, o.props@.len() as int) =~= o.props@);
                    crate::builtins::array::sort_usizes(&mut idx_keys);
                    let mut a: usize = 0;
                    while a < idx_keys.len()
                        invariant
                            a <= idx_keys@.len(),
                            out@.map_values(|k: Vec<char>| k@) == head + idx_keys@.subrange(0, a as int).map_values(
                                |x: usize| crate::number::dec_digits(x as nat),
                            ),
                        decreases idx_keys@.len() - a,
                    {
                        let ghost prev = out@;
                        let item = crate::number::u64_to_dec(idx_keys[a] as u64);
                        proof {
                            lemma_map_push(prev, item);
                        }
                        out.push(item);
                        a = a + 1;
                        assert(out@.map_values(|k: Vec<char>| k@) =~= head + idx_keys@.subrange(0, a as int).map_values(
                            |x: usize| crate::number::dec_digits(x as nat),
                        ));
                    }
                    assert(idx_keys@.subrange(0, idx_keys@.len() as int) =~= idx_keys@);
                    let ghost mid = out@.map_values(|k: Vec<char>| k@);
                    let mut j2: usize = 0;
                    assert(mid + named_keys(o.props@.subrange(0, 0)) =~= mid);
                    while j2 < o.props.len()
                        invariant
                            j2 <= o.props@.len(),
                            out@.map_values(|k: Vec<char>| k@) == mid + named_keys(o.props@.subrange(0, j2 as int)),
                        decreases o.props@.len() - j2,
                    {
                        assert(o.props@.subrange(0, j2 + 1).drop_last() =~= o.props@.subrange(0, j2 as int));
                        if o.props[j2].enumerable && crate::value::key_to_index(
                            o.props[j2].key.as_slice(),
                        ).is_none() {
                            let ghost prev = out@;
                            let item = copy_chars(&o.props[j2].key);
                            proof {
                                lemma_map_push(prev, item);
                            }
                            out.push(item);
                        }
                        j2 = j2 + 1;
                        assert(out@.map_values(|k: Vec<char>| k@) =~= mid + named_keys(o.props@.subrange(0, j2 as int)));
                    }
                    assert(o.props@.subrange(0, o.props@.len() as int) =~= o.props@);
                } else {
                    assert(out@.map_values(|k: Vec<char>| k@) =~= Seq::<Seq<char>>::empty());
                }
            },
            JsValue::String(s) => {
                let mut i: usize = 0;
                while i < s.len()
                    invariant
                        i <= s@.len(),
                        out@.map_values(|k: Vec<char>| k@) == element_keys(i as nat),
                    decreases s@.len() - i,
                {
                    let ghost prev = out@;
                    let item = crate::number::u64_to_dec(i as u64);
                    proof {
                        lemma_map_push(prev, item);
                    }
                    out.push(item);
                    i = i + 1;
                    assert(out@.map_values(|k: Vec<char>| k@) =~= element_keys(i as nat));
                }
            },
            _ => {
                assert(out@.map_values(|k: Vec<char>| k@) =~= Seq::<Seq<char>>::empty());
            },
        }
        out
    }

    fn execute_try(
        &mut self,
        block: &Vec<Statement>,
        param: &Option<Pattern>,
        handler: &Option<Vec<Statement>>,
        finalizer: &Option<Vec<Statement>>,
    ) -> (r: Result<Completion, JsError>)
        ensures
            final(self).spends(old(self), r is Err),
            r == Err::<Completion, JsError>(JsError::OutOfFuel) || exists|
                b: Result<Completion, JsError>,
                c: Option<Result<Completion, JsError>>,
                f: Option<Result<Completion, JsError>>,
            | #[trigger] try_run(b, c, f, handler is Some, finalizer is Some, r),
        decreases old(self).fuel,
    {
        self.step()?;
        let saved_env = self.env;
        let saved_this = self.this_val.copy();
        let result = self.execute_block(block, true);
        let ghost b = result;
        let ghost mut c: Option<Result<Completion, JsError>> = None;
        let result = match result {
            Err(JsError::OutOfFuel) => Err(JsError::OutOfFuel),
            Err(err) => {
                self.env = saved_env;
                self.this_val = saved_this;
                match handler {
                    Some(h) => {
                        let v = self.error_to_value(err);
                        let s = self.push_scope(saved_env);
                        self.env = s;
                        let bound = match param {
                            Some(p) => self.bind_pattern(p, v, s, true, true),
                            None => Ok(()),
                        };
                        let r = match bound {
                            Ok(()) => self.execute_block(h, false),
                            Err(e) => Err(e),
                        };
                        self.env = saved_env;
                        proof {
                            c = Some(r);
                        }
                        r
                    },
                    None => Err(err),
                }
            },
            Ok(c) => Ok(c),
        };
        match finalizer {
            Some(f) => {
                let fr = self.execute_block(f, true);
                let ghost fg = fr;
                let out = match fr {
                    Err(e) => Err(e),
                    Ok(Completion::Normal(_)) => result,
                    Ok(other) => Ok(other),
                };
                proof {
                    assert(try_run(b, c, Some(fg), handler is Some, finalizer is Some, out));
                }
                out
            },
            None => {
                proof {
                    assert(try_run(b, c, None, handler is Some, finalizer is Some, result));
                }
                result
            },
        }
    }

    /// The value a `catch` clause receives for an error.
    pub fn error_to_value(&mut self, err: JsError) -> (r: JsValue)
        ensures
            final(self).grows(old(self)),
            final(self).fuel == old(self).fuel,
            final(self).env == old(self).env,
    {
        match err {
            JsError::Thrown(v) => v,
            JsError::Raised(kind, msg) => {
                let id = crate::builtins::error::create_error_object(self, kind, msg);
                JsValue::Object(id)
            },
            JsError::OutOfFuel => JsValue::Undefined,
        }
    }

    fn execute_switch(&mut self, disc: &Expression, cases: &Vec<crate::ast::SwitchCase>) -> (r:
        Result<Completion, JsError>)
        ensures
            final(self).spends(old(self), r is Err),
            r matches Ok(c) ==> exists|d: JsValue, vals: Seq<JsValue>, ran: Seq<Statement>, done: Seq<Completion>|
                #[trigger] switch_run(d, cases@, vals, ran, done, c),
        decreases old(self).fuel,
    {
        self.step()?;
        let d = self.evaluate(disc)?;
        let mut start: Option<usize> = None;
        let mut default_index: Option<usize> = None;
        let mut i: usize = 0;
        let mut found = false;
        let ghost mut vals: Seq<JsValue> = Seq::empty();
        proof {
            assert forall|rest: Seq<JsValue>| #[trigger] switch_choice(d, cases@, 0, vals + rest, None) == switch_choice(
                d,
                cases@,
                0,
                rest,
                None,
            ) && switch_tests_used(d, cases@, 0, vals + rest) == switch_tests_used(d, cases@, 0, rest) by {
                assert(vals + rest =~= rest);
            }
        }
        while i < cases.len() && !found
            invariant
                self.spends(old(self), false),
                i <= cases@.len(),
                start matches Some(s) ==> s < cases@.len(),
                default_index matches Some(s) ==> s < cases@.len(),
                found <==> start is Some,
                found ==> switch_choice(d, cases@, 0, vals, None) == Some(start->Some_0 as int) && switch_tests_used(d, cases@, 0, vals),
                !found ==> forall|rest: Seq<JsValue>| #[trigger] switch_choice(d, cases@, 0, vals + rest, None)
                    == switch_choice(d, cases@, i as int, rest, default_index)
                    && switch_tests_used(d, cases@, 0, vals + rest) == switch_tests_used(d, cases@, i as int, rest),
            decreases cases@.len() - i, if found { 0int } else { 1int },
        {
            let ghost v0 = vals;
            match &cases[i].test {
                Some(t) => {
                    let v = self.evaluate(t)?;
                    proof {
                        vals = vals.push(v);
                        assert forall|rest: Seq<JsValue>| #[trigger] (v0 + (seq![v] + rest)) == vals + rest by {
                            assert(v0 + (seq![v] + rest) =~= vals + rest);
                        }
                        assert forall|rest: Seq<JsValue>| #[trigger] (seq![v] + rest).drop_first() == rest by {
                            assert((seq![v] + rest).drop_first() =~= rest);
                        }
                    }
                    if strict_equals(&d, &v) {
                        proof {
                            let e = Seq::<JsValue>::empty();
                            assert(vals + e =~= vals);
                            assert(v0 + (seq![v] + e) == vals + e);
                            assert(switch_choice(d, cases@, i as int, seq![v] + e, default_index) == Some(i as int));
                            assert(switch_tests_used(d, cases@, i as int, seq![v] + e));
                        }
                        start = Some(i);
                        found = true;
                    } else {
                        proof {
                            assert forall|rest: Seq<JsValue>| #[trigger] switch_choice(d, cases@, 0, vals + rest, None)
                                == switch_choice(d, cases@, i + 1, rest, default_index)
                                && switch_tests_used(d, cases@, 0, vals + rest) == switch_tests_used(
                                d,
                                cases@,
                                i + 1,
                                rest,
                            ) by {
                                let r2 = seq![v] + rest;
                                assert(switch_choice(d, cases@, 0, v0 + r2, None) == switch_choice(
                                    d,
                                    cases@,
                                    i as int,
                                    r2,
                                    default_index,
                                ));
                                assert(switch_tests_used(d, cases@, 0, v0 + r2) == switch_tests_used(d, cases@, i as int, r2));
                            }
                        }
                        i = i + 1;
                    }
                },
                None => {
                    let ghost dflt0 = default_index;
                    default_index = Some(i);
                    proof {
                        assert forall|rest: Seq<JsValue>| #[trigger] switch_choice(d, cases@, 0, vals + rest, None)
                            == switch_choice(d, cases@, i + 1, rest, default_index)
                            && switch_tests_used(d, cases@, 0, vals + rest) == switch_tests_used(d, cases@, i + 1, rest) by {
                            assert(switch_choice(d, cases@, 0, vals + rest, None) == switch_choice(
                                d,
                                cases@,
                                i as int,
                                rest,
                                dflt0,
                            ));
                        }
                    }
                    i = i + 1;
                },
            }
        }
        proof {
            if !found {
                let e = Seq::<JsValue>::empty();
                assert(vals + e =~= vals);
                assert(switch_choice(d, cases@, 0, vals + e, None) == switch_choice(d, cases@, i as int, e, default_index));
                assert(switch_tests_used(d, cases@, 0, vals + e) == switch_tests_used(d, cases@, i as int, e));
            }
        }
        let first = match start {
            Some(s) => s,
            None => match default_index {
                Some(s) => s,
                None => {
                    proof {
                        assert(switch_run(d, cases@, vals, Seq::empty(), Seq::empty(), Completion::Normal(JsValue::Undefined)));
                    }
                    return Ok(Completion::Normal(JsValue::Undefined));
                },
            },
        };
        let saved = self.env;
        let scope = self.push_scope(saved);
        self.env = scope;
        let mut k = first;
        let ghost mut ran: Seq<Statement> = Seq::empty();
        let ghost mut done: Seq<Completion> = Seq::empty();
        proof {
            assert(ran + case_rest(cases@, k as int, 0) =~= stmts_from(cases@, first as int));
        }
        while k < cases.len()
            invariant
                self.spends(old(self), false),
                first <= k <= cases@.len(),
                switch_choice(d, cases@, 0, vals, None) == Some(first as int),
                switch_tests_used(d, cases@, 0, vals),
                ran.len() == done.len(),
                forall|m: int| 0 <= m < done.len() ==> (#[trigger] done[m]) is Normal,
                ran + case_rest(cases@, k as int, 0) == stmts_from(cases@, first as int),
            decreases cases@.len() - k,
        {
            let mut j: usize = 0;
            while j < cases[k].body.len()
                invariant
                    self.spends(old(self), false),
                    first <= k < cases@.len(),
                    j <= cases@[k as int].body@.len(),
                    switch_choice(d, cases@, 0, vals, None) == Some(first as int),
                    switch_tests_used(d, cases@, 0, vals),
                    ran.len() == done.len(),
                    forall|m: int| 0 <= m < done.len() ==> (#[trigger] done[m]) is Normal,
                    ran + case_rest(cases@, k as int, j as int) == stmts_from(cases@, first as int),
                decreases cases@[k as int].body@.len() - j,
            {
                let cr = self.execute_statement(&cases[k].body[j]);
                let ghost r0 = ran;
                let ghost d0 = done;
                proof {
                    ran = ran.push(cases@[k as int].body@[j as int]);
                    assert(ran + case_rest(cases@, k as int, j + 1) =~= r0 + case_rest(cases@, k as int, j as int));
                    let all = stmts_from(cases@, first as int);
                    assert(ran + case_rest(cases@, k as int, j + 1) == all);
                    assert(all.subrange(0, ran.len() as int) =~= ran);
                }
                match cr {
                    Ok(Completion::Normal(nv)) => {
                        proof {
                            done = done.push(Completion::Normal(nv));
                            assert forall|m: int| 0 <= m < done.len() implies (#[trigger] done[m]) is Normal by {
                                if m < d0.len() {
                                    assert(done[m] == d0[m]);
                                }
                            }
                        }
                    },
                    Ok(Completion::Break(None)) => {
                        self.env = saved;
                        proof {
                            done = done.push(Completion::Break(None));
                            assert forall|m: int| 0 <= m < done.len() - 1 implies (#[trigger] done[m]) is Normal by {
                                assert(done[m] == d0[m]);
                            }
                            assert(switch_run(d, cases@, vals, ran, done, Completion::Normal(JsValue::Undefined)));
                        }
                        return Ok(Completion::Normal(JsValue::Undefined));
                    },
                    Ok(c) => {
                        self.env = saved;
                        proof {
                            done = done.push(c);
                            assert forall|m: int| 0 <= m < done.len() - 1 implies (#[trigger] done[m]) is Normal by {
                                assert(done[m] == d0[m]);
                            }
                            assert(switch_run(d, cases@, vals, ran, done, c));
                        }
                        return Ok(c);
                    },
                    Err(e) => {
                        self.env = saved;
                        return Err(e);
                    },
                }
                j = j + 1;
            }
            proof {
                assert(case_rest(cases@, k as int, j as int) =~= case_rest(cases@, k + 1, 0));
            }
            k = k + 1;
        }
        self.env = saved;
        proof {
            assert(case_rest(cases@, k as int, 0) =~= Seq::<Statement>::empty());
            assert(ran =~= stmts_from(cases@, first as int));
            assert(stmts_from(cases@, first as int).subrange(0, ran.len() as int) =~= ran);
            if done.len() > 0 {
                assert(done[done.len() - 1] is Normal);
            }
            assert(switch_run(d, cases@, vals, ran, done, Completion::Normal(JsValue::Undefined)));
        }
        Ok(Completion::Normal(JsValue::Undefined))
    }
}

} // verus!
