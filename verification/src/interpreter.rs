//! The interpreter state: object heap, scopes, property access and conversions.
use crate::number::{chars_of, spec_int, string_to_number, JsNumber};
use crate::value::{
    chars_equal, copy_chars, key_to_index, same_value, ErrorKind, FunctionKind, JsError, JsObject,
    JsValue, NativeId, ObjectKind, Property, PropertyKey,
};
use vstd::prelude::*;

verus! {

/// Step budget of one interpreter.
pub const DEFAULT_FUEL: u64 = 20000000;

/// Largest index that an assignment may extend an array to.
pub const MAX_ARRAY_GROWTH: usize = 10000000;

/// Completion record of a statement.
#[derive(Debug)]
pub enum Completion {
    Normal(JsValue),
    Return(JsValue),
    Break(Option<Vec<char>>),
    Continue(Option<Vec<char>>),
}

/// A variable binding.
pub struct Binding {
    pub name: Vec<char>,
    pub value: JsValue,
    pub mutable: bool,
}

/// A lexical scope; `parent` points at the enclosing scope.
pub struct Scope {
    pub vars: Vec<Binding>,
    pub parent: Option<usize>,
}

/// Severity of a console line.
#[derive(Clone, Copy, Debug, PartialEq, Eq, Structural)]
pub enum ConsoleLevel {
    Log,
    Info,
    Debug,
    Warn,
    Error,
}

/// The state of `console`.
pub struct ConsoleState {
    /// The lines written, in order.
    pub lines: Vec<(ConsoleLevel, Vec<char>)>,
    /// Nesting of `console.group`.
    pub group_depth: usize,
    /// Counters of `console.count`, by label.
    pub counters: Vec<(Vec<char>, u64)>,
    /// Start times of `console.time` in milliseconds, by label.
    pub timers: Vec<(Vec<char>, u64)>,
}

/// The interpreter state.
pub struct Interpreter {
    /// All objects; an object value is an index into this vector.
    pub heap: Vec<JsObject>,
    /// All scopes; closures refer to them by index.
    pub scopes: Vec<Scope>,
    /// The global object.
    pub global: usize,
    /// The current scope.
    pub env: usize,
    /// The current `this`.
    pub this_val: JsValue,
    pub object_prototype: usize,
    pub array_prototype: usize,
    pub string_prototype: usize,
    pub number_prototype: usize,
    pub boolean_prototype: usize,
    pub function_prototype: usize,
    pub error_prototype: usize,
    pub map_prototype: usize,
    pub date_prototype: usize,
    pub promise_prototype: usize,
    /// Remaining evaluation steps.
    pub fuel: u64,
    /// What the `console` methods wrote and keep.
    pub console: ConsoleState,
}

/// A runtime error with a message.
pub fn raise(kind: ErrorKind, msg: &str) -> (e: JsError)
    ensures
        e matches JsError::Raised(k, m) && k == kind && m@ == msg@,
{
    JsError::Raised(kind, chars_of(msg))
}

pub fn type_error(msg: &str) -> (e: JsError)
    ensures
        e matches JsError::Raised(k, m) && k == ErrorKind::TypeError && m@ == msg@,
{
    raise(ErrorKind::TypeError, msg)
}

/// `i` is the first position in `vars` of a binding named `name`.
pub open spec fn first_binding_at(vars: Seq<Binding>, name: Seq<char>, i: int) -> bool {
    &&& 0 <= i < vars.len()
    &&& vars[i].name@ == name
    &&& forall|j: int| 0 <= j < i ==> vars[j].name@ != name
}

/// The position of the first binding named `name` in `vars`, if any.
pub open spec fn binding_index(vars: Seq<Binding>, name: Seq<char>) -> Option<int> {
    if exists|i: int| first_binding_at(vars, name, i) {
        Some(choose|i: int| first_binding_at(vars, name, i))
    } else {
        None
    }
}

/// The first binding of a name is where `binding_index` points.
pub proof fn lemma_binding_index(vars: Seq<Binding>, name: Seq<char>, i: int)
    requires
        first_binding_at(vars, name, i),
    ensures
        binding_index(vars, name) == Some(i),
{
    let k = choose|k: int| first_binding_at(vars, name, k);
    assert(first_binding_at(vars, name, k));
    if k < i {
        assert(vars[k].name@ != name);
    } else if i < k {
        assert(vars[i].name@ != name);
    }
}

/// A binding of `name` at `j` means a first one exists at or before `j`.
pub proof fn lemma_binding_found(vars: Seq<Binding>, name: Seq<char>, j: int)
    requires
        0 <= j < vars.len(),
        vars[j].name@ == name,
    ensures
        binding_index(vars, name) matches Some(i) && i <= j && first_binding_at(vars, name, i),
    decreases j,
{
    if exists|k: int| 0 <= k < j && vars[k].name@ == name {
        let k = choose|k: int| 0 <= k < j && vars[k].name@ == name;
        lemma_binding_found(vars, name, k);
    } else {
        assert(first_binding_at(vars, name, j));
        lemma_binding_index(vars, name, j);
    }
}

/// `binding_index` is `None` exactly when no binding has the name.
pub proof fn lemma_binding_absent(vars: Seq<Binding>, name: Seq<char>)
    ensures
        binding_index(vars, name) is None <==> forall|j: int|
            0 <= j < vars.len() ==> #[trigger] vars[j].name@ != name,
{
    if exists|j: int| 0 <= j < vars.len() && #[trigger] vars[j].name@ == name {
        let j = choose|j: int| 0 <= j < vars.len() && #[trigger] vars[j].name@ == name;
        lemma_binding_found(vars, name, j);
    }
}

/// `after` is `before` with `name` declared: the first binding of that name, if there
/// is one, takes the new value and mutability; otherwise a new binding is appended.
pub open spec fn declared_in(
    before: Seq<Binding>,
    after: Seq<Binding>,
    name: Seq<char>,
    value: JsValue,
    mutable: bool,
) -> bool {
    match binding_index(before, name) {
        Some(i) => after == before.update(
            i,
            Binding { name: before[i].name, value: value, mutable: mutable },
        ),
        None => {
            &&& after.len() == before.len() + 1
            &&& after.drop_last() == before
            &&& after.last().name@ == name
            &&& after.last().value == value
            &&& after.last().mutable == mutable
        },
    }
}

/// `after` is `before` with `name` declared in scope `s`; a scope that does not exist
/// leaves everything as it was.
pub open spec fn scopes_declared(
    before: Seq<Scope>,
    after: Seq<Scope>,
    s: int,
    name: Seq<char>,
    value: JsValue,
    mutable: bool,
) -> bool {
    &&& after.len() == before.len()
    &&& forall|k: int| 0 <= k < before.len() && k != s ==> #[trigger] after[k] == before[k]
    &&& 0 <= s < before.len() ==> after[s].parent == before[s].parent && declared_in(
        before[s].vars@,
        after[s].vars@,
        name,
        value,
        mutable,
    )
}

/// The value bound to `name` in scope `s` itself, if any.
pub open spec fn scope_value(scopes: Seq<Scope>, s: int, name: Seq<char>) -> Option<JsValue> {
    if 0 <= s < scopes.len() {
        match binding_index(scopes[s].vars@, name) {
            Some(i) => Some(scopes[s].vars@[i].value),
            None => None,
        }
    } else {
        None
    }
}

/// After a declaration the name is bound to the declared value.
pub proof fn lemma_declared_value(
    before: Seq<Binding>,
    after: Seq<Binding>,
    name: Seq<char>,
    value: JsValue,
    mutable: bool,
)
    requires
        declared_in(before, after, name, value, mutable),
    ensures
        binding_index(after, name) matches Some(i) && after[i].value == value
            && after[i].mutable == mutable,
{
    match binding_index(before, name) {
        Some(i) => {
            assert(first_binding_at(before, name, i));
            assert(first_binding_at(after, name, i));
            lemma_binding_index(after, name, i);
        },
        None => {
            lemma_binding_absent(before, name);
            let n = before.len() as int;
            assert forall|j: int| 0 <= j < n implies after[j].name@ != name by {
                assert(after[j] == after.drop_last()[j]);
            }
            assert(first_binding_at(after, name, n));
            lemma_binding_index(after, name, n);
        },
    }
}

/// A declaration leaves the bindings of every other name as they were.
pub proof fn lemma_declared_other(
    before: Seq<Binding>,
    after: Seq<Binding>,
    name: Seq<char>,
    value: JsValue,
    mutable: bool,
    other: Seq<char>,
)
    requires
        declared_in(before, after, name, value, mutable),
        other != name,
    ensures
        binding_index(after, other) == binding_index(before, other),
        binding_index(before, other) matches Some(j) ==> after[j] == before[j],
{
    let n = before.len() as int;
    assert forall|j: int| 0 <= j < n implies #[trigger] after[j].name@ == before[j].name@ by {
        match binding_index(before, name) {
            Some(i) => {},
            None => {
                assert(after[j] == after.drop_last()[j]);
            },
        }
    }
    assert(after.len() == n || after.len() == n + 1);
    assert(after.len() == n + 1 ==> after[n].name@ == name);
    assert forall|j: int| first_binding_at(after, other, j) == first_binding_at(before, other, j) by {
        if 0 <= j < n {
            if first_binding_at(before, other, j) {
                assert forall|k: int| 0 <= k < j implies after[k].name@ != other by {
                    assert(after[k].name@ == before[k].name@);
                }
            }
            if first_binding_at(after, other, j) {
                assert forall|k: int| 0 <= k < j implies before[k].name@ != other by {
                    assert(after[k].name@ == before[k].name@);
                }
            }
        }
    }
    match binding_index(before, other) {
        Some(j) => {
            assert(first_binding_at(before, other, j));
            lemma_binding_index(after, other, j);
            match binding_index(before, name) {
                Some(i) => {
                    assert(first_binding_at(before, name, i));
                    assert(i != j);
                },
                None => {
                    assert(after[j] == after.drop_last()[j]);
                },
            }
        },
        None => {
            if exists|j: int| first_binding_at(after, other, j) {
                let j = choose|j: int| first_binding_at(after, other, j);
                assert(first_binding_at(before, other, j));
            }
        },
    }
}

/// `after` is `before` with the binding at position `i` of scope `s` given `value`.
pub open spec fn binding_assigned(before: Seq<Scope>, after: Seq<Scope>, s: int, i: int, value: JsValue) -> bool {
    &&& after.len() == before.len()
    &&& after[s].parent == before[s].parent
    &&& after[s].vars@ == before[s].vars@.update(
        i,
        Binding { name: before[s].vars@[i].name, value: value, mutable: true },
    )
    &&& forall|k: int| 0 <= k < before.len() && k != s ==> #[trigger] after[k] == before[k]
}

/// `r` is an error of kind `kind` with message `msg`.
pub open spec fn raised_with<T>(r: Result<T, JsError>, kind: ErrorKind, msg: Seq<char>) -> bool {
    r matches Err(JsError::Raised(k, m)) && k == kind && m@ == msg
}

/// `i` is the first position in `props` of a property keyed `key`.
pub open spec fn first_prop_at(props: Seq<Property>, key: Seq<char>, i: int) -> bool {
    &&& 0 <= i < props.len()
    &&& props[i].key@ == key
    &&& forall|j: int| 0 <= j < i ==> props[j].key@ != key
}

/// `after` is object `before` after a write of `value` to its named property `key`:
/// the first property of that key takes the value if it is writable and keeps it
/// otherwise; with no such property an extensible object gains a writable,
/// enumerable, configurable one, and another stays as it was.
pub open spec fn named_written(before: JsObject, after: JsObject, key: Seq<char>, value: JsValue) -> bool {
    &&& after.kind == before.kind
    &&& after.proto == before.proto
    &&& after.extensible == before.extensible
    &&& after.frozen == before.frozen
    &&& after.sealed == before.sealed
    &&& if exists|i: int| first_prop_at(before.props@, key, i) {
        let i = choose|i: int| first_prop_at(before.props@, key, i);
        if before.props@[i].writable {
            after.props@ == before.props@.update(
                i,
                Property {
                    key: before.props@[i].key,
                    value: value,
                    writable: true,
                    enumerable: before.props@[i].enumerable,
                    configurable: before.props@[i].configurable,
                },
            )
        } else {
            after.props@ == before.props@
        }
    } else if before.extensible {
        &&& after.props@.len() == before.props@.len() + 1
        &&& after.props@.drop_last() == before.props@
        &&& after.props@.last().key@ == key
        &&& after.props@.last().value == value
        &&& after.props@.last().writable
        &&& after.props@.last().enumerable
        &&& after.props@.last().configurable
    } else {
        after.props@ == before.props@
    }
}

/// The fields of an object other than its kind are as before.
pub open spec fn same_but_kind(before: JsObject, after: JsObject) -> bool {
    &&& after.props@ == before.props@
    &&& after.proto == before.proto
    &&& after.extensible == before.extensible
    &&& after.frozen == before.frozen
    &&& after.sealed == before.sealed
}

/// `f` is `e` padded with `undefined` to length `n`.
pub open spec fn padded_elements(e: Seq<JsValue>, f: Seq<JsValue>, n: int) -> bool {
    &&& e.len() <= n
    &&& f.len() == n
    &&& f.subrange(0, e.len() as int) == e
    &&& forall|k: int| e.len() <= k < n ==> #[trigger] f[k] == JsValue::Undefined
}

/// `after` is object `before` after a write of `value` to index `i`: a non-extensible
/// array ignores it; an array takes it as an element, growing with `undefined` holes
/// when `i` lies within reach of its end; anything else takes it as the named
/// property of `i` in decimal.
pub open spec fn index_written(before: JsObject, after: JsObject, i: int, value: JsValue) -> bool {
    match before.kind {
        ObjectKind::Array(e) => if !before.extensible {
            after == before
        } else if i < e@.len() {
            &&& same_but_kind(before, after)
            &&& after.kind matches ObjectKind::Array(f) && f@.len() == e@.len() && same_value(f@[i], value)
                && forall|k: int| 0 <= k < e@.len() && k != i ==> #[trigger] f@[k] == e@[k]
        } else if i - e@.len() <= MAX_ARRAY_GROWTH {
            &&& same_but_kind(before, after)
            &&& after.kind matches ObjectKind::Array(f) && f@.len() == i + 1 && padded_elements(
                e@,
                f@.drop_last(),
                i,
            ) && same_value(f@.last(), value)
        } else {
            named_written(before, after, crate::number::dec_digits(i as nat), value)
        },
        _ => named_written(before, after, crate::number::dec_digits(i as nat), value),
    }
}

/// `value` is a number that an array's `length` can take: a non-negative integer.
pub open spec fn length_number(value: JsValue) -> bool {
    match value {
        JsValue::Number(x) => x.wf() && (x.is_integral() || x.is_zero_spec()) && (x matches JsNumber::Finite {
            neg,
            ..
        } && !neg),
        _ => false,
    }
}

/// `after` is array `before` after a write of `value` to its `length`: a
/// non-extensible array, or a value that is not a non-negative integer, leaves the
/// elements as they were; otherwise they are cut to the new length or padded to it
/// with `undefined`, as far as the growth limit allows.
pub open spec fn length_written(before: JsObject, after: JsObject, value: JsValue) -> bool {
    &&& same_but_kind(before, after)
    &&& before.kind matches ObjectKind::Array(e) && after.kind matches ObjectKind::Array(f) && if before.extensible
        && length_number(value) {
        let x = value->Number_0;
        &&& (f@.len() <= e@.len() && f@ == e@.subrange(0, f@.len() as int)) || (e@.len() < f@.len()
            && f@.len() - e@.len() <= MAX_ARRAY_GROWTH && padded_elements(e@, f@, f@.len() as int))
        &&& (x.is_small_int() && x.int_value() <= 9007199254740992) ==> if x.int_value() <= e@.len() {
            f@ == e@.subrange(0, x.int_value())
        } else if x.int_value() - e@.len() <= MAX_ARRAY_GROWTH {
            padded_elements(e@, f@, x.int_value())
        } else {
            f@ == e@
        }
    } else {
        f@ == e@
    }
}

/// `after` is `before` with the global (scope 0) binding of `name` set to `value`
/// and every other global binding as it was.
pub open spec fn global_set(before: Seq<Scope>, after: Seq<Scope>, name: Seq<char>, value: JsValue) -> bool {
    &&& after.len() == before.len()
    &&& before.len() > 0 ==> scope_value(after, 0, name) == Some(value)
    &&& forall|k: Seq<char>| k != name ==> #[trigger] scope_value(after, 0, k) == scope_value(before, 0, k)
}

/// `after` is object `before` with a method property for each of `names`, the one
/// for `names[j]` holding the function object at heap index `first + j`; its other
/// properties, kind, prototype and extensibility are as before.
pub open spec fn methods_added(before: JsObject, after: JsObject, names: Seq<Seq<char>>, first: int) -> bool {
    &&& after.kind == before.kind
    &&& after.proto == before.proto
    &&& after.extensible == before.extensible
    &&& forall|j: int| 0 <= j < names.len() ==> lookup_prop(after.props@, #[trigger] names[j]) == Some(
        JsValue::Object((first + j) as usize),
    )
    &&& forall|k: Seq<char>| !names.contains(k) ==> #[trigger] lookup_prop(after.props@, k) == lookup_prop(
        before.props@,
        k,
    )
}

/// Two texts differ when their lengths do, or when they differ at some position.
pub proof fn lemma_texts_differ(a: Seq<char>, b: Seq<char>, d: int)
    requires
        a.len() != b.len() || (0 <= d < a.len() && d < b.len() && a[d] != b[d]),
    ensures
        a != b,
{
}

/// Adding one more method, under a new name, extends a run of added methods.
pub proof fn lemma_methods_added_push(
    a: JsObject,
    b: JsObject,
    c: JsObject,
    names: Seq<Seq<char>>,
    n: Seq<char>,
    first: int,
)
    requires
        methods_added(a, b, names, first),
        methods_added(b, c, seq![n], first + names.len()),
        forall|i: int| 0 <= i < names.len() ==> names[i] != n,
    ensures
        methods_added(a, c, names.push(n), first),
{
    let all = names.push(n);
    let one = seq![n];
    assert(one[0] == n);
    assert forall|j: int| 0 <= j < all.len() implies lookup_prop(c.props@, #[trigger] all[j]) == Some(
        JsValue::Object((first + j) as usize),
    ) by {
        if j < names.len() {
            assert(all[j] == names[j]);
            if one.contains(names[j]) {
                let i = choose|i: int| 0 <= i < one.len() && one[i] == names[j];
                assert(i == 0);
            }
        } else {
            assert(all[j] == one[0]);
        }
    }
    assert forall|k: Seq<char>| !all.contains(k) implies #[trigger] lookup_prop(c.props@, k) == lookup_prop(
        a.props@,
        k,
    ) by {
        if one.contains(k) {
            let i = choose|i: int| 0 <= i < one.len() && one[i] == k;
            assert(all[names.len() as int] == k);
        }
        if names.contains(k) {
            let i = choose|i: int| 0 <= i < names.len() && names[i] == k;
            assert(all[i] == k);
        }
    }
}

/// The kind of `after` is that of `before`, an array's elements compared by value.
pub open spec fn same_kind_view(before: JsObject, after: JsObject) -> bool {
    match (before.kind, after.kind) {
        (ObjectKind::Array(e), ObjectKind::Array(f)) => e@ == f@,
        _ => after.kind == before.kind,
    }
}

/// `after` is object `before` after deleting its named property `name`, with `r` the
/// answer: the first property of that key goes if it is configurable (answer true)
/// and stays otherwise (answer false); with no such property nothing changes and the
/// answer is true.
pub open spec fn named_deleted(before: JsObject, after: JsObject, name: Seq<char>, r: bool) -> bool {
    &&& same_kind_view(before, after)
    &&& after.proto == before.proto
    &&& after.extensible == before.extensible
    &&& after.frozen == before.frozen
    &&& after.sealed == before.sealed
    &&& if exists|i: int| first_prop_at(before.props@, name, i) {
        let i = choose|i: int| first_prop_at(before.props@, name, i);
        if before.props@[i].configurable {
            r && after.props@ == before.props@.remove(i)
        } else {
            !r && after.props@ == before.props@
        }
    } else {
        r && after.props@ == before.props@
    }
}

/// `after` is object `before` after `delete` of `key`, with `r` the answer: an
/// element inside an array becomes `undefined` (answer true); any other key is
/// deleted as a named property, an index by its decimal text.
pub open spec fn property_deleted(before: JsObject, after: JsObject, key: PropertyKey, r: bool) -> bool {
    match key {
        PropertyKey::Index(i) => match before.kind {
            ObjectKind::Array(e) => if i < e@.len() {
                &&& r
                &&& same_but_kind(before, after)
                &&& after.kind matches ObjectKind::Array(f) && f@ == e@.update(i as int, JsValue::Undefined)
            } else {
                named_deleted(before, after, crate::number::dec_digits(i as nat), r)
            },
            _ => named_deleted(before, after, crate::number::dec_digits(i as nat), r),
        },
        PropertyKey::Name(n) => named_deleted(before, after, n@, r),
    }
}

/// `r` is a number holding `n`, exactly so below the mantissa limit.
pub open spec fn count_value(r: JsValue, n: nat) -> bool {
    r matches JsValue::Number(x) && x.wf() && (n < crate::number::MANT_LIMIT ==> x == spec_int(n as int))
}

/// Object `o` itself answers a read of `key`: an element of an array or string
/// wrapper, the `length` of either, the `size` of a map, or a property in its list.
pub open spec fn own_read_found(o: JsObject, key: PropertyKey) -> bool {
    match key {
        PropertyKey::Index(i) => {
            ||| o.kind matches ObjectKind::Array(e) && i < e@.len()
            ||| o.kind matches ObjectKind::StringBox(t) && i < t@.len()
            ||| lookup_prop(o.props@, crate::number::dec_digits(i as nat)) is Some
        },
        PropertyKey::Name(n) => {
            ||| o.kind is Array && n@ == "length"@
            ||| o.kind is StringBox && n@ == "length"@
            ||| o.kind is MapData && n@ == "size"@
            ||| lookup_prop(o.props@, n@) is Some
        },
    }
}

/// `r` is what object `o` itself answers to a read of `key` (see `own_read_found`).
pub open spec fn own_read_value(o: JsObject, key: PropertyKey, r: JsValue) -> bool {
    match key {
        PropertyKey::Index(i) => match o.kind {
            ObjectKind::Array(e) if i < e@.len() => same_value(r, e@[i as int]),
            ObjectKind::StringBox(t) if i < t@.len() => r matches JsValue::String(c) && c@ == seq![t@[i as int]],
            _ => match lookup_prop(o.props@, crate::number::dec_digits(i as nat)) {
                Some(v) => same_value(r, v),
                None => false,
            },
        },
        PropertyKey::Name(n) => match o.kind {
            ObjectKind::Array(e) if n@ == "length"@ => count_value(r, e@.len()),
            ObjectKind::StringBox(t) if n@ == "length"@ => count_value(r, t@.len()),
            ObjectKind::MapData(m) if n@ == "size"@ => count_value(r, crate::table::table_view(m).len()),
            _ => match lookup_prop(o.props@, n@) {
                Some(v) => same_value(r, v),
                None => false,
            },
        },
    }
}

/// `r` is the result of reading `key` from object `cur`, following at most `fuel`
/// prototypes: the first object on the chain that answers gives the value, and
/// `undefined` comes when none does.
pub open spec fn chain_read(heap: Seq<JsObject>, cur: int, key: PropertyKey, fuel: nat, r: JsValue) -> bool
    decreases fuel,
{
    if fuel == 0 || cur < 0 || cur >= heap.len() {
        r == JsValue::Undefined
    } else if own_read_found(heap[cur], key) {
        own_read_value(heap[cur], key, r)
    } else {
        match heap[cur].proto {
            Some(p) => chain_read(heap, p as int, key, (fuel - 1) as nat, r),
            None => r == JsValue::Undefined,
        }
    }
}

/// The binding that `name` resolves to from scope `cur`, following at most `fuel`
/// scopes up the parent chain: a pair of a scope and a position in it.
pub open spec fn resolve_binding(
    scopes: Seq<Scope>,
    cur: int,
    name: Seq<char>,
    fuel: nat,
) -> Option<(int, int)>
    decreases fuel,
{
    if fuel == 0 || cur < 0 || cur >= scopes.len() {
        None
    } else {
        match binding_index(scopes[cur].vars@, name) {
            Some(i) => Some((cur, i)),
            None => match scopes[cur].parent {
                Some(p) => resolve_binding(scopes, p as int, name, (fuel - 1) as nat),
                None => None,
            },
        }
    }
}

/// The value of the first property named `key` in `props`.
pub open spec fn lookup_prop(props: Seq<Property>, key: Seq<char>) -> Option<JsValue>
    decreases props.len(),
{
    if props.len() == 0 {
        None
    } else if props[0].key@ == key {
        Some(props[0].value)
    } else {
        lookup_prop(props.drop_first(), key)
    }
}

/// `p` with its value replaced.
pub open spec fn with_value(p: Property, value: JsValue) -> Property {
    Property { value, ..p }
}

/// Setting the value of the first property named `key` changes the lookup of `key` only.
pub proof fn lemma_lookup_set_value(props: Seq<Property>, i: int, value: JsValue, key: Seq<char>)
    requires
        0 <= i < props.len(),
        props[i].key@ == key,
        lookup_prop(props, key) == Some(props[i].value),
        forall|j: int| 0 <= j < i ==> props[j].key@ != key,
    ensures
        lookup_prop(props.update(i, with_value(props[i], value)), key) == Some(value),
        forall|k: Seq<char>|
            k != key ==> #[trigger] lookup_prop(props.update(i, with_value(props[i], value)), k)
                == lookup_prop(props, k),
    decreases props.len(),
{
    let q = props.update(i, with_value(props[i], value));
    if i > 0 {
        assert(q.drop_first() =~= props.drop_first().update(i - 1, with_value(props[i], value)));
        assert(props.drop_first()[i - 1] == props[i]);
        lemma_lookup_set_value(props.drop_first(), i - 1, value, key);
        assert forall|k: Seq<char>| k != key implies #[trigger] lookup_prop(q, k) == lookup_prop(props, k) by {
            assert(lookup_prop(q.drop_first(), k) == lookup_prop(props.drop_first(), k));
        }
    } else {
        assert(q.drop_first() =~= props.drop_first());
        assert forall|k: Seq<char>| k != key implies #[trigger] lookup_prop(q, k) == lookup_prop(props, k) by {
            assert(lookup_prop(q.drop_first(), k) == lookup_prop(props.drop_first(), k));
        }
    }
}

/// Appending a property whose key is absent makes it the value of that key.
pub proof fn lemma_lookup_push(props: Seq<Property>, p: Property)
    requires
        forall|i: int| 0 <= i < props.len() ==> props[i].key@ != p.key@,
    ensures
        lookup_prop(props.push(p), p.key@) == Some(p.value),
        forall|k: Seq<char>|
            k != p.key@ ==> #[trigger] lookup_prop(props.push(p), k) == lookup_prop(props, k),
    decreases props.len(),
{
    if props.len() > 0 {
        assert(props.push(p).drop_first() =~= props.drop_first().push(p));
        lemma_lookup_push(props.drop_first(), p);
        assert forall|k: Seq<char>| k != p.key@ implies #[trigger] lookup_prop(props.push(p), k)
            == lookup_prop(props, k) by {
            assert(lookup_prop(props.push(p).drop_first(), k) == lookup_prop(props.drop_first(), k));
        }
    } else {
        assert(props.push(p).drop_first() =~= Seq::<Property>::empty());
        assert forall|k: Seq<char>| k != p.key@ implies #[trigger] lookup_prop(props.push(p), k)
            == lookup_prop(props, k) by {
            assert(lookup_prop(props.push(p).drop_first(), k) == lookup_prop(Seq::<Property>::empty(), k));
        }
    }
}

/// Index of the first own property named `key`.
pub fn find_prop(props: &Vec<Property>, key: &[char]) -> (r: Option<usize>)
    ensures
        r matches Some(i) ==> i < props@.len() && props@[i as int].key@ == key@
            && lookup_prop(props@, key@) == Some(props@[i as int].value)
            && forall|j: int| 0 <= j < i ==> props@[j].key@ != key@,
        r is None ==> forall|i: int| 0 <= i < props@.len() ==> props@[i].key@ != key@,
        r is None <==> lookup_prop(props@, key@) is None,
{
    let mut i: usize = 0;
    assert(props@.subrange(0, props@.len() as int) =~= props@);
    while i < props.len()
        invariant
            i <= props@.len(),
            forall|j: int| 0 <= j < i ==> props@[j].key@ != key@,
            lookup_prop(props@, key@) == lookup_prop(props@.subrange(i as int, props@.len() as int), key@),
        decreases props@.len() - i,
    {
        if chars_equal(props[i].key.as_slice(), key) {
            return Some(i);
        }
        proof {
            assert(props@.subrange(i as int, props@.len() as int).drop_first() =~= props@.subrange(
                i + 1,
                props@.len() as int,
            ));
        }
        i = i + 1;
    }
    None
}

/// A data property.
pub fn data_prop(key: Vec<char>, value: JsValue, enumerable: bool) -> (p: Property)
    ensures
        p.key == key,
        p.value == value,
        p.enumerable == enumerable,
        p.writable,
        p.configurable,
{
    Property { key, value, writable: true, enumerable, configurable: true }
}

/// A new object of the given kind and prototype.
pub fn new_object(kind: ObjectKind, proto: Option<usize>) -> (o: JsObject)
    ensures
        o.kind == kind,
        o.proto == proto,
        o.props@.len() == 0,
        o.extensible,
        !o.frozen,
        !o.sealed,
{
    JsObject { props: Vec::new(), proto, kind, extensible: true, frozen: false, sealed: false }
}

/// A copy of a list of values.
pub fn copy_values(v: &Vec<JsValue>) -> (r: Vec<JsValue>)
    ensures
        r@.len() == v@.len(),
        forall|i: int| 0 <= i < v@.len() ==> same_value(#[trigger] r@[i], v@[i]),
{
    let mut out: Vec<JsValue> = Vec::new();
    let mut i: usize = 0;
    while i < v.len()
        invariant
            i <= v@.len(),
            out@.len() == i,
            forall|j: int| 0 <= j < i ==> same_value(#[trigger] out@[j], v@[j]),
        decreases v@.len() - i,
    {
        out.push(v[i].copy());
        i = i + 1;
    }
    out
}

/// The `i`-th argument, or `undefined`.
pub fn arg_at(args: &Vec<JsValue>, i: usize) -> (r: JsValue)
    ensures
        i < args@.len() ==> same_value(r, args@[i as int]),
        i >= args@.len() ==> r == JsValue::Undefined,
{
    if i < args.len() {
        args[i].copy()
    } else {
        JsValue::Undefined
    }
}

impl Interpreter {
    /// The heap never shrinks and the step budget never grows.
    pub open spec fn grows(&self, prev: &Interpreter) -> bool {
        &&& prev.heap@.len() <= self.heap@.len()
        &&& prev.scopes@.len() <= self.scopes@.len()
        &&& self.fuel <= prev.fuel
    }

    /// As `grows`, and a step was spent unless an error was raised.
    pub open spec fn spends(&self, prev: &Interpreter, errored: bool) -> bool {
        &&& self.grows(prev)
        &&& (errored || self.fuel < prev.fuel)
    }

    /// The elements of the array at `id`, if `id` names an array.
    pub open spec fn array_at(&self, id: usize) -> Option<Seq<JsValue>> {
        if id < self.heap@.len() {
            match self.heap@[id as int].kind {
                ObjectKind::Array(v) => Some(v@),
                _ => None,
            }
        } else {
            None
        }
    }

    /// Nothing but heap object `id` changed.
    pub open spec fn unchanged_but(&self, prev: &Interpreter, id: int) -> bool {
        &&& self.heap@.len() == prev.heap@.len()
        &&& forall|i: int| 0 <= i < prev.heap@.len() && i != id ==> #[trigger] self.heap@[i] == prev.heap@[i]
        &&& self.same_state(prev)
    }

    /// Everything but the heap is as in `prev`.
    pub open spec fn same_state(&self, prev: &Interpreter) -> bool {
        &&& self.scopes@ == prev.scopes@
        &&& self.same_registers(prev)
    }

    /// Everything but the heap and the scopes is as in `prev`.
    /// Everything is as in `prev` but the fuel, which did not grow.
    pub open spec fn same_but_fuel(&self, prev: &Interpreter) -> bool {
        &&& self.heap@ == prev.heap@
        &&& self.scopes@ == prev.scopes@
        &&& self.fuel <= prev.fuel
        &&& self.env == prev.env
        &&& self.this_val == prev.this_val
        &&& self.global == prev.global
        &&& self.object_prototype == prev.object_prototype
        &&& self.array_prototype == prev.array_prototype
        &&& self.string_prototype == prev.string_prototype
        &&& self.number_prototype == prev.number_prototype
        &&& self.boolean_prototype == prev.boolean_prototype
        &&& self.function_prototype == prev.function_prototype
        &&& self.error_prototype == prev.error_prototype
        &&& self.map_prototype == prev.map_prototype
        &&& self.date_prototype == prev.date_prototype
        &&& self.promise_prototype == prev.promise_prototype
        &&& self.console == prev.console
    }

    /// Every register but the fuel is as in `prev`.
    pub open spec fn same_registers_but_fuel(&self, prev: &Interpreter) -> bool {
        &&& self.env == prev.env
        &&& self.this_val == prev.this_val
        &&& self.global == prev.global
        &&& self.object_prototype == prev.object_prototype
        &&& self.array_prototype == prev.array_prototype
        &&& self.string_prototype == prev.string_prototype
        &&& self.number_prototype == prev.number_prototype
        &&& self.boolean_prototype == prev.boolean_prototype
        &&& self.function_prototype == prev.function_prototype
        &&& self.error_prototype == prev.error_prototype
        &&& self.map_prototype == prev.map_prototype
        &&& self.date_prototype == prev.date_prototype
        &&& self.promise_prototype == prev.promise_prototype
        &&& self.console == prev.console
    }

    /// Every register is as in `prev`, the fuel included.
    pub open spec fn same_registers(&self, prev: &Interpreter) -> bool {
        &&& self.fuel == prev.fuel
        &&& self.env == prev.env
        &&& self.this_val == prev.this_val
        &&& self.global == prev.global
        &&& self.object_prototype == prev.object_prototype
        &&& self.array_prototype == prev.array_prototype
        &&& self.string_prototype == prev.string_prototype
        &&& self.number_prototype == prev.number_prototype
        &&& self.boolean_prototype == prev.boolean_prototype
        &&& self.function_prototype == prev.function_prototype
        &&& self.error_prototype == prev.error_prototype
        &&& self.map_prototype == prev.map_prototype
        &&& self.date_prototype == prev.date_prototype
        &&& self.promise_prototype == prev.promise_prototype
        &&& self.console == prev.console
    }

    /// One object was added to the heap and nothing else changed.
    pub open spec fn added_one(&self, prev: &Interpreter) -> bool {
        &&& self.heap@.len() == prev.heap@.len() + 1
        &&& forall|i: int| 0 <= i < prev.heap@.len() ==> #[trigger] self.heap@[i] == prev.heap@[i]
        &&& self.same_state(prev)
    }

    /// Moves the elements out of array `id`, leaving it empty.
    pub fn take_elements(&mut self, id: usize) -> (r: Vec<JsValue>)
        requires
            old(self).array_at(id) is Some,
        ensures
            old(self).array_at(id) == Some(r@),
            final(self).array_at(id) == Some(Seq::<JsValue>::empty()),
            final(self).heap@[id as int].props == old(self).heap@[id as int].props,
            final(self).heap@[id as int].proto == old(self).heap@[id as int].proto,
            final(self).heap@[id as int].extensible == old(self).heap@[id as int].extensible,
            final(self).heap@[id as int].frozen == old(self).heap@[id as int].frozen,
            final(self).heap@[id as int].sealed == old(self).heap@[id as int].sealed,
            final(self).unchanged_but(old(self), id as int),
    {
        let mut k = ObjectKind::Array(Vec::new());
        std::mem::swap(&mut self.heap[id].kind, &mut k);
        match k {
            ObjectKind::Array(v) => v,
            _ => Vec::new(),
        }
    }

    /// Spends one step.
    pub fn step(&mut self) -> (r: Result<(), JsError>)
        ensures
            final(self).spends(old(self), r is Err),
            final(self).heap@ == old(self).heap@,
            final(self).scopes@ == old(self).scopes@,
            r is Ok ==> final(self).fuel == old(self).fuel - 1,
            r is Ok <==> old(self).fuel > 0,
            r is Err ==> r == Err::<(), JsError>(JsError::OutOfFuel),
            r is Err ==> *final(self) == *old(self),
            final(self).env == old(self).env,
            final(self).this_val == old(self).this_val,
            final(self).same_but_fuel(old(self)),
    {
        if self.fuel == 0 {
            return Err(JsError::OutOfFuel);
        }
        self.fuel = self.fuel - 1;
        Ok(())
    }

    /// Adds an object to the heap.
    pub fn allocate(&mut self, obj: JsObject) -> (id: usize)
        ensures
            id == old(self).heap@.len(),
            final(self).heap@ == old(self).heap@.push(obj),
            final(self).same_state(old(self)),
    {
        let id = self.heap.len();
        self.heap.push(obj);
        id
    }

    /// A new array holding `elements`.
    pub fn create_array(&mut self, elements: Vec<JsValue>) -> (id: usize)
        ensures
            id == old(self).heap@.len(),
            final(self).heap@.len() == old(self).heap@.len() + 1,
            forall|i: int| 0 <= i < old(self).heap@.len() ==> final(self).heap@[i] == old(self).heap@[i],
            final(self).array_at(id) == Some(elements@),
            final(self).heap@[id as int].proto == Some(old(self).array_prototype),
            final(self).same_state(old(self)),
    {
        let proto = self.array_prototype;
        self.allocate(new_object(ObjectKind::Array(elements), Some(proto)))
    }

    /// A new ordinary object whose prototype is `Object.prototype`.
    pub fn create_object(&mut self) -> (id: usize)
        ensures
            id == old(self).heap@.len(),
            final(self).heap@.len() == old(self).heap@.len() + 1,
            forall|i: int| 0 <= i < old(self).heap@.len() ==> final(self).heap@[i] == old(self).heap@[i],
            final(self).heap@[id as int].kind == ObjectKind::Ordinary,
            final(self).heap@[id as int].props@.len() == 0,
            final(self).heap@[id as int].proto == Some(old(self).object_prototype),
            final(self).same_state(old(self)),
    {
        let proto = self.object_prototype;
        self.allocate(new_object(ObjectKind::Ordinary, Some(proto)))
    }

    /// Creates or overwrites an own data property (no attribute checks).
    pub fn put_own(&mut self, obj: usize, key: Vec<char>, value: JsValue, enumerable: bool)
        ensures
            final(self).heap@.len() == old(self).heap@.len(),
            forall|i: int| 0 <= i < old(self).heap@.len() && i != obj ==> final(self).heap@[i] == old(self).heap@[i],
            obj < old(self).heap@.len() ==> final(self).heap@[obj as int].kind == old(self).heap@[obj as int].kind,
            obj < old(self).heap@.len() ==> final(self).heap@[obj as int].proto == old(self).heap@[obj as int].proto,
            obj < old(self).heap@.len() ==> final(self).heap@[obj as int].extensible == old(self).heap@[obj as int].extensible,
            obj < old(self).heap@.len() ==> lookup_prop(final(self).heap@[obj as int].props@, key@) == Some(value),
            obj < old(self).heap@.len() ==> forall|k: Seq<char>| k != key@ ==> #[trigger] lookup_prop(final(self).heap@[obj as int].props@, k)
                == lookup_prop(old(self).heap@[obj as int].props@, k),
            final(self).same_state(old(self)),
    {
        if obj >= self.heap.len() {
            return;
        }
        let ghost ps = self.heap@[obj as int].props@;
        match find_prop(&self.heap[obj].props, key.as_slice()) {
            Some(i) => {
                self.heap[obj].props[i].value = value;
                proof {
                    lemma_lookup_set_value(ps, i as int, value, key@);
                    assert(self.heap@[obj as int].props@ =~= ps.update(i as int, with_value(ps[i as int], value)));
                }
            },
            None => {
                let p = data_prop(key, value, enumerable);
                self.heap[obj].props.push(p);
                proof {
                    lemma_lookup_push(ps, p);
                }
            },
        }
    }

    /// A function object for a built-in.
    pub fn create_native(&mut self, id: NativeId, name: &str, arity: usize) -> (r: usize)
        ensures
            r == old(self).heap@.len(),
            final(self).heap@.len() == old(self).heap@.len() + 1,
            forall|i: int| 0 <= i < old(self).heap@.len() ==> final(self).heap@[i] == old(self).heap@[i],
            final(self).same_state(old(self)),
            final(self).heap@[r as int].kind == ObjectKind::Function(FunctionKind::Native(id)),
            final(self).heap@[r as int].proto == Some(old(self).function_prototype),
    {
        let proto = self.function_prototype;
        let f = self.allocate(new_object(ObjectKind::Function(FunctionKind::Native(id)), Some(proto)));
        self.put_own(f, chars_of("name"), JsValue::String(chars_of(name)), false);
        self.put_own(f, chars_of("length"), JsValue::from_usize(arity), false);
        f
    }

    /// Installs a built-in method on `obj` (not enumerable).
    pub fn register_method(&mut self, obj: usize, name: &str, id: NativeId, arity: usize)
        ensures
            final(self).heap@.len() == old(self).heap@.len() + 1,
            final(self).same_state(old(self)),
            forall|i: int| 0 <= i < old(self).heap@.len() && i != obj ==> #[trigger] final(self).heap@[i] == old(self).heap@[i],
            obj < old(self).heap@.len() ==> methods_added(
                old(self).heap@[obj as int],
                final(self).heap@[obj as int],
                seq![name@],
                old(self).heap@.len() as int,
            ),
    {
        let f = self.create_native(id, name, arity);
        let key = chars_of(name);
        let ghost mid = self.heap@;
        self.put_own(obj, key, JsValue::Object(f), false);
        proof {
            if obj < old(self).heap@.len() {
                assert(mid[obj as int] == old(self).heap@[obj as int]);
                let names = seq![name@];
                assert(names[0] == key@);
                assert forall|k: Seq<char>| !names.contains(k) implies #[trigger] lookup_prop(
                    self.heap@[obj as int].props@,
                    k,
                ) == lookup_prop(old(self).heap@[obj as int].props@, k) by {
                    if k == key@ {
                        assert(names[0] == k);
                    }
                }
            }
        }
    }

    /// Declares a variable in scope `scope`, replacing an existing binding of the same name.
    pub fn declare(&mut self, scope: usize, name: Vec<char>, value: JsValue, mutable: bool)
        ensures
            final(self).heap@ == old(self).heap@,
            final(self).same_registers(old(self)),
            scopes_declared(old(self).scopes@, final(self).scopes@, scope as int, name@, value, mutable),
            scope >= old(self).scopes@.len() ==> final(self).scopes@ == old(self).scopes@,
    {
        if scope >= self.scopes.len() {
            return;
        }
        let mut i: usize = 0;
        let n = self.scopes[scope].vars.len();
        while i < n
            invariant
                scope < self.scopes@.len(),
                n == self.scopes@[scope as int].vars@.len(),
                i <= n,
                self.heap@ == old(self).heap@,
                self.scopes@ == old(self).scopes@,
                self.same_registers(old(self)),
                forall|j: int| 0 <= j < i ==> self.scopes@[scope as int].vars@[j].name@ != name@,
            decreases n - i,
        {
            if chars_equal(self.scopes[scope].vars[i].name.as_slice(), name.as_slice()) {
                let ghost before = self.scopes@[scope as int].vars@;
                proof {
                    assert(first_binding_at(before, name@, i as int));
                    lemma_binding_index(before, name@, i as int);
                }
                self.scopes[scope].vars[i].value = value;
                self.scopes[scope].vars[i].mutable = mutable;
                assert(self.scopes@[scope as int].vars@ =~= before.update(
                    i as int,
                    Binding { name: before[i as int].name, value: value, mutable: mutable },
                ));
                return;
            }
            i = i + 1;
        }
        let ghost before = self.scopes@[scope as int].vars@;
        proof {
            lemma_binding_absent(before, name@);
        }
        self.scopes[scope].vars.push(Binding { name, value, mutable });
        assert(self.scopes@[scope as int].vars@.drop_last() =~= before);
    }

    /// Declares a global binding.
    pub fn define_global(&mut self, name: &str, value: JsValue)
        ensures
            final(self).heap@ == old(self).heap@,
            final(self).same_registers(old(self)),
            scopes_declared(old(self).scopes@, final(self).scopes@, 0, name@, value, true),
            global_set(old(self).scopes@, final(self).scopes@, name@, value),
    {
        self.declare(0, chars_of(name), value, true);
        proof {
            if self.scopes@.len() > 0 {
                lemma_declared_value(
                    old(self).scopes@[0].vars@,
                    self.scopes@[0].vars@,
                    name@,
                    value,
                    true,
                );
                assert forall|k: Seq<char>| k != name@ implies #[trigger] scope_value(self.scopes@, 0, k)
                    == scope_value(old(self).scopes@, 0, k) by {
                    lemma_declared_other(
                        old(self).scopes@[0].vars@,
                        self.scopes@[0].vars@,
                        name@,
                        value,
                        true,
                        k,
                    );
                }
            }
        }
    }

    /// A new scope under `parent`.
    pub fn push_scope(&mut self, parent: usize) -> (id: usize)
        ensures
            id == old(self).scopes@.len(),
            final(self).scopes@.len() == old(self).scopes@.len() + 1,
            final(self).heap@ == old(self).heap@,
            final(self).same_registers(old(self)),
    {
        let id = self.scopes.len();
        self.scopes.push(Scope { vars: Vec::new(), parent: Some(parent) });
        id
    }

    /// Finds the scope and index of the nearest binding of `name` from scope `start`.
    pub fn find_binding(&self, start: usize, name: &[char]) -> (r: Option<(usize, usize)>)
        ensures
            r matches Some((s, i)) ==> s < self.scopes@.len() && i < self.scopes@[s as int].vars@.len(),
            match resolve_binding(self.scopes@, start as int, name@, self.scopes@.len()) {
                Some((s, i)) => r matches Some((a, b)) && a == s && b == i,
                None => r is None,
            },
    {
        let mut cur = start;
        let mut steps: usize = 0;
        let limit = self.scopes.len();
        while steps < limit
            invariant
                limit == self.scopes@.len(),
                steps <= limit,
                resolve_binding(self.scopes@, start as int, name@, limit as nat) == resolve_binding(
                    self.scopes@,
                    cur as int,
                    name@,
                    (limit - steps) as nat,
                ),
            decreases limit - steps,
        {
            if cur >= self.scopes.len() {
                return None;
            }
            let vars = &self.scopes[cur].vars;
            let mut i: usize = 0;
            while i < vars.len()
                invariant
                    i <= vars@.len(),
                    cur < self.scopes@.len(),
                    *vars == self.scopes@[cur as int].vars,
                    forall|j: int| 0 <= j < i ==> vars@[j].name@ != name@,
                    limit == self.scopes@.len(),
                    steps < limit,
                    resolve_binding(self.scopes@, start as int, name@, limit as nat) == resolve_binding(
                        self.scopes@,
                        cur as int,
                        name@,
                        (limit - steps) as nat,
                    ),
                decreases vars@.len() - i,
            {
                if chars_equal(vars[i].name.as_slice(), name) {
                    proof {
                        assert(first_binding_at(vars@, name@, i as int));
                        lemma_binding_index(vars@, name@, i as int);
                        assert(resolve_binding(self.scopes@, cur as int, name@, (limit - steps) as nat)
                            == Some((cur as int, i as int)));
                    }
                    return Some((cur, i));
                }
                i = i + 1;
            }
            proof {
                lemma_binding_absent(vars@, name@);
            }
            match self.scopes[cur].parent {
                Some(p) => {
                    cur = p;
                },
                None => {
                    return None;
                },
            }
            steps = steps + 1;
        }
        None
    }

    /// The value of variable `name`.
    pub fn lookup_var(&self, name: &[char]) -> (r: Option<JsValue>)
        ensures
            match resolve_binding(self.scopes@, self.env as int, name@, self.scopes@.len()) {
                Some((s, i)) => r matches Some(v) && same_value(v, self.scopes@[s].vars@[i].value),
                None => r is None,
            },
    {
        match self.find_binding(self.env, name) {
            Some((s, i)) => Some(self.scopes[s].vars[i].value.copy()),
            None => None,
        }
    }

    /// Assigns to an existing variable (or creates a global one, as sloppy code does).
    pub fn assign_var(&mut self, name: &[char], value: JsValue) -> (r: Result<(), JsError>)
        ensures
            final(self).heap@ == old(self).heap@,
            final(self).scopes@.len() == old(self).scopes@.len(),
            final(self).same_registers(old(self)),
            match resolve_binding(old(self).scopes@, old(self).env as int, name@, old(self).scopes@.len()) {
                Some((s, i)) => if old(self).scopes@[s].vars@[i].mutable {
                    r is Ok && binding_assigned(old(self).scopes@, final(self).scopes@, s, i, value)
                } else {
                    raised_with(r, ErrorKind::TypeError, "Assignment to constant variable."@)
                        && final(self).scopes@ == old(self).scopes@
                },
                None => r is Ok && scopes_declared(old(self).scopes@, final(self).scopes@, 0, name@, value, true),
            },
    {
        match self.find_binding(self.env, name) {
            Some((s, i)) => {
                if !self.scopes[s].vars[i].mutable {
                    return Err(type_error("Assignment to constant variable."));
                }
                let ghost before = self.scopes@[s as int].vars@;
                self.scopes[s].vars[i].value = value;
                assert(self.scopes@[s as int].vars@ =~= before.update(
                    i as int,
                    Binding { name: before[i as int].name, value: value, mutable: true },
                ));
                Ok(())
            },
            None => {
                let mut n: Vec<char> = Vec::new();
                crate::number::append_chars(&mut n, name);
                assert(n@ =~= name@);
                self.declare(0, n, value, true);
                Ok(())
            },
        }
    }

    /// The own property `key` of object `obj`.
    pub fn get_own(&self, obj: usize, key: &[char]) -> (r: Option<JsValue>)
        ensures
            obj >= self.heap@.len() ==> r is None,
            obj < self.heap@.len() ==> (match lookup_prop(self.heap@[obj as int].props@, key@) {
                Some(v) => r matches Some(w) && same_value(w, v),
                None => r is None,
            }),
    {
        if obj >= self.heap.len() {
            return None;
        }
        match find_prop(&self.heap[obj].props, key) {
            Some(i) => Some(self.heap[obj].props[i].value.copy()),
            None => None,
        }
    }

    /// The value of property `key` of object `obj`, searching the prototype chain.
    pub fn get_property(&self, obj: usize, key: &PropertyKey) -> (r: JsValue)
        ensures
            chain_read(self.heap@, obj as int, *key, self.heap@.len(), r),
    {
        let mut cur = obj;
        let mut steps: usize = 0;
        let limit = self.heap.len();
        while steps < limit
            invariant
                limit == self.heap@.len(),
                steps <= limit,
                forall|v: JsValue| #[trigger] chain_read(self.heap@, obj as int, *key, limit as nat, v) == chain_read(
                    self.heap@,
                    cur as int,
                    *key,
                    (limit - steps) as nat,
                    v,
                ),
            decreases limit - steps,
        {
            if cur >= self.heap.len() {
                return JsValue::Undefined;
            }
            let o = &self.heap[cur];
            match key {
                PropertyKey::Index(i) => {
                    match &o.kind {
                        ObjectKind::Array(elems) => {
                            if *i < elems.len() {
                                return elems[*i].copy();
                            }
                        },
                        ObjectKind::StringBox(s) => {
                            if *i < s.len() {
                                let mut c: Vec<char> = Vec::new();
                                c.push(s[*i]);
                                return JsValue::String(c);
                            }
                        },
                        _ => {},
                    }
                    let name = crate::number::u64_to_dec(*i as u64);
                    match find_prop(&o.props, name.as_slice()) {
                        Some(p) => {
                            return o.props[p].value.copy();
                        },
                        None => {},
                    }
                },
                PropertyKey::Name(n) => {
                    match &o.kind {
                        ObjectKind::Array(elems) => {
                            if crate::parser::text_is(n, "length") {
                                return JsValue::from_usize(elems.len());
                            }
                        },
                        ObjectKind::StringBox(s) => {
                            if crate::parser::text_is(n, "length") {
                                return JsValue::from_usize(s.len());
                            }
                        },
                        ObjectKind::MapData(t) => {
                            if crate::parser::text_is(n, "size") {
                                return JsValue::from_usize(crate::table::table_len(t));
                            }
                        },
                        _ => {},
                    }
                    match find_prop(&o.props, n.as_slice()) {
                        Some(p) => {
                            return o.props[p].value.copy();
                        },
                        None => {},
                    }
                },
            }
            match o.proto {
                Some(p) => {
                    cur = p;
                },
                None => {
                    return JsValue::Undefined;
                },
            }
            steps = steps + 1;
        }
        JsValue::Undefined
    }

    /// `obj` has an own property `key`: an element of an array or of a string wrapper,
    /// an array's `length`, or a property in its list.
    pub open spec fn has_own_spec(&self, obj: int, key: PropertyKey) -> bool {
        &&& 0 <= obj < self.heap@.len()
        &&& match key {
            PropertyKey::Index(i) => {
                ||| self.heap@[obj].kind matches ObjectKind::Array(e) && i < e@.len()
                ||| self.heap@[obj].kind matches ObjectKind::StringBox(t) && i < t@.len()
                ||| lookup_prop(self.heap@[obj].props@, crate::number::dec_digits(i as nat)) is Some
            },
            PropertyKey::Name(n) => {
                ||| self.heap@[obj].kind is Array && n@ == "length"@
                ||| lookup_prop(self.heap@[obj].props@, n@) is Some
            },
        }
    }

    /// The object has an own property `key`.
    pub fn has_own_property(&self, obj: usize, key: &PropertyKey) -> (r: bool)
        ensures
            r == self.has_own_spec(obj as int, *key),
    {
        if obj >= self.heap.len() {
            return false;
        }
        let o = &self.heap[obj];
        match key {
            PropertyKey::Index(i) => {
                match &o.kind {
                    ObjectKind::Array(elems) => {
                        if *i < elems.len() {
                            return true;
                        }
                    },
                    ObjectKind::StringBox(s) => {
                        if *i < s.len() {
                            return true;
                        }
                    },
                    _ => {},
                }
                let name = crate::number::u64_to_dec(*i as u64);
                find_prop(&o.props, name.as_slice()).is_some()
            },
            PropertyKey::Name(n) => {
                match &o.kind {
                    ObjectKind::Array(_) => {
                        if crate::parser::text_is(n, "length") {
                            return true;
                        }
                    },
                    _ => {},
                }
                find_prop(&o.props, n.as_slice()).is_some()
            },
        }
    }

    /// Writes property `key` of object `obj` (frozen or non-writable properties and
    /// non-extensible objects ignore the write).
    pub fn set_property(&mut self, obj: usize, key: PropertyKey, value: JsValue)
        ensures
            final(self).heap@.len() == old(self).heap@.len(),
            obj >= old(self).heap@.len() ==> final(self).heap@ == old(self).heap@,
            forall|k: int| 0 <= k < old(self).heap@.len() && k != obj ==> #[trigger] final(self).heap@[k] == old(self).heap@[k],
            obj < old(self).heap@.len() ==> match key {
                PropertyKey::Index(i) => index_written(old(self).heap@[obj as int], final(self).heap@[obj as int], i as int, value),
                PropertyKey::Name(n) => if n@ == "length"@ && old(self).heap@[obj as int].kind is Array {
                    length_written(old(self).heap@[obj as int], final(self).heap@[obj as int], value)
                } else {
                    named_written(old(self).heap@[obj as int], final(self).heap@[obj as int], n@, value)
                },
            },
            final(self).scopes@ == old(self).scopes@,
            final(self).fuel == old(self).fuel,
            final(self).env == old(self).env,
            final(self).this_val == old(self).this_val,
            final(self).array_prototype == old(self).array_prototype,
    {
        if obj >= self.heap.len() {
            return;
        }
        let frozen_array = !self.heap[obj].extensible;
        let ghost before = self.heap@[obj as int];
        match key {
            PropertyKey::Index(i) => {
                let mut handled = false;
                if let ObjectKind::Array(elems) = &mut self.heap[obj].kind {
                    let ghost e = elems@;
                    if frozen_array {
                        handled = true;
                    } else if i < elems.len() {
                        elems.set(i, value.copy());
                        handled = true;
                    } else if i - elems.len() <= MAX_ARRAY_GROWTH {
                        while elems.len() < i
                            invariant
                                e.len() <= elems@.len() <= i,
                                elems@.subrange(0, e.len() as int) == e,
                                forall|k: int| e.len() <= k < elems@.len() ==> #[trigger] elems@[k] == JsValue::Undefined,
                            decreases i - elems@.len(),
                        {
                            elems.push(JsValue::Undefined);
                            assert(elems@.subrange(0, e.len() as int) =~= e);
                        }
                        let ghost mid = elems@;
                        elems.push(value.copy());
                        assert(elems@.drop_last() =~= mid);
                        handled = true;
                    }
                }
                if !handled {
                    let name = crate::number::u64_to_dec(i as u64);
                    self.set_named(obj, name, value);
                }
            },
            PropertyKey::Name(n) => {
                let mut handled = false;
                if crate::parser::text_is(&n, "length") {
                    if let ObjectKind::Array(elems) = &mut self.heap[obj].kind {
                        let ghost e = elems@;
                        handled = true;
                        if !frozen_array {
                            if let JsValue::Number(x) = value {
                                if x.check_wf() && x.is_integer() && !x.is_negative() {
                                    let target = x.to_integer_clamped();
                                    if target >= 0 && (target as u64) <= elems.len() as u64 {
                                        elems.truncate(target as usize);
                                    } else if target >= 0 && (target as u64) - (elems.len() as u64)
                                        <= MAX_ARRAY_GROWTH as u64 {
                                        let extra = ((target as u64) - (elems.len() as u64)) as usize;
                                        let mut k: usize = 0;
                                        while k < extra
                                            invariant
                                                k <= extra,
                                                elems@.len() == e.len() + k,
                                                elems@.subrange(0, e.len() as int) == e,
                                                forall|j: int| e.len() <= j < elems@.len() ==> #[trigger] elems@[j] == JsValue::Undefined,
                                            decreases extra - k,
                                        {
                                            elems.push(JsValue::Undefined);
                                            assert(elems@.subrange(0, e.len() as int) =~= e);
                                            k = k + 1;
                                        }
                                    } else {
                                        assert(e.subrange(0, e.len() as int) =~= e);
                                    }
                                } else {
                                    assert(e.subrange(0, e.len() as int) =~= e);
                                }
                            }
                        }
                    }
                }
                if !handled {
                    self.set_named(obj, n, value);
                }
            },
        }
    }

    /// Writes a named property, respecting attributes and extensibility.
    fn set_named(&mut self, obj: usize, key: Vec<char>, value: JsValue)
        ensures
            final(self).heap@.len() == old(self).heap@.len(),
            obj >= old(self).heap@.len() ==> final(self).heap@ == old(self).heap@,
            obj < old(self).heap@.len() ==> named_written(
                old(self).heap@[obj as int],
                final(self).heap@[obj as int],
                key@,
                value,
            ),
            forall|k: int| 0 <= k < old(self).heap@.len() && k != obj ==> #[trigger] final(self).heap@[k] == old(self).heap@[k],
            final(self).scopes@ == old(self).scopes@,
            final(self).fuel == old(self).fuel,
            final(self).env == old(self).env,
            final(self).this_val == old(self).this_val,
            final(self).array_prototype == old(self).array_prototype,
    {
        if obj >= self.heap.len() {
            return;
        }
        let ghost before = self.heap@[obj as int];
        match find_prop(&self.heap[obj].props, key.as_slice()) {
            Some(i) => {
                proof {
                    assert(first_prop_at(before.props@, key@, i as int));
                    let k = choose|k: int| first_prop_at(before.props@, key@, k);
                    assert(first_prop_at(before.props@, key@, k));
                    if k < i {
                        assert(before.props@[k].key@ != key@);
                    } else if i < k {
                        assert(before.props@[i as int].key@ != key@);
                    }
                }
                if self.heap[obj].props[i].writable {
                    self.heap[obj].props[i].value = value;
                    assert(self.heap@[obj as int].props@ =~= before.props@.update(
                        i as int,
                        Property {
                            key: before.props@[i as int].key,
                            value: value,
                            writable: true,
                            enumerable: before.props@[i as int].enumerable,
                            configurable: before.props@[i as int].configurable,
                        },
                    ));
                }
            },
            None => {
                if self.heap[obj].extensible {
                    self.heap[obj].props.push(data_prop(key, value, true));
                    assert(self.heap@[obj as int].props@.drop_last() =~= before.props@);
                }
            },
        }
    }

    /// `v` is a function object.
    pub open spec fn is_function(&self, v: JsValue) -> bool {
        v matches JsValue::Object(id) && id < self.heap@.len() && self.heap@[id as int].kind is Function
    }

    /// The object is callable.
    pub fn is_callable(&self, v: &JsValue) -> (b: bool)
        ensures
            b == self.is_function(*v),
    {
        match v {
            JsValue::Object(id) => {
                if *id < self.heap.len() {
                    match &self.heap[*id].kind {
                        ObjectKind::Function(_) => true,
                        _ => false,
                    }
                } else {
                    false
                }
            },
            _ => false,
        }
    }

    /// The object is an array.
    pub fn is_array(&self, v: &JsValue) -> (b: bool)
        ensures
            b == (*v matches JsValue::Object(id) && self.array_at(id) is Some),
    {
        match v {
            JsValue::Object(id) => {
                if *id < self.heap.len() {
                    match &self.heap[*id].kind {
                        ObjectKind::Array(_) => true,
                        _ => false,
                    }
                } else {
                    false
                }
            },
            _ => false,
        }
    }

    /// A copy of the elements of the array `v`, if it is one.
    pub fn array_elements(&self, v: &JsValue) -> (r: Option<Vec<JsValue>>)
        ensures
            r matches Some(e) ==> (*v matches JsValue::Object(id) && self.array_at(id) matches Some(
                s,
            ) && e@.len() == s.len() && forall|i: int| 0 <= i < s.len() ==> same_value(
                #[trigger] e@[i],
                s[i],
            )),
            r is None ==> !(*v matches JsValue::Object(id) && self.array_at(id) is Some),
    {
        match v {
            JsValue::Object(id) => {
                if *id < self.heap.len() {
                    match &self.heap[*id].kind {
                        ObjectKind::Array(elems) => Some(copy_values(elems)),
                        _ => None,
                    }
                } else {
                    None
                }
            },
            _ => None,
        }
    }

    /// Replaces the elements of array `id`.
    pub fn set_array_elements(&mut self, id: usize, elems: Vec<JsValue>)
        requires
            old(self).array_at(id) is Some,
        ensures
            final(self).array_at(id) == Some(elems@),
            final(self).heap@[id as int].props == old(self).heap@[id as int].props,
            final(self).heap@[id as int].proto == old(self).heap@[id as int].proto,
            final(self).heap@[id as int].extensible == old(self).heap@[id as int].extensible,
            final(self).heap@[id as int].frozen == old(self).heap@[id as int].frozen,
            final(self).heap@[id as int].sealed == old(self).heap@[id as int].sealed,
            final(self).unchanged_but(old(self), id as int),
    {
        self.heap[id].kind = ObjectKind::Array(elems);
    }

    /// The `typeof` text of a value.
    pub open spec fn typeof_text(&self, v: JsValue) -> Seq<char> {
        match v {
            JsValue::Undefined => "undefined"@,
            JsValue::Null => "object"@,
            JsValue::Boolean(_) => "boolean"@,
            JsValue::Number(_) => "number"@,
            JsValue::String(_) => "string"@,
            JsValue::Object(_) => if self.is_function(v) {
                "function"@
            } else {
                "object"@
            },
        }
    }

    /// `typeof`.
    pub fn type_of(&self, v: &JsValue) -> (r: Vec<char>)
        ensures
            r@ == self.typeof_text(*v),
    {
        match v {
            JsValue::Undefined => chars_of("undefined"),
            JsValue::Null => chars_of("object"),
            JsValue::Boolean(_) => chars_of("boolean"),
            JsValue::Number(_) => chars_of("number"),
            JsValue::String(_) => chars_of("string"),
            JsValue::Object(_) => if self.is_callable(v) {
                chars_of("function")
            } else {
                chars_of("object")
            },
        }
    }

    /// Converts a value to a property key.
    pub fn key_of_primitive(&self, v: &JsValue) -> (r: PropertyKey)
        ensures
            (match *v {
                JsValue::Number(n) => n.is_small_int() && n.int_value() >= 0 ==> r
                    == PropertyKey::Index(n.int_value() as usize),
                _ => true,
            }),
    {
        match v {
            JsValue::Number(n) => {
                match *n {
                    JsNumber::Finite { neg, mant, exp } => {
                        if exp == 0 && (!neg || mant == 0) {
                            return PropertyKey::Index(mant as usize);
                        }
                    },
                    _ => {},
                }
                if n.check_wf() {
                    PropertyKey::Name(n.to_js_string())
                } else {
                    PropertyKey::Name(chars_of("NaN"))
                }
            },
            JsValue::String(s) => match key_to_index(s.as_slice()) {
                Some(i) => PropertyKey::Index(i),
                None => PropertyKey::Name(copy_chars(s)),
            },
            JsValue::Undefined => PropertyKey::Name(chars_of("undefined")),
            JsValue::Null => PropertyKey::Name(chars_of("null")),
            JsValue::Boolean(b) => PropertyKey::Name(
                if *b {
                    chars_of("true")
                } else {
                    chars_of("false")
                },
            ),
            JsValue::Object(_) => PropertyKey::Name(chars_of("[object Object]")),
        }
    }

    /// `ToNumber` on primitives; objects are converted through their text.
    pub fn to_number_primitive(&self, v: &JsValue) -> (r: JsNumber)
        ensures
            r.wf(),
            (match *v {
                JsValue::Number(n) => n.wf() ==> r == n,
                JsValue::Undefined => r is NaN,
                JsValue::Null => r == spec_int(0),
                JsValue::Boolean(b) => r == spec_int(if b { 1 } else { 0 }),
                JsValue::String(t) => crate::number::is_digit_text(t@) ==> r == spec_int(crate::number::digits_value(t@) as int),
                _ => true,
            }),
    {
        match v {
            JsValue::Undefined => JsNumber::NaN,
            JsValue::Null => JsNumber::zero(),
            JsValue::Boolean(b) => if *b {
                JsNumber::from_u64(1)
            } else {
                JsNumber::zero()
            },
            JsValue::Number(n) => if n.check_wf() {
                *n
            } else {
                JsNumber::NaN
            },
            JsValue::String(s) => string_to_number(s.as_slice()),
            JsValue::Object(_) => JsNumber::NaN,
        }
    }
}

} // verus!
