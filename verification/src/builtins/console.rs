//! `console`.
use crate::interpreter::{global_set, ConsoleLevel, ConsoleState, Interpreter};
use crate::number::{append_chars, chars_of, dec_digits, int_to_dec, u64_to_dec, JsNumber};
use crate::value::{copy_chars, JsError, JsValue, NativeId, ObjectKind};
use vstd::prelude::*;

verus! {

/// Nesting depth below which objects are shown in full.
pub const MAX_DEPTH: usize = 10;

/// Elements or properties shown of one object.
pub const MAX_ITEMS: usize = 100;

/// How `console` shows a primitive value, where it is known without the heap.
pub open spec fn shown_plain(v: JsValue) -> Option<Seq<char>> {
    match v {
        JsValue::Undefined => Some("undefined"@),
        JsValue::Null => Some("null"@),
        JsValue::Boolean(b) => Some(if b { "true"@ } else { "false"@ }),
        JsValue::String(s) => Some(s@),
        JsValue::Number(n) => if n.wf() && n.is_small_int() {
            Some(int_to_dec(n.int_value()))
        } else if n is NaN {
            Some("NaN"@)
        } else {
            None
        },
        JsValue::Object(_) => None,
    }
}

/// The shown texts of `args` joined with spaces, where all are known.
pub open spec fn shown_args(args: Seq<JsValue>) -> Option<Seq<char>>
    decreases args.len(),
{
    if args.len() == 0 {
        Some(Seq::empty())
    } else if args.len() == 1 {
        shown_plain(args[0])
    } else {
        match (shown_args(args.drop_last()), shown_plain(args.last())) {
            (Some(a), Some(b)) => Some(a + " "@ + b),
            _ => None,
        }
    }
}

/// The shown texts of `items` joined with `", "`, where all are known.
pub open spec fn shown_items(items: Seq<JsValue>) -> Option<Seq<char>>
    decreases items.len(),
{
    if items.len() == 0 {
        Some(Seq::empty())
    } else if items.len() == 1 {
        shown_plain(items[0])
    } else {
        match (shown_items(items.drop_last()), shown_plain(items.last())) {
            (Some(a), Some(b)) => Some(a + ", "@ + b),
            _ => None,
        }
    }
}

/// How `console` shows an object of the given kind with `n_props` own properties, where
/// that is known without looking further into the heap: an array of at most `MAX_ITEMS`
/// primitives, a wrapped primitive, or an object of no other special kind with no
/// properties.
pub open spec fn shown_object(kind: ObjectKind, n_props: nat) -> Option<Seq<char>> {
    match kind {
        ObjectKind::Array(elems) => if elems@.len() <= MAX_ITEMS {
            match shown_items(elems@) {
                Some(t) => Some("["@ + t + "]"@),
                None => None,
            }
        } else {
            None
        },
        ObjectKind::BooleanBox(b) => Some(if b { "[Boolean: true]"@ } else { "[Boolean: false]"@ }),
        ObjectKind::NumberBox(n) => match shown_plain(JsValue::Number(n)) {
            Some(t) => Some("[Number: "@ + t + "]"@),
            None => None,
        },
        ObjectKind::StringBox(s) => Some("[String: \""@ + s@ + "\"]"@),
        ObjectKind::Function(_) => None,
        ObjectKind::MapData(_) => None,
        _ => if n_props == 0 { Some("{}"@) } else { None },
    }
}

/// Two spaces per open group.
pub open spec fn indent(depth: nat) -> Seq<char>
    decreases depth,
{
    if depth == 0 {
        Seq::empty()
    } else {
        indent((depth - 1) as nat) + "  "@
    }
}

/// Appends `x` to `out` and then `y`, a short join helper.
fn push_text(out: &mut Vec<char>, s: &str)
    ensures
        final(out)@ == old(out)@ + s@,
{
    let t = chars_of(s);
    append_chars(out, t.as_slice());
}

/// The number as `console` shows it.
fn show_number(n: &JsNumber) -> (r: Vec<char>)
    ensures
        n.wf() && n.is_small_int() ==> r@ == int_to_dec(n.int_value()),
        *n is NaN ==> r@ == "NaN"@,
{
    proof {
        reveal_strlit("NaN");
    }
    if n.check_wf() {
        n.to_js_string()
    } else {
        chars_of("NaN")
    }
}

/// How `console` shows a value: primitives as text, objects with their contents down to
/// `MAX_DEPTH` levels; `[Circular]` for an object already being shown.
pub fn format_for_console(interp: &Interpreter, v: &JsValue, depth: usize, seen: &mut Vec<usize>) -> (r: Vec<char>)
    ensures
        shown_plain(*v) matches Some(t) ==> r@ == t,
        *v matches JsValue::Object(id) ==> (!old(seen)@.contains(id) && id < interp.heap@.len() && depth < MAX_DEPTH ==> (
            shown_object(interp.heap@[id as int].kind, interp.heap@[id as int].props@.len()) matches Some(t) ==> r@ == t)),
        *v matches JsValue::Object(id) && old(seen)@.contains(id) ==> r@ == "[Circular]"@,
    decreases MAX_DEPTH - depth,
{
    match v {
        JsValue::Undefined => chars_of("undefined"),
        JsValue::Null => chars_of("null"),
        JsValue::Boolean(b) => if *b {
            chars_of("true")
        } else {
            chars_of("false")
        },
        JsValue::Number(n) => show_number(n),
        JsValue::String(s) => copy_chars(s),
        JsValue::Object(id) => {
            let id = *id;
            let mut k: usize = 0;
            while k < seen.len()
                invariant
                    k <= seen@.len(),
                    *v == JsValue::Object(id),
                    seen@ == old(seen)@,
                    forall|j: int| 0 <= j < k ==> seen@[j] != id,
                decreases seen@.len() - k,
            {
                if seen[k] == id {
                    assert(seen@[k as int] == id);
                    return chars_of("[Circular]");
                }
                k = k + 1;
            }
            if id >= interp.heap.len() {
                return chars_of("undefined");
            }
            if depth >= MAX_DEPTH {
                return match &interp.heap[id].kind {
                    ObjectKind::Array(e) => {
                        let mut out = chars_of("[Array(");
                        let n = u64_to_dec(e.len() as u64);
                        append_chars(&mut out, n.as_slice());
                        push_text(&mut out, ")]");
                        out
                    },
                    ObjectKind::Function(_) => chars_of("[Function]"),
                    _ => chars_of("{...}"),
                };
            }
            seen.push(id);
            let r = format_object(interp, id, depth, seen);
            seen.pop();
            r
        },
    }
}

/// The contents of object `id` as `console` shows them.
fn format_object(interp: &Interpreter, id: usize, depth: usize, seen: &mut Vec<usize>) -> (r: Vec<char>)
    requires
        id < interp.heap@.len(),
        depth < MAX_DEPTH,
    ensures
        shown_object(interp.heap@[id as int].kind, interp.heap@[id as int].props@.len()) matches Some(t) ==> r@ == t,
    decreases MAX_DEPTH - depth, 0usize,
{
    let obj = &interp.heap[id];
    match &obj.kind {
        ObjectKind::Array(elems) => {
            let mut out = chars_of("[");
            let n = elems.len();
            let shown = if n < MAX_ITEMS {
                n
            } else {
                MAX_ITEMS
            };
            let mut i: usize = 0;
            proof {
                assert(elems@.take(0) =~= Seq::<JsValue>::empty());
                assert(out@ =~= "["@ + Seq::<char>::empty());
            }
            while i < shown
                invariant
                    shown <= elems@.len(),
                    depth < MAX_DEPTH,
                    i <= shown,
                    shown_items(elems@.take(i as int)) matches Some(t) ==> out@ == "["@ + t,
                decreases shown - i,
            {
                if i > 0 {
                    push_text(&mut out, ", ");
                }
                let t = format_for_console(interp, &elems[i], depth + 1, seen);
                append_chars(&mut out, t.as_slice());
                proof {
                    let s1 = elems@.take(i + 1);
                    if i > 0 {
                        assert(s1.drop_last() =~= elems@.take(i as int));
                    }
                    assert(s1.last() == elems@[i as int]);
                    if shown_items(s1) is Some {
                        assert(out@ =~= "["@ + shown_items(s1).unwrap());
                    }
                }
                i = i + 1;
            }
            proof {
                if n <= MAX_ITEMS {
                    assert(elems@.take(shown as int) =~= elems@);
                }
            }
            if n > MAX_ITEMS {
                push_text(&mut out, ", ... ");
                let more = u64_to_dec((n - MAX_ITEMS) as u64);
                append_chars(&mut out, more.as_slice());
                push_text(&mut out, " more items");
            }
            push_text(&mut out, "]");
            proof {
                if n <= MAX_ITEMS && shown_items(elems@) is Some {
                    assert(out@ =~= "["@ + shown_items(elems@).unwrap() + "]"@);
                }
            }
            out
        },
        ObjectKind::Function(_) => {
            let mut out = chars_of("[Function: ");
            match interp.get_own(id, chars_of("name").as_slice()) {
                Some(JsValue::String(s)) => {
                    if s.len() > 0 {
                        append_chars(&mut out, s.as_slice());
                    } else {
                        push_text(&mut out, "anonymous");
                    }
                },
                _ => push_text(&mut out, "anonymous"),
            }
            push_text(&mut out, "]");
            out
        },
        ObjectKind::MapData(t) => {
            let entries = crate::table::table_copy(t);
            let mut out = chars_of("Map(");
            let n = u64_to_dec(entries.len() as u64);
            append_chars(&mut out, n.as_slice());
            push_text(&mut out, "){");
            let shown = if entries.len() < MAX_ITEMS {
                entries.len()
            } else {
                MAX_ITEMS
            };
            let mut i: usize = 0;
            while i < shown
                invariant
                    shown <= entries@.len(),
                    depth < MAX_DEPTH,
                decreases shown - i,
            {
                push_text(&mut out, if i > 0 {
                    ", "
                } else {
                    " "
                });
                let kt = format_for_console(interp, &entries[i].0, depth + 1, seen);
                append_chars(&mut out, kt.as_slice());
                push_text(&mut out, " => ");
                let vt = format_for_console(interp, &entries[i].1, depth + 1, seen);
                append_chars(&mut out, vt.as_slice());
                i = i + 1;
            }
            if shown > 0 {
                push_text(&mut out, " ");
            }
            push_text(&mut out, "}");
            out
        },
        ObjectKind::BooleanBox(b) => if *b {
            chars_of("[Boolean: true]")
        } else {
            chars_of("[Boolean: false]")
        },
        ObjectKind::NumberBox(n) => {
            let mut out = chars_of("[Number: ");
            let t = show_number(n);
            append_chars(&mut out, t.as_slice());
            push_text(&mut out, "]");
            out
        },
        ObjectKind::StringBox(s) => {
            let mut out = chars_of("[String: \"");
            append_chars(&mut out, s.as_slice());
            push_text(&mut out, "\"]");
            out
        },
        _ => {
            let props = &obj.props;
            if props.len() == 0 {
                return chars_of("{}");
            }
            let mut out = chars_of("{ ");
            let shown = if props.len() < MAX_ITEMS {
                props.len()
            } else {
                MAX_ITEMS
            };
            let mut i: usize = 0;
            while i < shown
                invariant
                    shown <= props@.len(),
                    depth < MAX_DEPTH,
                decreases shown - i,
            {
                if i > 0 {
                    push_text(&mut out, ", ");
                }
                append_chars(&mut out, props[i].key.as_slice());
                push_text(&mut out, ": ");
                let vt = format_for_console(interp, &props[i].value, depth + 1, seen);
                append_chars(&mut out, vt.as_slice());
                i = i + 1;
            }
            if props.len() > MAX_ITEMS {
                push_text(&mut out, ", ... ");
                let more = u64_to_dec((props.len() - MAX_ITEMS) as u64);
                append_chars(&mut out, more.as_slice());
                push_text(&mut out, " more properties");
            }
            push_text(&mut out, " }");
            out
        },
    }
}

/// The line `console.log(...args)` writes: the shown values separated by spaces.
pub fn console_line(interp: &Interpreter, args: &Vec<JsValue>) -> (r: Vec<char>)
    ensures
        shown_args(args@) matches Some(t) ==> r@ == indent(interp.console.group_depth as nat) + t,
{
    let mut out: Vec<char> = Vec::new();
    let mut g: usize = 0;
    while g < interp.console.group_depth
        invariant
            g <= interp.console.group_depth,
            out@ == indent(g as nat),
        decreases interp.console.group_depth - g,
    {
        push_text(&mut out, "  ");
        g = g + 1;
    }
    let ghost ind = out@;
    let mut i: usize = 0;
    while i < args.len()
        invariant
            i <= args@.len(),
            ind == indent(interp.console.group_depth as nat),
            shown_args(args@.take(i as int)) matches Some(t) ==> out@ == ind + t,
        decreases args@.len() - i,
    {
        let ghost before = out@;
        if i > 0 {
            push_text(&mut out, " ");
        }
        let mut seen: Vec<usize> = Vec::new();
        let t = format_for_console(interp, &args[i], 0, &mut seen);
        append_chars(&mut out, t.as_slice());
        proof {
            let p = args@.take(i + 1);
            assert(p.drop_last() =~= args@.take(i as int));
            assert(p.last() == args@[i as int]);
            if i == 0 {
                assert(p =~= seq![args@[0]]);
            }
            if let Some(t2) = shown_args(p) {
                if i == 0 {
                    assert(out@ =~= ind + t2);
                } else {
                    assert(out@ =~= ind + t2);
                }
            }
        }
        i = i + 1;
    }
    proof {
        assert(args@.take(args@.len() as int) =~= args@);
    }
    out
}

/// Appends a line at `level`.
fn write_line(interp: &mut Interpreter, level: ConsoleLevel, text: Vec<char>)
    ensures
        final(interp).console.lines@ == old(interp).console.lines@.push((level, text)),
        final(interp).console.group_depth == old(interp).console.group_depth,
        final(interp).console.counters == old(interp).console.counters,
        final(interp).console.timers == old(interp).console.timers,
        final(interp).heap == old(interp).heap,
        final(interp).scopes == old(interp).scopes,
        final(interp).fuel == old(interp).fuel,
{
    interp.console.lines.push((level, text));
}

/// The console methods that write their arguments as one line.
fn log_at(interp: &mut Interpreter, level: ConsoleLevel, args: Vec<JsValue>) -> (r: Result<JsValue, JsError>)
    ensures
        r == Ok::<JsValue, JsError>(JsValue::Undefined),
        final(interp).console.lines@.len() == old(interp).console.lines@.len() + 1,
        final(interp).console.lines@.last().0 == level,
        shown_args(args@) matches Some(t) ==> final(interp).console.lines@.last().1@ == indent(
            old(interp).console.group_depth as nat,
        ) + t,
        final(interp).heap == old(interp).heap,
        final(interp).scopes == old(interp).scopes,
        final(interp).fuel == old(interp).fuel,
        final(interp).console.group_depth == old(interp).console.group_depth,
{
    let line = console_line(interp, &args);
    write_line(interp, level, line);
    Ok(JsValue::Undefined)
}

/// `console.log(...values)`: writes the values as one line.
pub fn console_log(interp: &mut Interpreter, this: JsValue, args: Vec<JsValue>) -> (r: Result<JsValue, JsError>)
    ensures
        r == Ok::<JsValue, JsError>(JsValue::Undefined),
        final(interp).console.lines@.len() == old(interp).console.lines@.len() + 1,
        final(interp).console.lines@.last().0 == ConsoleLevel::Log,
        shown_args(args@) matches Some(t) ==> final(interp).console.lines@.last().1@ == indent(
            old(interp).console.group_depth as nat,
        ) + t,
        final(interp).heap == old(interp).heap,
        final(interp).scopes == old(interp).scopes,
        final(interp).fuel == old(interp).fuel,
{
    log_at(interp, ConsoleLevel::Log, args)
}

/// `console.error(...values)`.
pub fn console_error(interp: &mut Interpreter, this: JsValue, args: Vec<JsValue>) -> (r: Result<JsValue, JsError>)
    ensures
        r == Ok::<JsValue, JsError>(JsValue::Undefined),
        final(interp).console.lines@.len() == old(interp).console.lines@.len() + 1,
        final(interp).console.lines@.last().0 == ConsoleLevel::Error,
        shown_args(args@) matches Some(t) ==> final(interp).console.lines@.last().1@ == indent(
            old(interp).console.group_depth as nat,
        ) + t,
        final(interp).heap == old(interp).heap,
        final(interp).scopes == old(interp).scopes,
        final(interp).fuel == old(interp).fuel,
{
    log_at(interp, ConsoleLevel::Error, args)
}

/// `console.warn(...values)`.
pub fn console_warn(interp: &mut Interpreter, this: JsValue, args: Vec<JsValue>) -> (r: Result<JsValue, JsError>)
    ensures
        r == Ok::<JsValue, JsError>(JsValue::Undefined),
        final(interp).console.lines@.len() == old(interp).console.lines@.len() + 1,
        final(interp).console.lines@.last().0 == ConsoleLevel::Warn,
        shown_args(args@) matches Some(t) ==> final(interp).console.lines@.last().1@ == indent(
            old(interp).console.group_depth as nat,
        ) + t,
        final(interp).heap == old(interp).heap,
        final(interp).scopes == old(interp).scopes,
        final(interp).fuel == old(interp).fuel,
{
    log_at(interp, ConsoleLevel::Warn, args)
}

/// `console.info(...values)`.
pub fn console_info(interp: &mut Interpreter, this: JsValue, args: Vec<JsValue>) -> (r: Result<JsValue, JsError>)
    ensures
        r == Ok::<JsValue, JsError>(JsValue::Undefined),
        final(interp).console.lines@.len() == old(interp).console.lines@.len() + 1,
        final(interp).console.lines@.last().0 == ConsoleLevel::Info,
        shown_args(args@) matches Some(t) ==> final(interp).console.lines@.last().1@ == indent(
            old(interp).console.group_depth as nat,
        ) + t,
        final(interp).heap == old(interp).heap,
        final(interp).scopes == old(interp).scopes,
        final(interp).fuel == old(interp).fuel,
{
    log_at(interp, ConsoleLevel::Info, args)
}

/// `console.debug(...values)`.
pub fn console_debug(interp: &mut Interpreter, this: JsValue, args: Vec<JsValue>) -> (r: Result<JsValue, JsError>)
    ensures
        r == Ok::<JsValue, JsError>(JsValue::Undefined),
        final(interp).console.lines@.len() == old(interp).console.lines@.len() + 1,
        final(interp).console.lines@.last().0 == ConsoleLevel::Debug,
        shown_args(args@) matches Some(t) ==> final(interp).console.lines@.last().1@ == indent(
            old(interp).console.group_depth as nat,
        ) + t,
        final(interp).heap == old(interp).heap,
        final(interp).scopes == old(interp).scopes,
        final(interp).fuel == old(interp).fuel,
{
    log_at(interp, ConsoleLevel::Debug, args)
}

/// `console.dir(value)`: writes the value as `console.log` does.
pub fn console_dir(interp: &mut Interpreter, this: JsValue, args: Vec<JsValue>) -> (r: Result<JsValue, JsError>)
    ensures
        r == Ok::<JsValue, JsError>(JsValue::Undefined),
        final(interp).console.lines@.len() == old(interp).console.lines@.len() + 1,
        final(interp).heap == old(interp).heap,
        final(interp).scopes == old(interp).scopes,
        final(interp).fuel == old(interp).fuel,
{
    let mut one: Vec<JsValue> = Vec::new();
    if args.len() > 0 {
        one.push(args[0].copy());
    } else {
        one.push(JsValue::Undefined);
    }
    log_at(interp, ConsoleLevel::Log, one)
}

/// `s` padded with spaces to at least `width` characters.
fn padded(s: Vec<char>, width: usize) -> (r: Vec<char>)
    ensures
        r@.len() >= width,
        r@.subrange(0, s@.len() as int) == s@,
{
    let mut out = s;
    let ghost orig = out@;
    while out.len() < width
        invariant
            out@.len() >= orig.len(),
            out@.subrange(0, orig.len() as int) == orig,
        decreases width - out@.len(),
    {
        out.push(' ');
        proof {
            assert(out@.subrange(0, orig.len() as int) =~= orig);
        }
    }
    out
}

/// `console.table(data)`: writes an index/key and value table of an array or object.
pub fn console_table(interp: &mut Interpreter, this: JsValue, args: Vec<JsValue>) -> (r: Result<JsValue, JsError>)
    ensures
        r == Ok::<JsValue, JsError>(JsValue::Undefined),
        final(interp).console.lines@.len() > old(interp).console.lines@.len(),
        final(interp).heap == old(interp).heap,
        final(interp).scopes == old(interp).scopes,
        final(interp).fuel == old(interp).fuel,
{
    let data = if args.len() > 0 {
        args[0].copy()
    } else {
        JsValue::Undefined
    };
    let id = match data {
        JsValue::Object(id) => id,
        _ => {
            return log_at(interp, ConsoleLevel::Log, vec![data]);
        },
    };
    if id >= interp.heap.len() {
        return log_at(interp, ConsoleLevel::Log, vec![data]);
    }
    let mut rows: Vec<(Vec<char>, Vec<char>)> = Vec::new();
    let is_array = match &interp.heap[id].kind {
        ObjectKind::Array(elems) => {
            let mut i: usize = 0;
            while i < elems.len()
                invariant
                    i <= elems@.len(),
                decreases elems@.len() - i,
            {
                let mut seen: Vec<usize> = Vec::new();
                rows.push((u64_to_dec(i as u64), format_for_console(interp, &elems[i], 1, &mut seen)));
                i = i + 1;
            }
            true
        },
        _ => {
            let props = &interp.heap[id].props;
            let mut i: usize = 0;
            while i < props.len()
                invariant
                    i <= props@.len(),
                decreases props@.len() - i,
            {
                let mut seen: Vec<usize> = Vec::new();
                rows.push((copy_chars(&props[i].key), format_for_console(interp, &props[i].value, 1, &mut seen)));
                i = i + 1;
            }
            false
        },
    };
    let width: usize = if is_array {
        5
    } else {
        11
    };
    let head = if is_array {
        chars_of("│ index │   value   │")
    } else {
        chars_of("│     key     │   value   │")
    };
    let (top, mid, bottom) = if is_array {
        (chars_of("┌───────┬───────────┐"), chars_of("├───────┼───────────┤"), chars_of("└───────┴───────────┘"))
    } else {
        (
            chars_of("┌─────────────┬───────────┐"),
            chars_of("├─────────────┼───────────┤"),
            chars_of("└─────────────┴───────────┘"),
        )
    };
    write_line(interp, ConsoleLevel::Log, top);
    write_line(interp, ConsoleLevel::Log, head);
    write_line(interp, ConsoleLevel::Log, mid);
    let mut k: usize = 0;
    while k < rows.len()
        invariant
            k <= rows@.len(),
            interp.console.lines@.len() > old(interp).console.lines@.len(),
            interp.heap == old(interp).heap,
            interp.scopes == old(interp).scopes,
            interp.fuel == old(interp).fuel,
        decreases rows@.len() - k,
    {
        let mut line = chars_of("│ ");
        let key = padded(copy_chars(&rows[k].0), width);
        append_chars(&mut line, key.as_slice());
        push_text(&mut line, " │ ");
        let val = padded(copy_chars(&rows[k].1), 9);
        append_chars(&mut line, val.as_slice());
        push_text(&mut line, " │");
        write_line(interp, ConsoleLevel::Log, line);
        k = k + 1;
    }
    write_line(interp, ConsoleLevel::Log, bottom);
    Ok(JsValue::Undefined)
}

/// The label argument of the timer and counter methods: `"default"` when absent.
fn label_arg(args: &Vec<JsValue>) -> (r: Vec<char>)
    ensures
        r@ == label_text(args@),
{
    if args.len() > 0 {
        if let JsValue::String(s) = &args[0] {
            return copy_chars(s);
        }
    }
    chars_of("default")
}

/// Index of the entry labelled `label`.
/// The label that `console.time` and its kin use: the first argument when it is a
/// string, `default` otherwise.
pub open spec fn label_text(args: Seq<JsValue>) -> Seq<char> {
    if args.len() > 0 && args[0] is String {
        args[0]->String_0@
    } else {
        "default"@
    }
}

/// The position of the first entry labelled `label`, if any.
pub open spec fn label_index(entries: Seq<(Vec<char>, u64)>, label: Seq<char>) -> Option<int> {
    if exists|i: int| 0 <= i < entries.len() && entries[i].0@ == label {
        Some(
            choose|i: int|
                0 <= i < entries.len() && entries[i].0@ == label && forall|j: int|
                    0 <= j < i ==> entries[j].0@ != label,
        )
    } else {
        None
    }
}

/// The first entry labelled `label` is at `i`.
proof fn lemma_label_index(entries: Seq<(Vec<char>, u64)>, label: Seq<char>, i: int)
    requires
        0 <= i < entries.len(),
        entries[i].0@ == label,
        forall|j: int| 0 <= j < i ==> entries[j].0@ != label,
    ensures
        label_index(entries, label) == Some(i),
{
    let k = choose|k: int|
        0 <= k < entries.len() && entries[k].0@ == label && forall|j: int| 0 <= j < k ==> entries[j].0@ != label;
    if k < i {
        assert(entries[k].0@ != label);
    } else if i < k {
        assert(entries[i].0@ != label);
    }
}

fn find_label(entries: &Vec<(Vec<char>, u64)>, label: &Vec<char>) -> (r: Option<usize>)
    ensures
        r matches Some(i) ==> i < entries@.len() && entries@[i as int].0@ == label@,
        r matches Some(i) ==> label_index(entries@, label@) == Some(i as int),
        r is None ==> forall|i: int| 0 <= i < entries@.len() ==> entries@[i].0@ != label@,
{
    let mut i: usize = 0;
    while i < entries.len()
        invariant
            i <= entries@.len(),
            forall|j: int| 0 <= j < i ==> entries@[j].0@ != label@,
        decreases entries@.len() - i,
    {
        if crate::value::chars_equal(entries[i].0.as_slice(), label.as_slice()) {
            proof {
                lemma_label_index(entries@, label@, i as int);
            }
            return Some(i);
        }
        i = i + 1;
    }
    None
}

/// The elapsed milliseconds `console.timeEnd` reports for a start and an end reading.
pub fn elapsed_ms(start: u64, now: u64) -> (r: u64)
    ensures
        now >= start ==> r == now - start,
        now < start ==> r == 0,
{
    if now >= start {
        now - start
    } else {
        0
    }
}

/// `console.time(label)`: starts a timer.
/// `after` is `before` with a timer labelled `label` (re)started: the first timer of
/// that label takes a new start reading, or a new timer is appended.
pub open spec fn timer_started(before: Seq<(Vec<char>, u64)>, after: Seq<(Vec<char>, u64)>, label: Seq<char>) -> bool {
    match label_index(before, label) {
        Some(i) => {
            &&& after.len() == before.len()
            &&& after[i].0@ == label
            &&& forall|k: int| 0 <= k < before.len() && k != i ==> #[trigger] after[k] == before[k]
        },
        None => {
            &&& after.len() == before.len() + 1
            &&& after.drop_last() == before
            &&& after.last().0@ == label
        },
    }
}

pub fn console_time(interp: &mut Interpreter, this: JsValue, args: Vec<JsValue>) -> (r: Result<JsValue, JsError>)
    ensures
        r == Ok::<JsValue, JsError>(JsValue::Undefined),
        final(interp).heap == old(interp).heap,
        final(interp).scopes == old(interp).scopes,
        final(interp).fuel == old(interp).fuel,
        final(interp).console.lines == old(interp).console.lines,
        final(interp).console.counters == old(interp).console.counters,
        final(interp).console.group_depth == old(interp).console.group_depth,
        timer_started(old(interp).console.timers@, final(interp).console.timers@, label_text(args@)),
{
    let label = label_arg(&args);
    let now = crate::clock::clock_millis();
    match find_label(&interp.console.timers, &label) {
        Some(i) => {
            interp.console.timers.set(i, (label, now));
        },
        None => {
            interp.console.timers.push((label, now));
            assert(interp.console.timers@.drop_last() =~= old(interp).console.timers@);
        },
    }
    Ok(JsValue::Undefined)
}

/// `console.timeEnd(label)`: writes `label: <ms>ms` for a running timer and stops it.
/// `after` is console state `before` after `console.timeEnd(label)`: a running timer
/// of that label is removed and a line `label: <ms>ms` logged; with none, a warning.
pub open spec fn timer_ended(before: ConsoleState, after: ConsoleState, label: Seq<char>) -> bool {
    &&& after.lines@.len() == before.lines@.len() + 1
    &&& after.lines@.drop_last() == before.lines@
    &&& match label_index(before.timers@, label) {
        Some(i) => {
            &&& after.timers@ == before.timers@.remove(i)
            &&& after.lines@.last().0 == ConsoleLevel::Log
            &&& exists|ms: nat| after.lines@.last().1@ == label + ": "@ + dec_digits(ms) + "ms"@
        },
        None => {
            &&& after.timers@ == before.timers@
            &&& after.lines@.last().0 == ConsoleLevel::Warn
            &&& after.lines@.last().1@ == "Timer '"@ + label + "' does not exist"@
        },
    }
}

pub fn console_time_end(interp: &mut Interpreter, this: JsValue, args: Vec<JsValue>) -> (r: Result<JsValue, JsError>)
    ensures
        r == Ok::<JsValue, JsError>(JsValue::Undefined),
        final(interp).heap == old(interp).heap,
        final(interp).scopes == old(interp).scopes,
        final(interp).fuel == old(interp).fuel,
        final(interp).console.counters == old(interp).console.counters,
        final(interp).console.group_depth == old(interp).console.group_depth,
        timer_ended(old(interp).console, final(interp).console, label_text(args@)),
{
    let label = label_arg(&args);
    match find_label(&interp.console.timers, &label) {
        Some(i) => {
            let start = interp.console.timers[i].1;
            let now = crate::clock::clock_millis();
            interp.console.timers.remove(i);
            let mut line = copy_chars(&label);
            push_text(&mut line, ": ");
            let e = elapsed_ms(start, now);
            let ms = u64_to_dec(e);
            append_chars(&mut line, ms.as_slice());
            push_text(&mut line, "ms");
            assert(line@ == label@ + ": "@ + dec_digits(e as nat) + "ms"@);
            write_line(interp, ConsoleLevel::Log, line);
            assert(interp.console.lines@.drop_last() =~= old(interp).console.lines@);
        },
        None => {
            let mut line = chars_of("Timer '");
            append_chars(&mut line, label.as_slice());
            push_text(&mut line, "' does not exist");
            write_line(interp, ConsoleLevel::Warn, line);
            assert(interp.console.lines@.drop_last() =~= old(interp).console.lines@);
        },
    }
    Ok(JsValue::Undefined)
}

/// `console.count(label)`: increments the label's counter and writes `label: <count>`.
pub fn console_count(interp: &mut Interpreter, this: JsValue, args: Vec<JsValue>) -> (r: Result<JsValue, JsError>)
    ensures
        r == Ok::<JsValue, JsError>(JsValue::Undefined),
        final(interp).console.lines@.len() == old(interp).console.lines@.len() + 1,
        final(interp).heap == old(interp).heap,
        final(interp).scopes == old(interp).scopes,
        final(interp).fuel == old(interp).fuel,
{
    let label = label_arg(&args);
    let n: u64 = match find_label(&interp.console.counters, &label) {
        Some(i) => {
            let c = interp.console.counters[i].1;
            let c2 = if c < u64::MAX {
                c + 1
            } else {
                c
            };
            interp.console.counters.set(i, (copy_chars(&label), c2));
            c2
        },
        None => {
            interp.console.counters.push((copy_chars(&label), 1));
            1
        },
    };
    let mut line = label;
    push_text(&mut line, ": ");
    let t = u64_to_dec(n);
    append_chars(&mut line, t.as_slice());
    write_line(interp, ConsoleLevel::Log, line);
    Ok(JsValue::Undefined)
}

/// `console.countReset(label)`: sets the label's counter back to zero.
pub fn console_count_reset(interp: &mut Interpreter, this: JsValue, args: Vec<JsValue>) -> (r: Result<JsValue, JsError>)
    ensures
        r == Ok::<JsValue, JsError>(JsValue::Undefined),
        final(interp).heap == old(interp).heap,
        final(interp).scopes == old(interp).scopes,
        final(interp).fuel == old(interp).fuel,
        final(interp).console.lines == old(interp).console.lines,
        final(interp).console.timers == old(interp).console.timers,
        final(interp).console.group_depth == old(interp).console.group_depth,
        match label_index(old(interp).console.counters@, label_text(args@)) {
            Some(i) => final(interp).console.counters@.len() == old(interp).console.counters@.len()
                && final(interp).console.counters@[i].0@ == label_text(args@)
                && final(interp).console.counters@[i].1 == 0
                && forall|k: int| 0 <= k < old(interp).console.counters@.len() && k != i
                    ==> #[trigger] final(interp).console.counters@[k] == old(interp).console.counters@[k],
            None => final(interp).console.counters == old(interp).console.counters,
        },
{
    let label = label_arg(&args);
    match find_label(&interp.console.counters, &label) {
        Some(i) => {
            interp.console.counters.set(i, (label, 0));
        },
        None => {},
    }
    Ok(JsValue::Undefined)
}

/// `console.clear()`: drops the lines written so far.
pub fn console_clear(interp: &mut Interpreter, this: JsValue, args: Vec<JsValue>) -> (r: Result<JsValue, JsError>)
    ensures
        r == Ok::<JsValue, JsError>(JsValue::Undefined),
        final(interp).console.lines@.len() == 0,
        final(interp).heap == old(interp).heap,
        final(interp).scopes == old(interp).scopes,
        final(interp).fuel == old(interp).fuel,
{
    interp.console.lines = Vec::new();
    Ok(JsValue::Undefined)
}

/// `console.group(...label)`: writes the label (if any) and indents later lines.
pub fn console_group(interp: &mut Interpreter, this: JsValue, args: Vec<JsValue>) -> (r: Result<JsValue, JsError>)
    ensures
        r == Ok::<JsValue, JsError>(JsValue::Undefined),
        old(interp).console.group_depth < usize::MAX ==> final(interp).console.group_depth == old(
            interp,
        ).console.group_depth + 1,
        final(interp).heap == old(interp).heap,
        final(interp).scopes == old(interp).scopes,
        final(interp).fuel == old(interp).fuel,
{
    if args.len() > 0 {
        log_at(interp, ConsoleLevel::Log, args)?;
    }
    if interp.console.group_depth < usize::MAX {
        interp.console.group_depth = interp.console.group_depth + 1;
    }
    Ok(JsValue::Undefined)
}

/// `console.groupEnd()`: undoes one level of indentation.
pub fn console_group_end(interp: &mut Interpreter, this: JsValue, args: Vec<JsValue>) -> (r: Result<JsValue, JsError>)
    ensures
        r == Ok::<JsValue, JsError>(JsValue::Undefined),
        old(interp).console.group_depth > 0 ==> final(interp).console.group_depth == old(interp).console.group_depth - 1,
        old(interp).console.group_depth == 0 ==> final(interp).console.group_depth == 0,
        final(interp).console.lines == old(interp).console.lines,
        final(interp).heap == old(interp).heap,
        final(interp).scopes == old(interp).scopes,
        final(interp).fuel == old(interp).fuel,
{
    if interp.console.group_depth > 0 {
        interp.console.group_depth = interp.console.group_depth - 1;
    }
    Ok(JsValue::Undefined)
}

/// Installs `console`.
pub fn init_console(interp: &mut Interpreter)
    ensures
        final(interp).same_registers(old(interp)),
        final(interp).grows(old(interp)),
        final(interp).fuel == old(interp).fuel,
        global_set(
            old(interp).scopes@,
            final(interp).scopes@,
            "console"@,
            JsValue::Object(old(interp).heap@.len() as usize),
        ),
{
    let c = interp.create_object();
    interp.register_method(c, "log", NativeId::ConsoleLog, 0);
    interp.register_method(c, "error", NativeId::ConsoleError, 0);
    interp.register_method(c, "warn", NativeId::ConsoleWarn, 0);
    interp.register_method(c, "info", NativeId::ConsoleInfo, 0);
    interp.register_method(c, "debug", NativeId::ConsoleDebug, 0);
    interp.register_method(c, "table", NativeId::ConsoleTable, 1);
    interp.register_method(c, "dir", NativeId::ConsoleDir, 1);
    interp.register_method(c, "time", NativeId::ConsoleTime, 1);
    interp.register_method(c, "timeEnd", NativeId::ConsoleTimeEnd, 1);
    interp.register_method(c, "count", NativeId::ConsoleCount, 1);
    interp.register_method(c, "countReset", NativeId::ConsoleCountReset, 1);
    interp.register_method(c, "clear", NativeId::ConsoleClear, 0);
    interp.register_method(c, "group", NativeId::ConsoleGroup, 0);
    interp.register_method(c, "groupEnd", NativeId::ConsoleGroupEnd, 0);
    interp.define_global("console", JsValue::Object(c));
}

} // verus!
