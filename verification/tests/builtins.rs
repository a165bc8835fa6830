use tsrun::interpreter::Interpreter;
use tsrun::number::{string_to_number, JsNumber};
use tsrun::parser::parse_program;
use tsrun::value::{ErrorKind, JsError, JsValue};

fn run(source: &str) -> Result<JsValue, JsError> {
    let program = parse_program(source).unwrap();
    let mut interp = Interpreter::new();
    interp.execute(&program)
}

fn eval(source: &str) -> JsValue {
    run(source).unwrap()
}

fn num(x: f64) -> JsValue {
    if x.is_nan() {
        return JsValue::Number(JsNumber::nan());
    }
    let digits: Vec<char> = format!("{}", x).chars().collect();
    JsValue::Number(string_to_number(&digits))
}

fn text(s: &str) -> JsValue {
    JsValue::String(s.chars().collect())
}

fn error_kind(source: &str) -> ErrorKind {
    match run(source) {
        Err(JsError::Raised(kind, _)) => kind,
        other => panic!("expected a raised error, got {:?}", other),
    }
}

fn is_nan(v: JsValue) -> bool {
    matches!(v, JsValue::Number(JsNumber::NaN))
}

#[test]
fn date_fields_of_a_timestamp() {
    let d = "const d = new Date(Date.UTC(2024, 1, 29, 13, 45, 30, 250)); ";
    assert_eq!(eval(&format!("{}d.getFullYear()", d)), num(2024.0));
    assert_eq!(eval(&format!("{}d.getMonth()", d)), num(1.0));
    assert_eq!(eval(&format!("{}d.getDate()", d)), num(29.0));
    assert_eq!(eval(&format!("{}d.getDay()", d)), num(4.0));
    assert_eq!(eval(&format!("{}d.getHours()", d)), num(13.0));
    assert_eq!(eval(&format!("{}d.getMinutes()", d)), num(45.0));
    assert_eq!(eval(&format!("{}d.getSeconds()", d)), num(30.0));
    assert_eq!(eval(&format!("{}d.getMilliseconds()", d)), num(250.0));
}

#[test]
fn date_epoch_and_iso_text() {
    assert_eq!(eval("new Date(0).toISOString()"), text("1970-01-01T00:00:00.000Z"));
    assert_eq!(eval("new Date(0).getDay()"), num(4.0));
    assert_eq!(eval("Date.UTC(1970, 0, 1)"), num(0.0));
    assert_eq!(eval("new Date(-1).toISOString()"), text("1969-12-31T23:59:59.999Z"));
    assert_eq!(eval("new Date('2024-12-25T10:30:00Z').toISOString()"), text("2024-12-25T10:30:00.000Z"));
    assert_eq!(eval("Date.parse('2000-01-01')"), num(946684800000.0));
}

#[test]
fn date_invalid_dates() {
    assert!(is_nan(eval("Date.parse('not a date')")));
    assert!(is_nan(eval("new Date('2023-02-29').getTime()")));
    assert_eq!(eval("new Date(NaN).toString()"), text("Invalid Date"));
    assert_eq!(error_kind("new Date(NaN).toISOString()"), ErrorKind::RangeError);
    assert_eq!(error_kind("Date.prototype.getTime.call({})"), ErrorKind::TypeError);
}

#[test]
fn date_setters_overflow_into_larger_fields() {
    assert_eq!(eval("const d = new Date(Date.UTC(2024, 0, 31)); d.setMonth(1); d.getDate()"), num(2.0));
    assert_eq!(eval("const d = new Date(0); d.setHours(25); d.getDate()"), num(2.0));
    assert_eq!(eval("const d = new Date(0); d.setFullYear(2000); d.getFullYear()"), num(2000.0));
    assert_eq!(eval("const d = new Date(0); d.setTime(86400000); d.getDate()"), num(2.0));
    assert_eq!(eval("new Date(0).toString()"), text("Thu Jan 01 1970 00:00:00 GMT+0000 (UTC)"));
    assert_eq!(eval("new Date(0).toDateString()"), text("Thu Jan 01 1970"));
    assert_eq!(eval("new Date(0).toTimeString()"), text("00:00:00 GMT+0000 (UTC)"));
}

#[test]
fn map_get_after_set() {
    assert_eq!(eval("const m = new Map(); m.set('a', 1); m.get('a')"), num(1.0));
    assert_eq!(eval("const m = new Map(); m.set('a', 1); m.set('a', 2); m.get('a')"), num(2.0));
    assert_eq!(eval("const m = new Map(); m.set('a', 1); m.set('b', 2); m.get('a')"), num(1.0));
    assert_eq!(eval("const m = new Map(); m.set(NaN, 'x'); m.get(NaN)"), text("x"));
    assert_eq!(eval("const m = new Map(); m.get('missing')"), JsValue::Undefined);
}

#[test]
fn map_delete_then_has() {
    assert_eq!(eval("const m = new Map([['a', 1]]); m.delete('a')"), JsValue::Boolean(true));
    assert_eq!(eval("const m = new Map([['a', 1]]); m.delete('a'); m.has('a')"), JsValue::Boolean(false));
    assert_eq!(eval("const m = new Map(); m.delete('a')"), JsValue::Boolean(false));
    assert_eq!(eval("const m = new Map([['a', 1], ['b', 2]]); m.size"), num(2.0));
    assert_eq!(eval("const m = new Map([['a', 1], ['b', 2]]); m.clear(); m.size"), num(0.0));
}

#[test]
fn map_keeps_insertion_order() {
    assert_eq!(eval("const m = new Map(); m.set('b', 1); m.set('a', 2); m.keys().join(',')"), text("b,a"));
    assert_eq!(eval("const m = new Map(); m.set('b', 1); m.set('a', 2); m.values().join(',')"), text("1,2"));
    assert_eq!(eval("const m = new Map([['x', 1]]); m.entries()[0][0]"), text("x"));
    assert_eq!(eval("let s = ''; new Map([['a', 1], ['b', 2]]).forEach((v, k) => s += k + v); s"), text("a1b2"));
    assert_eq!(error_kind("Map.prototype.get.call({}, 'a')"), ErrorKind::TypeError);
}

#[test]
fn object_static_functions() {
    assert_eq!(eval("Object.keys({a: 1, b: 2}).join(',')"), text("a,b"));
    assert_eq!(eval("Object.values({a: 1, b: 2}).join(',')"), text("1,2"));
    assert_eq!(eval("Object.entries({a: 1})[0].join('=')"), text("a=1"));
    assert_eq!(eval("Object.assign({a: 1}, {b: 2}, {a: 3}).a"), num(3.0));
    assert_eq!(eval("Object.getPrototypeOf(Object.create(null))"), JsValue::Null);
    assert_eq!(eval("Object.is(NaN, NaN)"), JsValue::Boolean(true));
    assert_eq!(eval("Object.is(0, -0)"), JsValue::Boolean(false));
    assert_eq!(eval("Object.getOwnPropertyNames({x: 1, y: 2}).length"), num(2.0));
    assert_eq!(error_kind("Object.keys(null)"), ErrorKind::TypeError);
    assert_eq!(error_kind("Object.create(5)"), ErrorKind::TypeError);
}

#[test]
fn object_define_property_and_descriptors() {
    assert_eq!(eval("const o = {}; Object.defineProperty(o, 'x', {value: 5}); o.x"), num(5.0));
    assert_eq!(eval("const o = {}; Object.defineProperty(o, 'x', {value: 5}); Object.keys(o).length"), num(0.0));
    assert_eq!(eval("const o = {}; Object.defineProperty(o, 'x', {value: 5}); o.x = 6; o.x"), num(5.0));
    assert_eq!(eval("Object.getOwnPropertyDescriptor({a: 1}, 'a').writable"), JsValue::Boolean(true));
    assert_eq!(eval("Object.getOwnPropertyDescriptor({a: 1}, 'b')"), JsValue::Undefined);
    assert_eq!(eval("Object.isExtensible(Object.preventExtensions({}))"), JsValue::Boolean(false));
    assert_eq!(eval("const p = {}; const o = Object.create(p); p.isPrototypeOf(o)"), JsValue::Boolean(true));
    assert_eq!(eval("Object.prototype.toString.call([])"), text("[object Array]"));
}

#[test]
fn boolean_and_number_methods() {
    assert_eq!(eval("Boolean(0)"), JsValue::Boolean(false));
    assert_eq!(eval("Boolean('x')"), JsValue::Boolean(true));
    assert_eq!(eval("true.toString()"), text("true"));
    assert_eq!(eval("new Boolean(false).valueOf()"), JsValue::Boolean(false));
    assert_eq!(eval("Number('42')"), num(42.0));
    assert_eq!(eval("Number()"), num(0.0));
    assert_eq!(eval("Number.parseInt('12')"), num(12.0));
    assert_eq!(eval("Number.parseInt('12px')"), num(12.0));
    assert_eq!(eval("Number.parseFloat('1.5px')"), num(1.5));
    assert_eq!(eval("Number.parseFloat('3.14abc')"), eval("parseFloat('3.14abc')"));
    assert_eq!(eval("Number.parseInt('0042')"), num(42.0));
    assert_eq!(eval("parseFloat('250')"), num(250.0));
    assert!(is_nan(eval("Number.parseInt('px')")));
    assert_eq!(eval("Number.parseFloat('1.5')"), num(1.5));
    assert_eq!(error_kind("(1).toFixed(101)"), ErrorKind::RangeError);
    assert_eq!(error_kind("(1).toString(1)"), ErrorKind::RangeError);
    assert_eq!(error_kind("(1).toPrecision(0)"), ErrorKind::RangeError);
    assert_eq!(error_kind("Boolean.prototype.toString.call(1)"), ErrorKind::TypeError);
}

#[test]
fn global_parse_edge_cases() {
    assert_eq!(eval("parseInt('-0x1F', 16)"), num(-31.0));
    assert_eq!(eval("parseInt('z', 36)"), num(35.0));
    assert!(is_nan(eval("parseInt('10', 37)")));
    assert!(is_nan(eval("parseInt('')")));
    assert_eq!(eval("parseFloat('.5e1x')"), num(5.0));
    assert!(is_nan(eval("parseFloat('e5')")));
    assert_eq!(eval("isNaN(undefined)"), JsValue::Boolean(true));
    assert_eq!(eval("isFinite(null)"), JsValue::Boolean(true));
}

#[test]
fn uri_round_trip_on_ascii_text() {
    let s = "a b&c=d/e?f#g%h";
    assert_eq!(eval(&format!("decodeURIComponent(encodeURIComponent('{}'))", s)), text(s));
    assert_eq!(eval(&format!("decodeURI(encodeURI('{}'))", s)), text(s));
    assert_eq!(eval("encodeURIComponent('é')"), text("%C3%A9"));
    assert_eq!(eval("decodeURI('%3B%41')"), text("%3BA"));
    assert_eq!(eval("decodeURIComponent('%zz')"), text("%zz"));
}

#[test]
fn base64_coding() {
    assert_eq!(eval("btoa('hello')"), text("aGVsbG8="));
    assert_eq!(eval("btoa('')"), text(""));
    assert_eq!(eval("btoa('ab')"), text("YWI="));
    assert_eq!(eval("atob('aGVsbG8=')"), text("hello"));
    assert_eq!(eval("atob(btoa('any text'))"), text("any text"));
    assert_eq!(error_kind("btoa('\\u0100')"), ErrorKind::TypeError);
    assert_eq!(error_kind("atob('abc')"), ErrorKind::TypeError);
}

#[test]
fn structured_clone_is_deep() {
    assert_eq!(eval("const a = {x: [1, 2]}; const b = structuredClone(a); b.x.push(3); a.x.length"), num(2.0));
    assert_eq!(eval("structuredClone({x: {y: 5}}).x.y"), num(5.0));
    assert_eq!(eval("structuredClone(7)"), num(7.0));
    assert_eq!(error_kind("structuredClone(() => 1)"), ErrorKind::TypeError);
}

#[test]
fn eval_runs_code_in_the_global_scope() {
    assert_eq!(eval("eval('1 + 2')"), num(3.0));
    assert_eq!(eval("eval(5)"), num(5.0));
    assert_eq!(eval("eval('   ')"), JsValue::Undefined);
    assert_eq!(eval("var g = 10; eval('g * 2')"), num(20.0));
    assert_eq!(error_kind("eval('1 +')"), ErrorKind::SyntaxError);
}

#[test]
fn function_call_apply_bind() {
    assert_eq!(eval("function f(a, b) { return this.x + a + b; } f.call({x: 1}, 2, 3)"), num(6.0));
    assert_eq!(eval("function f(a, b) { return this.x + a + b; } f.apply({x: 1}, [2, 3])"), num(6.0));
    assert_eq!(eval("function f(a, b) { return this.x + a + b; } const g = f.bind({x: 1}, 2); g(3)"), num(6.0));
    assert_eq!(eval("const add = Function('a', 'b', 'return a + b'); add(2, 3)"), num(5.0));
    assert_eq!(error_kind("Function.prototype.bind.call(1)"), ErrorKind::TypeError);
}

#[test]
fn push_then_pop_restores_the_array() {
    assert_eq!(eval("const a = [1, 2]; a.push(9); a.pop()"), num(9.0));
    assert_eq!(eval("const a = [1, 2]; a.push(9); a.pop(); a.join(',')"), text("1,2"));
    assert_eq!(eval("const a = [1, 2]; a.unshift(0); a.shift(); a.join(',')"), text("1,2"));
    assert_eq!(eval("[1, 2, 3].toReversed().toReversed().join(',')"), text("1,2,3"));
}

#[test]
fn index_of_and_includes_agree_except_for_nan() {
    assert_eq!(eval("[1, NaN].indexOf(NaN)"), num(-1.0));
    assert_eq!(eval("[1, NaN].includes(NaN)"), JsValue::Boolean(true));
    assert_eq!(eval("[1, 2].indexOf(2) !== -1"), eval("[1, 2].includes(2)"));
}

#[test]
fn split_then_join_gives_the_text_back() {
    assert_eq!(eval("'a,b,,c'.split(',').join(',')"), text("a,b,,c"));
    assert_eq!(eval("'--x--'.split('--').join('--')"), text("--x--"));
    assert_eq!(eval("'abc'.split('').length"), num(3.0));
}

#[test]
fn calendar_fields_rebuild_the_day() {
    assert_eq!(eval("const d = new Date(951782400000); Date.UTC(d.getFullYear(), d.getMonth(), d.getDate()) === 951782400000"), JsValue::Boolean(true));
    assert_eq!(eval("new Date(951782400000).getDate()"), num(29.0));
    assert_eq!(eval("new Date(Date.UTC(-1, 0, 1)).getFullYear()"), num(-1.0));
    assert_eq!(eval("new Date(Date.UTC(99, 0, 1)).getFullYear()"), num(1999.0));
}

#[test]
fn clock_and_freeze() {
    assert_eq!(eval("Date.now() > 1600000000000"), JsValue::Boolean(true));
    assert_eq!(eval("typeof Date()"), text("string"));
    assert_eq!(eval("const o = Object.freeze({a: 1}); Object.isFrozen(o)"), JsValue::Boolean(true));
    assert_eq!(eval("Object.isFrozen({a: 1})"), JsValue::Boolean(false));
    assert_eq!(eval("Object.isSealed(5)"), JsValue::Boolean(true));
}

#[test]
fn pad_and_number_text() {
    assert_eq!(eval("'7'.padStart(3)"), text("  7"));
    assert_eq!(eval("'abc'.padEnd(6, '12')"), text("abc121"));
    assert_eq!(eval("'abc'.padStart(2, '0')"), text("abc"));
    assert_eq!(eval("Number('007')"), num(7.0));
    assert_eq!(eval("isNaN('12')"), JsValue::Boolean(false));
}

#[test]
fn promise_then_runs_on_a_settled_promise() {
    assert_eq!(eval("let x = 0; Promise.resolve(5).then(v => { x = v * 2; }); x"), num(10.0));
    assert_eq!(eval("let x = 0; Promise.reject(3).catch(e => { x = e + 1; }); x"), num(4.0));
    assert_eq!(eval("let x = 0; Promise.resolve(1).then(v => v + 1).then(v => { x = v; }); x"), num(2.0));
}

#[test]
fn promise_executor_resolves_and_rejects() {
    assert_eq!(eval("let x = 0; new Promise((res, rej) => res(7)).then(v => { x = v; }); x"), num(7.0));
    assert_eq!(eval("let x = 0; new Promise((res, rej) => rej(8)).catch(e => { x = e; }); x"), num(8.0));
    assert_eq!(eval("let x = ''; new Promise(() => { throw new Error('boom'); }).catch(e => { x = e.message; }); x"), text("boom"));
    assert_eq!(error_kind("new Promise(5)"), ErrorKind::TypeError);
}

#[test]
fn promise_reactions_wait_for_a_pending_promise() {
    let src = "let r; let x = 0; const p = new Promise(res => { r = res; }); p.then(v => { x = v; }); const before = x; r(9); [before, x].join(',')";
    assert_eq!(eval(src), text("0,9"));
}

#[test]
fn promise_finally_keeps_the_value() {
    assert_eq!(eval("let x = 0; let y = 0; Promise.resolve(4).finally(() => { y = 1; }).then(v => { x = v; }); x + y"), num(5.0));
}

#[test]
fn promise_combinators_on_settled_inputs() {
    assert_eq!(eval("let x; Promise.all([1, Promise.resolve(2), 3]).then(v => { x = v.join(','); }); x"), text("1,2,3"));
    assert_eq!(eval("let x; Promise.all([1, Promise.reject('no'), 3]).catch(e => { x = e; }); x"), text("no"));
    assert_eq!(eval("let x; Promise.all([]).then(v => { x = v.length; }); x"), num(0.0));
    assert_eq!(eval("let x; Promise.race([Promise.reject(1), 2]).catch(e => { x = e; }); x"), num(1.0));
    assert_eq!(eval("let x; Promise.any([Promise.reject(1), 2]).then(v => { x = v; }); x"), num(2.0));
    assert_eq!(eval("let x; Promise.any([Promise.reject(1), Promise.reject(2)]).catch(e => { x = e.join(','); }); x"), text("1,2"));
    assert_eq!(eval("let x; Promise.any([]).catch(e => { x = e; }); x"), text("All promises were rejected"));
    let settled = "let x; Promise.allSettled([1, Promise.reject(2)]).then(v => { x = v[0].status + ':' + v[0].value + ',' + v[1].status + ':' + v[1].reason; }); x";
    assert_eq!(eval(settled), text("fulfilled:1,rejected:2"));
}

#[test]
fn promise_combinators_wait_for_pending_inputs() {
    let all = "let r; let x = 'none'; const p = new Promise(res => { r = res; }); Promise.all([1, p]).then(v => { x = v.join('+'); }); const before = x; r(2); before + '/' + x";
    assert_eq!(eval(all), text("none/1+2"));
    let race = "let r; let x = 'none'; const p = new Promise(res => { r = res; }); Promise.race([p]).then(v => { x = v; }); r('won'); x";
    assert_eq!(eval(race), text("won"));
    let reject = "let r; let x = 'none'; const p = new Promise((res, rej) => { r = rej; }); Promise.all([p, 1]).catch(e => { x = e; }); r('bad'); x";
    assert_eq!(eval(reject), text("bad"));
}

#[test]
fn promise_resolve_keeps_a_promise() {
    assert_eq!(eval("const p = Promise.resolve(1); Promise.resolve(p) === p"), JsValue::Boolean(true));
    assert_eq!(eval("Object.prototype.toString.call(Promise.resolve(1))"), text("[object Promise]"));
    assert_eq!(error_kind("Promise.prototype.then.call(5)"), ErrorKind::TypeError);
}

#[test]
fn json_stringify_compact() {
    assert_eq!(eval("JSON.stringify({b: 1, a: [1, 'x', null, true]})"), text("{\"a\":[1,\"x\",null,true],\"b\":1}"));
    assert_eq!(eval("JSON.stringify('hi')"), text("\"hi\""));
    assert_eq!(eval("JSON.stringify(1.5)"), text("1.5"));
    assert_eq!(eval("JSON.stringify(-20)"), text("-20"));
    assert_eq!(eval("JSON.stringify(NaN)"), text("null"));
    assert_eq!(eval("JSON.stringify(undefined)"), text("null"));
    assert_eq!(eval("JSON.stringify({a: undefined, b: 2})"), text("{\"b\":2}"));
    assert_eq!(eval("JSON.stringify([undefined, () => 1])"), text("[null,null]"));
    assert_eq!(eval("JSON.stringify('a\"b')"), text("\"a\\\"b\""));
    assert_eq!(eval("JSON.stringify(new Date(0))"), text("\"1970-01-01T00:00:00.000Z\""));
}

#[test]
fn json_stringify_indented() {
    assert_eq!(eval("JSON.stringify({a: 1}, null, 2)"), text("{\n  \"a\": 1\n}"));
    assert_eq!(eval("JSON.stringify({a: [1]}, null, 4)"), text("{\n    \"a\": [\n        1\n    ]\n}"));
    assert_eq!(eval("JSON.stringify({a: 1}, null, '--')"), text("{\n--\"a\": 1\n}"));
    assert_eq!(eval("JSON.stringify({a: 1}, null, 0)"), text("{\"a\":1}"));
    assert_eq!(eval("JSON.stringify([1], null, 20)"), text("[\n          1\n]"));
}

#[test]
fn json_stringify_refuses_a_cycle() {
    assert_eq!(error_kind("const o = {}; o.self = o; JSON.stringify(o)"), ErrorKind::TypeError);
    assert_eq!(eval("const o = {x: 1}; JSON.stringify([o, o])"), text("[{\"x\":1},{\"x\":1}]"));
}

#[test]
fn json_parse_documents() {
    assert_eq!(eval("JSON.parse('{\"a\": [1, 2.5, \"x\"], \"b\": null}').a[1]"), num(2.5));
    assert_eq!(eval("JSON.parse('{\"a\": [1, 2.5, \"x\"], \"b\": null}').a.length"), num(3.0));
    assert_eq!(eval("JSON.parse('{\"a\": [1, 2.5, \"x\"], \"b\": null}').b"), JsValue::Null);
    assert_eq!(eval("JSON.parse('\"hi\"')"), text("hi"));
    assert_eq!(eval("JSON.parse('true')"), JsValue::Boolean(true));
    assert_eq!(eval("JSON.parse(' 42 ')"), num(42.0));
    assert_eq!(eval("JSON.stringify(JSON.parse('{\"z\":1,\"y\":[true]}'))"), text("{\"y\":[true],\"z\":1}"));
    assert_eq!(error_kind("JSON.parse('{bad')"), ErrorKind::SyntaxError);
    assert_eq!(error_kind("JSON.parse()"), ErrorKind::SyntaxError);
}

#[test]
fn json_raw_text() {
    assert_eq!(eval("JSON.isRawJSON(JSON.rawJSON('[1,2]'))"), JsValue::Boolean(true));
    assert_eq!(eval("JSON.isRawJSON({})"), JsValue::Boolean(false));
    assert_eq!(eval("JSON.stringify({x: JSON.rawJSON('[1, 2]')})"), text("{\"x\":[1,2]}"));
    assert_eq!(error_kind("JSON.rawJSON('{bad')"), ErrorKind::SyntaxError);
    assert_eq!(error_kind("JSON.rawJSON(5)"), ErrorKind::TypeError);
}

#[test]
fn map_group_by_collects_items_per_key() {
    assert_eq!(eval("Map.groupBy([1, 2, 3, 4, 5], x => x % 2).get(1).join(',')"), text("1,3,5"));
    assert_eq!(eval("Map.groupBy([1, 2, 3, 4, 5], x => x % 2).get(0).join(',')"), text("2,4"));
    assert_eq!(eval("Array.from(Map.groupBy(['b', 'a', 'b'], x => x).keys()).join(',')"), text("b,a"));
    assert_eq!(eval("Map.groupBy([10, 20], (x, i) => i).get(1)[0]"), num(20.0));
    assert_eq!(error_kind("Map.groupBy(5, x => x)"), ErrorKind::TypeError);
}

#[test]
fn map_keeps_insertion_order_through_updates_and_deletes() {
    let src = "const m = new Map(); m.set('a', 1); m.set('b', 2); m.set('c', 3); m.set('a', 4); m.delete('b'); Array.from(m.keys()).join(',') + ':' + Array.from(m.values()).join(',') + ':' + m.size";
    assert_eq!(eval(src), text("a,c:4,3:2"));
    assert_eq!(eval("const m = new Map([[NaN, 'n'], [0, 'z']]); m.get(NaN) + m.get(-0)"), text("nz"));
    assert_eq!(eval("const m = new Map([[1, 'x']]); m.has('1')"), JsValue::Boolean(false));
    assert_eq!(eval("const m = new Map([[1, 'x'], [2, 'y']]); m.clear(); m.size"), num(0.0));
}

#[test]
fn object_keys_follow_insertion_and_for_in_puts_indices_first() {
    assert_eq!(eval("Object.keys({b: 1, 10: 2, a: 3, 2: 4}).join(',')"), text("b,10,a,2"));
    assert_eq!(eval("let s = ''; for (const k in {b: 1, 10: 2, a: 3, 2: 4}) { s += k + ','; } s"), text("2,10,b,a,"));
    assert_eq!(eval("let s = ''; for (const k in [7, 8]) { s += k; } s"), text("01"));
    assert_eq!(eval("let s = ''; for (const k in {'01': 1, 1: 2}) { s += k + ';'; } s"), text("1;01;"));
}

#[test]
fn delete_leaves_a_hole_in_an_array_and_removes_a_property() {
    assert_eq!(eval("const a = [1, 2, 3]; delete a[1]; String(a[1]) + a.length"), text("undefined3"));
    assert_eq!(eval("const o = {x: 1, y: 2}; delete o.x; Object.keys(o).join(',')"), text("y"));
    assert_eq!(eval("const o = {x: 1}; delete o.z"), JsValue::Boolean(true));
}

#[test]
fn assignment_to_a_constant_is_a_type_error() {
    assert_eq!(error_kind("const c = 1; c = 2;"), ErrorKind::TypeError);
    assert_eq!(eval("let v = 1; v = 2; v"), num(2.0));
    assert_eq!(eval("undeclared = 5; undeclared"), num(5.0));
}

#[test]
fn array_length_writes_cut_and_pad() {
    assert_eq!(eval("const a = [1, 2, 3]; a.length = 1; a.join(',')"), text("1"));
    assert_eq!(eval("const a = [1]; a.length = 3; a.length"), num(3.0));
    assert_eq!(eval("const a = [1]; a[3] = 4; String(a[2]) + a.length"), text("undefined4"));
}

#[test]
fn date_parse_of_times_and_fractions() {
    assert_eq!(eval("Date.parse('2000-01-01T00:00:01.5Z')"), num(946684801500.0));
    assert_eq!(eval("Date.parse('  2000-02-29  ')"), num(951782400000.0));
    assert!(is_nan(eval("Date.parse('2001-02-29')")));
    assert!(is_nan(eval("Date.parse('2000-01-01T24:00')")));
}

#[test]
fn globals_are_installed() {
    assert_eq!(eval("typeof Math.max + typeof JSON.parse + typeof parseInt + typeof Map"), text("functionfunctionfunctionfunction"));
    assert_eq!(eval("typeof globalThis"), text("object"));
    assert_eq!(eval("typeof RangeError + typeof console.log"), text("functionfunction"));
}

#[test]
fn atob_accepts_exactly_readable_quads() {
    assert_eq!(eval("atob('SGk=')"), text("Hi"));
    assert_eq!(eval("atob(' SG k= ')"), text("Hi"));
    assert_eq!(eval("atob('')"), text(""));
    assert_eq!(error_kind("atob('S$==')"), ErrorKind::TypeError);
    assert_eq!(error_kind("atob('SGk')"), ErrorKind::TypeError);
}

#[test]
fn array_iterator_walks_the_array_once() {
    assert_eq!(eval("const it = [1, 2].values(); it.next(); it.next().value"), num(2.0));
    assert_eq!(eval("const it = [1, 2].values(); it.next(); it.next().done"), JsValue::Boolean(false));
    assert_eq!(eval("const it = [1, 2].values(); it.next(); it.next(); it.next().done"), JsValue::Boolean(true));
    assert_eq!(eval("const it = [].values(); it.next().value"), JsValue::Undefined);
}

#[test]
fn join_of_primitives_always_succeeds() {
    assert_eq!(eval("[1, 'b', true, null, undefined].join('-')"), text("1-b-true--"));
    assert_eq!(eval("[].join()"), text(""));
    assert_eq!(eval("[1, 2].toString()"), text("1,2"));
}

#[test]
fn to_sorted_copies_in_text_order() {
    assert_eq!(eval("[3, 1, 10, 2].toSorted().join()"), text("1,10,2,3"));
    assert_eq!(eval("const a = [3, 1, 2]; a.toSorted(); a.join()"), text("3,1,2"));
}

#[test]
fn to_fixed_of_integers_pads_with_zeros() {
    assert_eq!(eval("(5).toFixed(2)"), text("5.00"));
    assert_eq!(eval("(-3).toFixed(0)"), text("-3"));
    assert_eq!(eval("(0).toFixed(1)"), text("0.0"));
    assert_eq!(eval("(120).toFixed()"), text("120"));
}

#[test]
fn structured_clone_of_primitives_and_functions() {
    assert_eq!(eval("structuredClone(5)"), num(5.0));
    assert_eq!(eval("structuredClone('x')"), text("x"));
    assert_eq!(error_kind("structuredClone(function () {})"), ErrorKind::TypeError);
}

#[test]
fn define_property_defaults_to_fixed_hidden() {
    assert_eq!(eval("const o = {}; Object.defineProperty(o, 'x', { value: 1 }); o.x"), num(1.0));
    assert_eq!(eval("const o = {}; Object.defineProperty(o, 'x', { value: 1 }); Object.keys(o).length"), num(0.0));
    assert_eq!(eval("const o = {}; Object.defineProperty(o, 'x', { value: 1, enumerable: true }); Object.keys(o).length"), num(1.0));
}

#[test]
fn freeze_and_seal_make_properties_fixed() {
    assert_eq!(eval("const o = Object.freeze({ a: 1 }); delete o.a; o.a"), num(1.0));
    assert_eq!(eval("const o = Object.seal({ a: 1 }); delete o.a; o.a = 2; o.a"), num(2.0));
}

#[test]
fn flat_with_a_depth_and_with_out_of_range() {
    assert_eq!(eval("[1, [2, [3, [4]]]].flat(2).length"), num(4.0));
    assert_eq!(eval("[1, [2, [3, [4]]]].flat(Infinity).length"), num(4.0));
    assert_eq!(error_kind("[1, 2].with(5, 0)"), ErrorKind::RangeError);
    assert_eq!(eval("Array.from([1, 2, 3]).length"), num(3.0));
}

#[test]
fn structured_clone_copies_an_array() {
    assert_eq!(eval("const a = [1, 'x', null]; const b = structuredClone(a); b !== a && b[1] === 'x' && b.length === 3"), JsValue::Boolean(true));
    assert_eq!(eval("const a = [1, 2]; const b = structuredClone(a); b[0] = 5; a[0]"), num(1.0));
}

#[test]
fn parse_int_reads_leading_digits() {
    assert_eq!(eval("parseInt('  -42px ')"), num(-42.0));
    assert_eq!(eval("parseInt('+7')"), num(7.0));
    assert_eq!(eval("Number.parseInt('12.9')"), num(12.0));
    assert!(is_nan(eval("parseInt('abc')")));
    assert!(is_nan(eval("parseInt('-')")));
}

#[test]
fn stringify_arrays_and_cycles() {
    assert_eq!(eval("JSON.stringify([1, 'a', null, true])"), text("[1,\"a\",null,true]"));
    assert_eq!(error_kind("const a = []; a.push(a); JSON.stringify(a)"), ErrorKind::TypeError);
    assert_eq!(error_kind("const o = {}; o.self = o; JSON.stringify(o)"), ErrorKind::TypeError);
}
