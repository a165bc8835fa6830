use tsrun::interpreter::Interpreter;
use tsrun::number::{string_to_number, JsNumber};
use tsrun::parser::parse_program;
use tsrun::value::{ErrorKind, JsError, JsValue};

fn run(source: &str) -> Result<JsValue, JsError> {
    let program = parse_program(source).unwrap();
    let mut interp = Interpreter::new();
    interp.execute(&program)
}

fn eval(source: &str) -> JsValue {
    let program = parse_program(source).unwrap();
    let mut interp = Interpreter::new();
    interp.execute(&program).unwrap()
}

fn num(x: f64) -> JsValue {
    if x.is_nan() {
        return JsValue::Number(JsNumber::nan());
    }
    if x.is_infinite() {
        return JsValue::Number(JsNumber::infinity(x < 0.0));
    }
    let digits: Vec<char> = format!("{}", x).chars().collect();
    JsValue::Number(string_to_number(&digits))
}

fn text(s: &str) -> JsValue {
    JsValue::String(s.chars().collect())
}

fn as_f64(v: &JsValue) -> f64 {
    match v {
        JsValue::Number(n) => n.to_js_string().into_iter().collect::<String>().parse::<f64>().unwrap(),
        _ => panic!("not a number: {:?}", v),
    }
}

#[test]
fn test_arithmetic() {
    assert_eq!(eval("1 + 2"), num(3.0));
    assert_eq!(eval("10 - 4"), num(6.0));
    assert_eq!(eval("3 * 4"), num(12.0));
    assert_eq!(eval("15 / 3"), num(5.0));
    assert_eq!(eval("2 ** 3"), num(8.0));
}

#[test]
fn test_precedence() {
    assert_eq!(eval("1 + 2 * 3"), num(7.0));
    assert_eq!(eval("(1 + 2) * 3"), num(9.0));
}

#[test]
fn test_comparison() {
    assert_eq!(eval("1 < 2"), JsValue::Boolean(true));
    assert_eq!(eval("2 > 1"), JsValue::Boolean(true));
    assert_eq!(eval("1 === 1"), JsValue::Boolean(true));
    assert_eq!(eval("1 !== 2"), JsValue::Boolean(true));
}

#[test]
fn test_variables() {
    assert_eq!(eval("let x = 5; x"), num(5.0));
    assert_eq!(eval("let x = 5; x = 10; x"), num(10.0));
}

#[test]
fn test_conditional() {
    assert_eq!(eval("true ? 1 : 2"), num(1.0));
    assert_eq!(eval("false ? 1 : 2"), num(2.0));
}

#[test]
fn test_function() {
    assert_eq!(eval("function add(a, b) { return a + b; } add(2, 3)"), num(5.0));
}

#[test]
fn test_arrow_function() {
    assert_eq!(eval("const add = (a, b) => a + b; add(2, 3)"), num(5.0));
}

#[test]
fn test_object() {
    assert_eq!(eval("const obj = { a: 1 }; obj.a"), num(1.0));
}

#[test]
fn test_array() {
    assert_eq!(eval("const arr = [1, 2, 3]; arr[1]"), num(2.0));
}

#[test]
fn test_array_push_single() {
    assert_eq!(eval("const arr = [1, 2]; arr.push(3); arr.length"), num(3.0));
}

#[test]
fn test_array_push_returns_length() {
    assert_eq!(eval("const arr = [1, 2]; arr.push(3)"), num(3.0));
}

#[test]
fn test_array_push_multiple() {
    assert_eq!(eval("const arr = [1]; arr.push(2, 3, 4); arr.length"), num(4.0));
}

#[test]
fn test_array_push_element_access() {
    assert_eq!(eval("const arr = [1, 2]; arr.push(3); arr[2]"), num(3.0));
}

#[test]
fn test_array_pop_returns_last() {
    assert_eq!(eval("const arr = [1, 2, 3]; arr.pop()"), num(3.0));
}

#[test]
fn test_array_pop_modifies_length() {
    assert_eq!(eval("const arr = [1, 2, 3]; arr.pop(); arr.length"), num(2.0));
}

#[test]
fn test_array_pop_empty() {
    assert_eq!(eval("const arr = []; arr.pop()"), JsValue::Undefined);
}

#[test]
fn test_array_map_double() {
    // [1, 2, 3].map(x => x * 2) should equal [2, 4, 6]
    assert_eq!(eval("const arr = [1, 2, 3].map(x => x * 2); arr[0]"), num(2.0));
    assert_eq!(eval("const arr = [1, 2, 3].map(x => x * 2); arr[1]"), num(4.0));
    assert_eq!(eval("const arr = [1, 2, 3].map(x => x * 2); arr[2]"), num(6.0));
}

#[test]
fn test_array_map_preserves_length() {
    assert_eq!(eval("[1, 2, 3].map(x => x * 2).length"), num(3.0));
}

#[test]
fn test_array_map_with_index() {
    // map callback receives (element, index, array)
    assert_eq!(eval("[10, 20, 30].map((x, i) => i)[1]"), num(1.0));
}

#[test]
fn test_array_map_to_strings() {
    assert_eq!(eval("[1, 2, 3].map(x => 'n' + x)[0]"), text("n1"));
}

#[test]
fn test_array_filter_evens() {
    assert_eq!(eval("[1, 2, 3, 4].filter(x => x % 2 === 0).length"), num(2.0));
}

#[test]
fn test_array_filter_values() {
    assert_eq!(eval("[1, 2, 3, 4].filter(x => x % 2 === 0)[0]"), num(2.0));
    assert_eq!(eval("[1, 2, 3, 4].filter(x => x % 2 === 0)[1]"), num(4.0));
}

#[test]
fn test_array_filter_none_match() {
    assert_eq!(eval("[1, 2, 3].filter(x => x > 10).length"), num(0.0));
}

#[test]
fn test_array_filter_all_match() {
    assert_eq!(eval("[1, 2, 3].filter(x => x > 0).length"), num(3.0));
}

#[test]
fn test_array_filter_with_index() {
    // Filter elements at even indices
    assert_eq!(eval("[10, 20, 30, 40].filter((x, i) => i % 2 === 0).length"), num(2.0));
}

#[test]
fn test_array_map_filter_chain() {
    // [1, 2, 3, 4].map(x => x * 2).filter(x => x > 4) should be [6, 8]
    assert_eq!(eval("[1, 2, 3, 4].map(x => x * 2).filter(x => x > 4).length"), num(2.0));
    assert_eq!(eval("[1, 2, 3, 4].map(x => x * 2).filter(x => x > 4)[0]"), num(6.0));
}

#[test]
fn test_array_foreach_side_effect() {
    assert_eq!(eval("let sum = 0; [1, 2, 3].forEach(x => sum += x); sum"), num(6.0));
}

#[test]
fn test_array_foreach_returns_undefined() {
    assert_eq!(eval("[1, 2, 3].forEach(x => x * 2)"), JsValue::Undefined);
}

#[test]
fn test_array_foreach_with_index() {
    assert_eq!(eval("let result = 0; [10, 20, 30].forEach((x, i) => result += i); result"), num(3.0));
}

#[test]
fn test_array_reduce_sum() {
    assert_eq!(eval("[1, 2, 3, 4].reduce((acc, x) => acc + x, 0)"), num(10.0));
}

#[test]
fn test_array_reduce_no_initial() {
    // Without initial value, uses first element as initial
    assert_eq!(eval("[1, 2, 3, 4].reduce((acc, x) => acc + x)"), num(10.0));
}

#[test]
fn test_array_reduce_multiply() {
    assert_eq!(eval("[1, 2, 3, 4].reduce((acc, x) => acc * x, 1)"), num(24.0));
}

#[test]
fn test_array_reduce_with_index() {
    // Sum of indices
    assert_eq!(eval("[10, 20, 30].reduce((acc, x, i) => acc + i, 0)"), num(3.0));
}

#[test]
fn test_array_reduce_to_object() {
    assert_eq!(eval("const obj = [['a', 1], ['b', 2]].reduce((acc, [k, v]) => { acc[k] = v; return acc; }, {}); obj.a"), num(1.0));
}

#[test]
fn test_array_find_found() {
    assert_eq!(eval("[1, 2, 3, 4].find(x => x > 2)"), num(3.0));
}

#[test]
fn test_array_find_not_found() {
    assert_eq!(eval("[1, 2, 3].find(x => x > 10)"), JsValue::Undefined);
}

#[test]
fn test_array_find_with_index() {
    assert_eq!(eval("[10, 20, 30].find((x, i) => i === 1)"), num(20.0));
}

#[test]
fn test_array_findindex_found() {
    assert_eq!(eval("[1, 2, 3, 4].findIndex(x => x > 2)"), num(2.0));
}

#[test]
fn test_array_findindex_not_found() {
    assert_eq!(eval("[1, 2, 3].findIndex(x => x > 10)"), num(-1.0));
}

#[test]
fn test_array_findindex_first() {
    assert_eq!(eval("[5, 10, 15].findIndex(x => x >= 5)"), num(0.0));
}

#[test]
fn test_array_indexof_found() {
    assert_eq!(eval("[1, 2, 3, 4].indexOf(3)"), num(2.0));
}

#[test]
fn test_array_indexof_not_found() {
    assert_eq!(eval("[1, 2, 3].indexOf(5)"), num(-1.0));
}

#[test]
fn test_array_indexof_first_occurrence() {
    assert_eq!(eval("[1, 2, 3, 2, 1].indexOf(2)"), num(1.0));
}

#[test]
fn test_array_indexof_from_index() {
    assert_eq!(eval("[1, 2, 3, 2, 1].indexOf(2, 2)"), num(3.0));
}

#[test]
fn test_array_includes_found() {
    assert_eq!(eval("[1, 2, 3].includes(2)"), JsValue::Boolean(true));
}

#[test]
fn test_array_includes_not_found() {
    assert_eq!(eval("[1, 2, 3].includes(5)"), JsValue::Boolean(false));
}

#[test]
fn test_array_includes_from_index() {
    assert_eq!(eval("[1, 2, 3].includes(1, 1)"), JsValue::Boolean(false));
}

#[test]
fn test_array_slice_basic() {
    assert_eq!(eval("[1, 2, 3, 4, 5].slice(1, 4).length"), num(3.0));
    assert_eq!(eval("[1, 2, 3, 4, 5].slice(1, 4)[0]"), num(2.0));
}

#[test]
fn test_array_slice_no_args() {
    assert_eq!(eval("[1, 2, 3].slice().length"), num(3.0));
}

#[test]
fn test_array_slice_negative() {
    assert_eq!(eval("[1, 2, 3, 4, 5].slice(-2).length"), num(2.0));
    assert_eq!(eval("[1, 2, 3, 4, 5].slice(-2)[0]"), num(4.0));
}

#[test]
fn test_array_slice_start_only() {
    assert_eq!(eval("[1, 2, 3, 4].slice(2).length"), num(2.0));
}

#[test]
fn test_array_concat_arrays() {
    assert_eq!(eval("[1, 2].concat([3, 4]).length"), num(4.0));
    assert_eq!(eval("[1, 2].concat([3, 4])[2]"), num(3.0));
}

#[test]
fn test_array_concat_values() {
    assert_eq!(eval("[1, 2].concat(3, 4).length"), num(4.0));
}

#[test]
fn test_array_concat_mixed() {
    assert_eq!(eval("[1].concat([2, 3], 4, [5]).length"), num(5.0));
}

#[test]
fn test_array_join_default() {
    assert_eq!(eval("[1, 2, 3].join()"), text("1,2,3"));
}

#[test]
fn test_array_join_custom_separator() {
    assert_eq!(eval("[1, 2, 3].join('-')"), text("1-2-3"));
}

#[test]
fn test_array_join_empty() {
    assert_eq!(eval("[1, 2, 3].join('')"), text("123"));
}

#[test]
fn test_array_every_all_pass() {
    assert_eq!(eval("[2, 4, 6].every(x => x % 2 === 0)"), JsValue::Boolean(true));
}

#[test]
fn test_array_every_some_fail() {
    assert_eq!(eval("[2, 3, 6].every(x => x % 2 === 0)"), JsValue::Boolean(false));
}

#[test]
fn test_array_every_empty() {
    assert_eq!(eval("[].every(x => false)"), JsValue::Boolean(true));
}

#[test]
fn test_array_some_one_passes() {
    assert_eq!(eval("[1, 2, 3].some(x => x > 2)"), JsValue::Boolean(true));
}

#[test]
fn test_array_some_none_pass() {
    assert_eq!(eval("[1, 2, 3].some(x => x > 10)"), JsValue::Boolean(false));
}

#[test]
fn test_array_some_empty() {
    assert_eq!(eval("[].some(x => true)"), JsValue::Boolean(false));
}

#[test]
fn test_string_charat() {
    assert_eq!(eval("'hello'.charAt(1)"), text("e"));
}

#[test]
fn test_string_indexof() {
    assert_eq!(eval("'hello world'.indexOf('world')"), num(6.0));
    assert_eq!(eval("'hello'.indexOf('x')"), num(-1.0));
}

#[test]
fn test_string_includes() {
    assert_eq!(eval("'hello world'.includes('world')"), JsValue::Boolean(true));
    assert_eq!(eval("'hello'.includes('x')"), JsValue::Boolean(false));
}

#[test]
fn test_string_startswith() {
    assert_eq!(eval("'hello world'.startsWith('hello')"), JsValue::Boolean(true));
    assert_eq!(eval("'hello world'.startsWith('world')"), JsValue::Boolean(false));
}

#[test]
fn test_string_endswith() {
    assert_eq!(eval("'hello world'.endsWith('world')"), JsValue::Boolean(true));
    assert_eq!(eval("'hello world'.endsWith('hello')"), JsValue::Boolean(false));
}

#[test]
fn test_string_slice() {
    assert_eq!(eval("'hello'.slice(1, 4)"), text("ell"));
    assert_eq!(eval("'hello'.slice(-2)"), text("lo"));
}

#[test]
fn test_string_substring() {
    assert_eq!(eval("'hello'.substring(1, 4)"), text("ell"));
}

#[test]
fn test_string_tolowercase() {
    assert_eq!(eval("'HELLO'.toLowerCase()"), text("hello"));
}

#[test]
fn test_string_touppercase() {
    assert_eq!(eval("'hello'.toUpperCase()"), text("HELLO"));
}

#[test]
fn test_string_trim() {
    assert_eq!(eval("'  hello  '.trim()"), text("hello"));
}

#[test]
fn test_string_trimstart() {
    assert_eq!(eval("'  hello  '.trimStart()"), text("hello  "));
}

#[test]
fn test_string_trimend() {
    assert_eq!(eval("'  hello  '.trimEnd()"), text("  hello"));
}

#[test]
fn test_string_split() {
    assert_eq!(eval("'a,b,c'.split(',').length"), num(3.0));
    assert_eq!(eval("'a,b,c'.split(',')[1]"), text("b"));
}

#[test]
fn test_string_repeat() {
    assert_eq!(eval("'ab'.repeat(3)"), text("ababab"));
}

#[test]
fn test_string_replace() {
    assert_eq!(eval("'hello world'.replace('world', 'rust')"), text("hello rust"));
}

#[test]
fn test_string_padstart() {
    assert_eq!(eval("'5'.padStart(3, '0')"), text("005"));
}

#[test]
fn test_string_padend() {
    assert_eq!(eval("'5'.padEnd(3, '0')"), text("500"));
}

#[test]
fn test_math_abs() {
    assert_eq!(eval("Math.abs(-5)"), num(5.0));
    assert_eq!(eval("Math.abs(5)"), num(5.0));
}

#[test]
fn test_math_floor_ceil_round() {
    assert_eq!(eval("Math.floor(4.7)"), num(4.0));
    assert_eq!(eval("Math.ceil(4.3)"), num(5.0));
    assert_eq!(eval("Math.round(4.5)"), num(5.0));
    assert_eq!(eval("Math.round(4.4)"), num(4.0));
}

#[test]
fn test_math_trunc_sign() {
    assert_eq!(eval("Math.trunc(4.7)"), num(4.0));
    assert_eq!(eval("Math.trunc(-4.7)"), num(-4.0));
    assert_eq!(eval("Math.sign(-5)"), num(-1.0));
    assert_eq!(eval("Math.sign(5)"), num(1.0));
    assert_eq!(eval("Math.sign(0)"), num(0.0));
}

#[test]
fn test_math_min_max() {
    assert_eq!(eval("Math.min(1, 2, 3)"), num(1.0));
    assert_eq!(eval("Math.max(1, 2, 3)"), num(3.0));
}

#[test]
fn test_math_pow_sqrt() {
    assert_eq!(eval("Math.pow(2, 3)"), num(8.0));
    assert_eq!(eval("Math.sqrt(16)"), num(4.0));
}

#[test]
fn test_math_constants() {
    assert!((as_f64(&eval("Math.PI")) - std::f64::consts::PI).abs() < 0.0001);
    assert!((as_f64(&eval("Math.E")) - std::f64::consts::E).abs() < 0.0001);
}

#[test]
fn test_math_random() {
    // Random should return a number between 0 and 1
    let result = eval("Math.random()");
    if let JsValue::Number(_) = result {
        let n = as_f64(&result);
        assert!(n >= 0.0 && n < 1.0);
    } else {
        panic!("Math.random() should return a number");
    }
}

#[test]
fn test_math_cbrt() {
    assert_eq!(eval("Math.cbrt(27)"), num(3.0));
    assert_eq!(eval("Math.cbrt(8)"), num(2.0));
    assert_eq!(eval("Math.cbrt(-8)"), num(-2.0));
}

#[test]
fn test_math_hypot() {
    assert_eq!(eval("Math.hypot(3, 4)"), num(5.0));
    assert_eq!(eval("Math.hypot(5, 12)"), num(13.0));
    assert_eq!(eval("Math.hypot()"), num(0.0));
}

#[test]
fn test_math_log10_log2() {
    assert_eq!(eval("Math.log10(100)"), num(2.0));
    assert_eq!(eval("Math.log10(1000)"), num(3.0));
    assert_eq!(eval("Math.log2(8)"), num(3.0));
    assert_eq!(eval("Math.log2(16)"), num(4.0));
}

#[test]
fn test_parseint() {
    assert_eq!(eval("parseInt('42')"), num(42.0));
    assert_eq!(eval("parseInt('  42  ')"), num(42.0));
    assert_eq!(eval("parseInt('42.5')"), num(42.0));
    assert_eq!(eval("parseInt('ff', 16)"), num(255.0));
    assert_eq!(eval("parseInt('101', 2)"), num(5.0));
}

#[test]
fn test_parsefloat() {
    assert_eq!(eval("parseFloat('3.14')"), num(3.14));
    assert_eq!(eval("parseFloat('  3.14  ')"), num(3.14));
    assert_eq!(eval("parseFloat('3.14abc')"), num(3.14));
}

#[test]
fn test_isnan() {
    assert_eq!(eval("isNaN(NaN)"), JsValue::Boolean(true));
    assert_eq!(eval("isNaN(42)"), JsValue::Boolean(false));
    assert_eq!(eval("isNaN('hello')"), JsValue::Boolean(true));
    assert_eq!(eval("isNaN('42')"), JsValue::Boolean(false));
}

#[test]
fn test_isfinite() {
    assert_eq!(eval("isFinite(42)"), JsValue::Boolean(true));
    assert_eq!(eval("isFinite(Infinity)"), JsValue::Boolean(false));
    assert_eq!(eval("isFinite(-Infinity)"), JsValue::Boolean(false));
    assert_eq!(eval("isFinite(NaN)"), JsValue::Boolean(false));
}

#[test]
fn test_encodeuri() {
    assert_eq!(eval("encodeURI('hello world')"), text("hello%20world"));
    assert_eq!(eval("encodeURI('a=1&b=2')"), text("a=1&b=2"));
    assert_eq!(eval("encodeURI('http://example.com/path?q=hello world')"), text("http://example.com/path?q=hello%20world"));
}

#[test]
fn test_decodeuri() {
    assert_eq!(eval("decodeURI('hello%20world')"), text("hello world"));
    assert_eq!(eval("decodeURI('a=1&b=2')"), text("a=1&b=2"));
}

#[test]
fn test_encodeuricomponent() {
    assert_eq!(eval("encodeURIComponent('hello world')"), text("hello%20world"));
    assert_eq!(eval("encodeURIComponent('a=1&b=2')"), text("a%3D1%26b%3D2"));
    assert_eq!(eval("encodeURIComponent('http://example.com')"), text("http%3A%2F%2Fexample.com"));
}

#[test]
fn test_decodeuricomponent() {
    assert_eq!(eval("decodeURIComponent('hello%20world')"), text("hello world"));
    assert_eq!(eval("decodeURIComponent('a%3D1%26b%3D2')"), text("a=1&b=2"));
}

#[test]
fn test_number_isnan() {
    assert_eq!(eval("Number.isNaN(NaN)"), JsValue::Boolean(true));
    assert_eq!(eval("Number.isNaN(42)"), JsValue::Boolean(false));
    assert_eq!(eval("Number.isNaN('NaN')"), JsValue::Boolean(false)); // Different from global isNaN
}

#[test]
fn test_number_isfinite() {
    assert_eq!(eval("Number.isFinite(42)"), JsValue::Boolean(true));
    assert_eq!(eval("Number.isFinite(Infinity)"), JsValue::Boolean(false));
    assert_eq!(eval("Number.isFinite('42')"), JsValue::Boolean(false)); // Different from global isFinite
}

#[test]
fn test_number_isinteger() {
    assert_eq!(eval("Number.isInteger(42)"), JsValue::Boolean(true));
    assert_eq!(eval("Number.isInteger(42.0)"), JsValue::Boolean(true));
    assert_eq!(eval("Number.isInteger(42.5)"), JsValue::Boolean(false));
    assert_eq!(eval("Number.isInteger('42')"), JsValue::Boolean(false));
}

#[test]
fn test_number_issafeinteger() {
    assert_eq!(eval("Number.isSafeInteger(42)"), JsValue::Boolean(true));
    assert_eq!(eval("Number.isSafeInteger(9007199254740991)"), JsValue::Boolean(true));
    assert_eq!(eval("Number.isSafeInteger(9007199254740992)"), JsValue::Boolean(false));
}

#[test]
fn test_number_constants() {
    assert_eq!(eval("Number.POSITIVE_INFINITY"), num(f64::INFINITY));
    assert_eq!(eval("Number.NEGATIVE_INFINITY"), num(f64::NEG_INFINITY));
    assert_eq!(eval("Number.MAX_SAFE_INTEGER"), num(9007199254740991.0));
    assert_eq!(eval("Number.MIN_SAFE_INTEGER"), num(-9007199254740991.0));
}

#[test]
fn test_number_tofixed() {
    assert_eq!(eval("(3.14159).toFixed(2)"), text("3.14"));
    assert_eq!(eval("(3.14159).toFixed(0)"), text("3"));
    assert_eq!(eval("(3.5).toFixed(0)"), text("4"));
}

#[test]
fn test_number_tostring() {
    assert_eq!(eval("(255).toString(16)"), text("ff"));
    assert_eq!(eval("(10).toString(2)"), text("1010"));
    assert_eq!(eval("(42).toString()"), text("42"));
}

#[test]
fn test_number_toprecision() {
    assert_eq!(eval("(123.456).toPrecision(4)"), text("123.5"));
    assert_eq!(eval("(0.000123).toPrecision(2)"), text("0.00012"));
    assert_eq!(eval("(1234.5).toPrecision(2)"), text("1.2e+3"));
}

#[test]
fn test_number_toexponential() {
    assert_eq!(eval("(123.456).toExponential(2)"), text("1.23e+2"));
    assert_eq!(eval("(0.00123).toExponential(2)"), text("1.23e-3"));
    assert_eq!(eval("(12345).toExponential(1)"), text("1.2e+4"));
}

#[test]
fn test_array_shift() {
    assert_eq!(eval("let a = [1, 2, 3]; a.shift()"), num(1.0));
    assert_eq!(eval("let a = [1, 2, 3]; a.shift(); a.length"), num(2.0));
    assert_eq!(eval("let a = [1, 2, 3]; a.shift(); a[0]"), num(2.0));
    assert_eq!(eval("let a = []; a.shift()"), JsValue::Undefined);
}

#[test]
fn test_array_unshift() {
    assert_eq!(eval("let a = [1, 2, 3]; a.unshift(0)"), num(4.0));
    assert_eq!(eval("let a = [1, 2, 3]; a.unshift(0); a[0]"), num(0.0));
    assert_eq!(eval("let a = [1, 2, 3]; a.unshift(-1, 0); a.length"), num(5.0));
}

#[test]
fn test_array_reverse() {
    assert_eq!(eval("let a = [1, 2, 3]; a.reverse(); a[0]"), num(3.0));
    assert_eq!(eval("let a = [1, 2, 3]; a.reverse(); a[2]"), num(1.0));
}

#[test]
fn test_array_sort() {
    assert_eq!(eval("let a = [3, 1, 2]; a.sort(); a[0]"), num(1.0));
    assert_eq!(eval("let a = [3, 1, 2]; a.sort(); a[2]"), num(3.0));
    assert_eq!(eval("let a = ['c', 'a', 'b']; a.sort(); a[0]"), text("a"));
    // Sort with comparator
    assert_eq!(eval("let a = [3, 1, 2]; a.sort((a, b) => b - a); a[0]"), num(3.0));
}

#[test]
fn test_array_fill() {
    assert_eq!(eval("let a = [1, 2, 3]; a.fill(0); a[1]"), num(0.0));
    assert_eq!(eval("let a = [1, 2, 3]; a.fill(0, 1); a[0]"), num(1.0));
    assert_eq!(eval("let a = [1, 2, 3]; a.fill(0, 1); a[1]"), num(0.0));
    assert_eq!(eval("let a = [1, 2, 3]; a.fill(0, 1, 2); a[2]"), num(3.0));
}

#[test]
fn test_array_copywithin() {
    assert_eq!(eval("let a = [1, 2, 3, 4, 5]; a.copyWithin(0, 3); a[0]"), num(4.0));
    assert_eq!(eval("let a = [1, 2, 3, 4, 5]; a.copyWithin(0, 3); a[1]"), num(5.0));
}

#[test]
fn test_array_splice() {
    assert_eq!(eval("let a = [1, 2, 3]; let r = a.splice(1, 1); r[0]"), num(2.0));
    assert_eq!(eval("let a = [1, 2, 3]; a.splice(1, 1); a.length"), num(2.0));
    assert_eq!(eval("let a = [1, 2, 3]; a.splice(1, 1, 'a', 'b'); a.length"), num(4.0));
    assert_eq!(eval("let a = [1, 2, 3]; a.splice(1, 1, 'a', 'b'); a[1]"), text("a"));
}

#[test]
fn test_array_of() {
    assert_eq!(eval("Array.of(1, 2, 3).length"), num(3.0));
    assert_eq!(eval("Array.of(1, 2, 3)[0]"), num(1.0));
    assert_eq!(eval("Array.of(7).length"), num(1.0));
    assert_eq!(eval("Array.of().length"), num(0.0));
}

#[test]
fn test_array_from() {
    assert_eq!(eval("Array.from([1, 2, 3]).length"), num(3.0));
    assert_eq!(eval("Array.from([1, 2, 3])[1]"), num(2.0));
    // With map function
    assert_eq!(eval("Array.from([1, 2, 3], x => x * 2)[1]"), num(4.0));
}

#[test]
fn test_array_at() {
    assert_eq!(eval("[1, 2, 3].at(0)"), num(1.0));
    assert_eq!(eval("[1, 2, 3].at(2)"), num(3.0));
    assert_eq!(eval("[1, 2, 3].at(-1)"), num(3.0));
    assert_eq!(eval("[1, 2, 3].at(-2)"), num(2.0));
    assert_eq!(eval("[1, 2, 3].at(5)"), JsValue::Undefined);
}

#[test]
fn test_array_lastindexof() {
    assert_eq!(eval("[1, 2, 3, 2, 1].lastIndexOf(2)"), num(3.0));
    assert_eq!(eval("[1, 2, 3].lastIndexOf(4)"), num(-1.0));
}

#[test]
fn test_array_reduceright() {
    assert_eq!(eval("[1, 2, 3].reduceRight((acc, x) => acc + x, 0)"), num(6.0));
    assert_eq!(eval("['a', 'b', 'c'].reduceRight((acc, x) => acc + x, '')"), text("cba"));
}

#[test]
fn test_array_flat() {
    assert_eq!(eval("[[1, 2], [3, 4]].flat()[0]"), num(1.0));
    assert_eq!(eval("[[1, 2], [3, 4]].flat().length"), num(4.0));
    assert_eq!(eval("[1, [2, [3]]].flat(2).length"), num(3.0));
}

#[test]
fn test_array_flatmap() {
    assert_eq!(eval("[1, 2, 3].flatMap(x => [x, x * 2]).length"), num(6.0));
    assert_eq!(eval("[1, 2, 3].flatMap(x => [x, x * 2])[1]"), num(2.0));
}

#[test]
fn test_object_hasownproperty() {
    assert_eq!(eval("({a: 1}).hasOwnProperty('a')"), JsValue::Boolean(true));
    assert_eq!(eval("({a: 1}).hasOwnProperty('b')"), JsValue::Boolean(false));
    assert_eq!(eval("let o = {x: 1}; o.hasOwnProperty('x')"), JsValue::Boolean(true));
}

#[test]
fn test_object_tostring() {
    assert_eq!(eval("({}).toString()"), text("[object Object]"));
    assert_eq!(eval("[1,2,3].toString()"), text("1,2,3"));
}

#[test]
fn test_string_concat() {
    assert_eq!(eval("'hello'.concat(' ', 'world')"), text("hello world"));
}

#[test]
fn test_string_charat_index() {
    assert_eq!(eval("'hello'.charCodeAt(0)"), num(104.0));
    assert_eq!(eval("'hello'.charCodeAt(1)"), num(101.0));
}

#[test]
fn test_string_fromcharcode() {
    assert_eq!(eval("String.fromCharCode(104, 105)"), text("hi"));
}

#[test]
fn test_string_lastindexof() {
    assert_eq!(eval("'hello world'.lastIndexOf('o')"), num(7.0));
    assert_eq!(eval("'hello world'.lastIndexOf('l')"), num(9.0));
    assert_eq!(eval("'hello world'.lastIndexOf('x')"), num(-1.0));
    assert_eq!(eval("'hello world'.lastIndexOf('o', 5)"), num(4.0));
    assert_eq!(eval("'hello'.lastIndexOf('')"), num(5.0));
}

#[test]
fn test_string_at() {
    assert_eq!(eval("'hello'.at(0)"), text("h"));
    assert_eq!(eval("'hello'.at(1)"), text("e"));
    assert_eq!(eval("'hello'.at(-1)"), text("o"));
    assert_eq!(eval("'hello'.at(-2)"), text("l"));
    assert_eq!(eval("'hello'.at(10)"), JsValue::Undefined);
    assert_eq!(eval("'hello'.at(-10)"), JsValue::Undefined);
}

#[test]
fn test_string_replaceall() {
    assert_eq!(eval("'aabbcc'.replaceAll('b', 'x')"), text("aaxxcc"));
    assert_eq!(eval("'hello world'.replaceAll('o', '0')"), text("hell0 w0rld"));
    assert_eq!(eval("'aaa'.replaceAll('a', 'bb')"), text("bbbbbb"));
    assert_eq!(eval("'hello'.replaceAll('x', 'y')"), text("hello"));
    assert_eq!(eval("''.replaceAll('a', 'b')"), text(""));
}

#[test]
fn test_console_methods() {
    // All console methods return undefined
    assert_eq!(eval("console.log('test')"), JsValue::Undefined);
    assert_eq!(eval("console.error('test')"), JsValue::Undefined);
    assert_eq!(eval("console.warn('test')"), JsValue::Undefined);
    assert_eq!(eval("console.info('test')"), JsValue::Undefined);
    assert_eq!(eval("console.debug('test')"), JsValue::Undefined);
}

#[test]
fn test_array_findlast() {
    assert_eq!(eval("[1, 2, 3, 2].findLast(x => x === 2)"), num(2.0));
    assert_eq!(eval("[1, 2, 3].findLast(x => x > 1)"), num(3.0));
    assert_eq!(eval("[1, 2, 3].findLast(x => x > 10)"), JsValue::Undefined);
}

#[test]
fn test_array_findlastindex() {
    assert_eq!(eval("[1, 2, 3, 2].findLastIndex(x => x === 2)"), num(3.0));
    assert_eq!(eval("[1, 2, 3].findLastIndex(x => x > 1)"), num(2.0));
    assert_eq!(eval("[1, 2, 3].findLastIndex(x => x > 10)"), num(-1.0));
}

#[test]
fn test_array_toreversed() {
    assert_eq!(eval("let a = [1, 2, 3]; let b = a.toReversed(); b[0]"), num(3.0));
    assert_eq!(eval("let a = [1, 2, 3]; let b = a.toReversed(); a[0]"), num(1.0)); // the receiver is unchanged
}

#[test]
fn test_array_tosorted() {
    assert_eq!(eval("let a = [3, 1, 2]; let b = a.toSorted(); b[0]"), num(1.0));
    assert_eq!(eval("let a = [3, 1, 2]; let b = a.toSorted(); a[0]"), num(3.0)); // the receiver is unchanged
}

#[test]
fn test_array_tospliced() {
    assert_eq!(eval("[1, 2, 3].toSpliced(1, 1, 'a', 'b')[1]"), text("a"));
    assert_eq!(eval("[1, 2, 3].toSpliced(1, 1, 'a', 'b').length"), num(4.0));
}

#[test]
fn test_array_with() {
    assert_eq!(eval("[1, 2, 3].with(1, 'x')[1]"), text("x"));
    assert_eq!(eval("let a = [1, 2, 3]; let b = a.with(1, 'x'); a[1]"), num(2.0)); // the receiver is unchanged
}

#[test]
fn test_object_fromentries() {
    assert_eq!(eval("Object.fromEntries([['a', 1], ['b', 2]]).a"), num(1.0));
    assert_eq!(eval("Object.fromEntries([['a', 1], ['b', 2]]).b"), num(2.0));
}

#[test]
fn test_object_hasown() {
    assert_eq!(eval("Object.hasOwn({a: 1}, 'a')"), JsValue::Boolean(true));
    assert_eq!(eval("Object.hasOwn({a: 1}, 'b')"), JsValue::Boolean(false));
}

#[test]
fn test_object_create() {
    assert_eq!(eval("Object.create(null).hasOwnProperty"), JsValue::Undefined);
    assert_eq!(eval("let proto = {x: 1}; let o = Object.create(proto); o.x"), num(1.0));
}

#[test]
fn test_object_freeze() {
    assert_eq!(eval("let o = {a: 1}; Object.freeze(o); o.a = 2; o.a"), num(1.0));
    assert_eq!(eval("Object.isFrozen(Object.freeze({a: 1}))"), JsValue::Boolean(true));
}

#[test]
fn test_object_seal() {
    assert_eq!(eval("Object.isSealed(Object.seal({a: 1}))"), JsValue::Boolean(true));
}


#[test]
fn enums_number_members_and_map_back() {
    assert_eq!(eval("enum Rarity { Common, Rare, Epic, Legendary } Rarity.Epic"), num(2.0));
    assert_eq!(eval("enum Rarity { Common, Rare, Epic, Legendary } Rarity[3]"), JsValue::String("Legendary".chars().collect()));
    assert_eq!(eval("enum E { A = 5, B, C = 10, D } E.B + E.D"), num(17.0));
    assert_eq!(eval("enum Color { Red = 'red', Green = 'green' } Color.Green"), JsValue::String("green".chars().collect()));
    assert_eq!(eval("const enum Dir { Up, Down } Dir.Down"), num(1.0));
    assert_eq!(eval("enum Rarity { Common, Rare } const x = Rarity.Rare; x === Rarity.Rare"), JsValue::Boolean(true));
}

#[test]
fn declarations_and_assignments_give_the_last_value() {
    assert_eq!(eval("let x = 5; x"), num(5.0));
    assert_eq!(eval("let x = 5; x = 10; x"), num(10.0));
    assert_eq!(eval("var a = 1; let b = a + 1; b * 3"), num(6.0));
    assert_eq!(eval("let s = 'a'; s = s + 'b'"), JsValue::String("ab".chars().collect()));
}

#[test]
fn destructuring_a_non_object_is_a_type_error() {
    assert!(matches!(run("const { x } = 1; x"), Err(JsError::Raised(ErrorKind::TypeError, _))));
    assert!(matches!(run("const { x } = null; x"), Err(JsError::Raised(ErrorKind::TypeError, _))));
    assert_eq!(eval("const [a, b, ...rest] = [1, 2, 3, 4]; a + b + rest.length"), num(5.0));
    assert_eq!(eval("const [p, q = 9, r] = [1]; q + p"), num(10.0));
}

#[test]
fn calling_a_non_function_is_a_type_error() {
    match run("const n = 1; n()") {
        Err(JsError::Raised(ErrorKind::TypeError, _)) => {},
        other => panic!("unexpected {:?}", other),
    }
}

#[test]
fn exponentiation_of_integers_is_exact() {
    assert_eq!(eval("2 ** 3"), num(8.0));
    assert_eq!(eval("(-3) ** 3"), num(-27.0));
    assert_eq!(eval("10 ** 16"), num(10000000000000000.0));
    assert_eq!(eval("7 ** 0"), num(1.0));
}

#[test]
fn if_statements_complete_with_their_branch() {
    assert_eq!(eval("let x = 3; if (x > 2) { 'big' } else { 'small' }"), text("big"));
    assert_eq!(eval("let x = 1; if (x > 2) 'big'; else 'small';"), text("small"));
    assert_eq!(eval("let y = 7; if (y === 0) 1; y"), num(7.0));
}

#[test]
fn member_reads_follow_the_prototype_chain() {
    assert_eq!(eval("const o = { a: 1 }; o.a"), num(1.0));
    assert_eq!(eval("const o = { a: 1 }; o.b"), JsValue::Undefined);
    assert_eq!(eval("const a = [1, 2, 3]; a.length"), num(3.0));
}

#[test]
fn global_is_nan_converts_and_number_is_nan_does_not() {
    assert_eq!(eval("isNaN(NaN)"), JsValue::Boolean(true));
    assert_eq!(eval("isNaN(5)"), JsValue::Boolean(false));
    assert_eq!(eval("let x = 2; isFinite(x * 3)"), JsValue::Boolean(true));
    assert_eq!(eval("Number.isNaN('NaN')"), JsValue::Boolean(false));
}
