use tsrun::builtins::generator::{
    create_bytecode_generator_object, generator_iterator, generator_next, generator_return, generator_throw,
    init_generator_prototype,
};
use tsrun::interpreter::Interpreter;
use tsrun::number::{string_to_number, JsNumber};
use tsrun::parser::parse_program;
use tsrun::value::{ErrorKind, GeneratorStatus, JsError, JsValue};

fn key(s: &str) -> Vec<char> {
    s.chars().collect()
}

fn num(x: i64) -> JsValue {
    let digits: Vec<char> = format!("{}", x).chars().collect();
    JsValue::Number(string_to_number(&digits))
}

fn generator(interp: &mut Interpreter, status: GeneratorStatus) -> JsValue {
    let proto = init_generator_prototype(interp);
    JsValue::Object(create_bytecode_generator_object(interp, proto, status))
}

fn result_fields(interp: &Interpreter, r: Result<JsValue, JsError>) -> (Option<JsValue>, Option<JsValue>) {
    match r {
        Ok(JsValue::Object(id)) => (interp.get_own(id, &key("value")), interp.get_own(id, &key("done"))),
        other => panic!("expected an iteration result, got {:?}", other),
    }
}

fn run(source: &str) -> Result<JsValue, JsError> {
    let program = parse_program(source).unwrap();
    let mut interp = Interpreter::new();
    interp.execute(&program)
}

fn console_lines(source: &str) -> Vec<String> {
    let program = parse_program(source).unwrap();
    let mut interp = Interpreter::new();
    interp.execute(&program).unwrap();
    interp.console.lines.iter().map(|(_, t)| t.iter().collect()).collect()
}

#[test]
fn next_of_a_finished_generator_is_done() {
    let mut interp = Interpreter::new();
    let g = generator(&mut interp, GeneratorStatus::Completed);
    let r = generator_next(&mut interp, g, vec![num(1)]);
    assert_eq!(result_fields(&interp, r), (Some(JsValue::Undefined), Some(JsValue::Boolean(true))));
}

#[test]
fn next_on_a_non_object_is_a_type_error() {
    let mut interp = Interpreter::new();
    let r = generator_next(&mut interp, num(3), vec![]);
    assert!(matches!(r, Err(JsError::Raised(ErrorKind::TypeError, _))));
    let plain = JsValue::Object(interp.create_object());
    let r = generator_next(&mut interp, plain, vec![]);
    assert!(matches!(r, Err(JsError::Raised(ErrorKind::TypeError, _))));
}

#[test]
fn return_finishes_the_generator() {
    let mut interp = Interpreter::new();
    let g = generator(&mut interp, GeneratorStatus::SuspendedStart);
    let r = generator_return(&mut interp, g.copy(), vec![num(5)]);
    assert_eq!(result_fields(&interp, r), (Some(num(5)), Some(JsValue::Boolean(true))));
    let r = generator_next(&mut interp, g, vec![]);
    assert_eq!(result_fields(&interp, r), (Some(JsValue::Undefined), Some(JsValue::Boolean(true))));
}

#[test]
fn throw_before_start_finishes_and_rethrows() {
    let mut interp = Interpreter::new();
    let g = generator(&mut interp, GeneratorStatus::SuspendedStart);
    let r = generator_throw(&mut interp, g.copy(), vec![num(7)]);
    assert!(matches!(r, Err(JsError::Thrown(v)) if v == num(7)));
    let r = generator_throw(&mut interp, g.copy(), vec![num(8)]);
    assert!(matches!(r, Err(JsError::Thrown(v)) if v == num(8)));
    let r = generator_next(&mut interp, g, vec![]);
    assert_eq!(result_fields(&interp, r), (Some(JsValue::Undefined), Some(JsValue::Boolean(true))));
}

#[test]
fn a_suspended_body_cannot_be_resumed() {
    let mut interp = Interpreter::new();
    let g = generator(&mut interp, GeneratorStatus::SuspendedYield);
    match generator_next(&mut interp, g.copy(), vec![]) {
        Err(JsError::Raised(ErrorKind::TypeError, m)) => {
            assert_eq!(m.iter().collect::<String>(), "Async/generators not supported")
        },
        other => panic!("unexpected {:?}", other),
    }
    assert!(matches!(generator_throw(&mut interp, g, vec![]), Err(JsError::Raised(ErrorKind::TypeError, _))));
}

#[test]
fn the_iterator_of_a_generator_is_itself() {
    let mut interp = Interpreter::new();
    let g = generator(&mut interp, GeneratorStatus::SuspendedStart);
    assert_eq!(generator_iterator(&mut interp, g.copy(), vec![]).unwrap(), g);
}

#[test]
fn console_shows_arrays_and_wrappers() {
    let lines = console_lines("console.log([1, 'a', true, null]); console.log(new Boolean(false)); console.log({}); console.log([]);");
    assert_eq!(lines, vec!["[1, a, true, null]", "[Boolean: false]", "{}", "[]"]);
}

#[test]
fn math_min_and_max_of_integers_and_nan() {
    assert_eq!(run("Math.min(4, -2, 9)").unwrap(), num(-2));
    assert_eq!(run("Math.max(4, -2, 9)").unwrap(), num(9));
    assert_eq!(run("Math.max()").unwrap(), JsValue::Number(JsNumber::Infinity { neg: true }));
    assert!(matches!(run("Math.min(1, NaN, 3)"), Ok(JsValue::Number(JsNumber::NaN))));
}
