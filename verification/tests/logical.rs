use temen::engine::context::Context;
use temen::engine::registry::NoExtension;
use temen::engine::Engine;
use temen::error::{Detail, ErrorKind};
use temen::parser::parse;
use temen::value::float::{Float, FloatMath, NoFloatMath};
use temen::value::Value;

struct Native;

fn of(bits: Float) -> f64 {
    f64::from_bits(bits.bits)
}

fn float_of(x: f64) -> Float {
    Float::from_bits(x.to_bits())
}

impl FloatMath for Native {
    fn add(&self, a: Float, b: Float) -> Float {
        float_of(of(a) + of(b))
    }

    fn sub(&self, a: Float, b: Float) -> Float {
        float_of(of(a) - of(b))
    }

    fn pow(&self, base: Float, exponent: Float) -> Float {
        float_of(of(base).powf(of(exponent)))
    }

    fn log10(&self, x: Float) -> Float {
        float_of(of(x).log10())
    }

    fn parse(&self, literal: &str) -> Float {
        float_of(literal.parse::<f64>().unwrap_or(f64::NAN))
    }
}

fn eval(text: &str) -> Result<Value, temen::error::Error> {
    let engine: Engine<Native, NoExtension, NoExtension> = Engine::new(Native);
    let mut context = Context::default();
    engine.eval(&parse(text, &Native).unwrap(), None, &mut context)
}

fn test_eval_eq(text: &str, expected: Value) {
    assert_eq!(eval(text).unwrap(), expected, "{}", text);
}

fn yes() -> Value {
    Value::Bool(true)
}

fn no() -> Value {
    Value::Bool(false)
}

#[test]
fn equal() {
    test_eval_eq("true == true", yes());
    test_eval_eq("true == false", no());

    test_eval_eq("1 == 1", yes());
    test_eval_eq("1 == 2", no());

    test_eval_eq("1.0 == 1", yes());
    test_eval_eq("1.0 == 2", no());

    test_eval_eq("`abc` == 'abc'", yes());
    test_eval_eq("`abc` == 'ab'", no());
}

#[test]
fn equal_with_filter() {
    test_eval_eq("`abc` | UPPER == 'ABC'", yes());
    test_eval_eq("`ABC` | LOWER == 'abc'", yes());
    test_eval_eq("`ABC` == 'abc' | UPPER", yes());
    test_eval_eq("`abc` == 'ABC' | LOWER", yes());
}

#[test]
fn not_equal() {
    test_eval_eq("true != true", no());
    test_eval_eq("true != false", yes());

    test_eval_eq("1 != 1", no());
    test_eval_eq("1 != 2", yes());

    test_eval_eq("1.0 != 1", no());
    test_eval_eq("1.0 != 2", yes());

    test_eval_eq("`abc` != 'abc'", no());
    test_eval_eq("`abc` != 'ab'", yes());
}

#[test]
fn not() {
    test_eval_eq("not false", yes());
    test_eval_eq("not 1 + 1 == 3", yes());
}

#[test]
fn greater_than() {
    test_eval_eq("1 > 1", no());
    test_eval_eq("1 > 2", no());
    test_eval_eq("3 > 2", yes());

    test_eval_eq("3.0 > 2", yes());
    test_eval_eq("3 > 2.0", yes());
}

#[test]
fn greater_than_or_equal() {
    test_eval_eq("1 >= 1", yes());
    test_eval_eq("1 >= 2", no());
    test_eval_eq("3 >= 2", yes());

    test_eval_eq("3.0 >= 2", yes());
    test_eval_eq("3 >= 2.0", yes());
}

#[test]
fn lower() {
    test_eval_eq("1 < 1", no());
    test_eval_eq("1 < 2", yes());
    test_eval_eq("3 < 2", no());

    test_eval_eq("3.0 < 2", no());
    test_eval_eq("3 < 2.0", no());
}

#[test]
fn lower_or_equal() {
    test_eval_eq("1 <= 1", yes());
    test_eval_eq("1 <= 2", yes());
    test_eval_eq("3 <= 2", no());

    test_eval_eq("3.0 <= 2", no());
    test_eval_eq("3 <= 2.0", no());
}

#[test]
fn and() {
    test_eval_eq("true and true", yes());
    test_eval_eq("true and false", no());

    test_eval_eq("1 + 1 == 2 and true", yes());
    test_eval_eq("1 + 1 > 1 and 3 < 2", no());
}

#[test]
fn or() {
    test_eval_eq("true or true", yes());
    test_eval_eq("true or false", yes());

    test_eval_eq("1 + 1 == 2 or false", yes());
    test_eval_eq("1 + 1 > 1 or 3 < 2", yes());
}

#[test]
fn short_circuit_skips_the_right_operand() {
    // the right operand would fail: `na` is no key, `NOPE` no function
    test_eval_eq("false and na", no());
    test_eval_eq("true or NOPE()", yes());
    test_eval_eq("1 == 2 and 1 > 'a'", no());
    assert_eq!(eval("true and na").unwrap_err().kind, ErrorKind::NotAnObject);
    assert_eq!(eval("false or NOPE()").unwrap_err().kind, ErrorKind::UnknownFunction);
    // an undecided left operand must still be a boolean
    assert_eq!(eval("1 and true").unwrap_err().kind, ErrorKind::TypeMismatch);
    assert_eq!(eval("true and 1").unwrap_err().kind, ErrorKind::TypeMismatch);
    assert_eq!(eval("not 1").unwrap_err().kind, ErrorKind::TypeMismatch);
}

#[test]
fn equality_across_kinds_is_false_and_order_across_kinds_fails() {
    test_eval_eq("'1' == 1", no());
    test_eval_eq("'1' != 1", yes());
    test_eval_eq("'true' == true", no());
    test_eval_eq("1 == true", no());
    test_eval_eq("0.0 == false", no());
    let err = eval("'a' > true").unwrap_err();
    assert_eq!(err.kind, ErrorKind::TypeMismatch);
    assert_eq!(err.context, vec![("operator", Detail::Text(">".to_string()))]);
    assert_eq!(eval("'a' < 1").unwrap_err().kind, ErrorKind::TypeMismatch);
    assert_eq!(eval("true >= false").unwrap_err().kind, ErrorKind::TypeMismatch);
}

#[test]
fn strings_are_ordered_by_code_point() {
    test_eval_eq("'a' < 'b'", yes());
    test_eval_eq("'a' < 'ab'", yes());
    test_eval_eq("'ab' < 'a'", no());
    test_eval_eq("'b' > 'ab'", yes());
    test_eval_eq("'' <= ''", yes());
    test_eval_eq("'Z' < 'a'", yes());
    test_eval_eq("'é' > 'z'", yes());
    test_eval_eq("'\u{10000}' > '\u{ffff}'", yes());
}

#[test]
fn numbers_compare_by_value() {
    test_eval_eq("0.0 == -0.0", yes());
    test_eval_eq("-0.5 < -0.25", yes());
    test_eval_eq("-1 < 0.5", yes());
    test_eval_eq("-3.5 < -3", yes());
    test_eval_eq("9007199254740993 == 9007199254740992.0", yes());
    test_eval_eq("9007199254740993 == 9007199254740992", no());
    test_eval_eq("9223372036854775807 == 9223372036854775808.0", yes());
}

#[test]
fn addition_and_subtraction() {
    test_eval_eq("1 + 2", Value::Integer(3));
    test_eval_eq("1 - 2", Value::Integer(-1));
    test_eval_eq("1 - 2 - 3", Value::Integer(-4));
    test_eval_eq("1.5 + 2", Value::Float(float_of(3.5)));
    test_eval_eq("1 - 0.5", Value::Float(float_of(0.5)));
    test_eval_eq("9223372036854775807 + 1", Value::Integer(i64::MIN));
    test_eval_eq("-9223372036854775808 - 1", Value::Integer(i64::MAX));
    let err = eval("1 + 'a'").unwrap_err();
    assert_eq!(err.kind, ErrorKind::TypeMismatch);
    assert_eq!(err.context, vec![("operator", Detail::Text("+".to_string()))]);
    let huge = format!("{:.1} + {:.1}", f64::MAX, f64::MAX);
    let err = eval(&huge).unwrap_err();
    assert_eq!(err.kind, ErrorKind::NonFiniteResult);
    assert_eq!(err.context, vec![("operator", Detail::Text("+".to_string()))]);
}

#[test]
fn built_in_functions_and_filters() {
    test_eval_eq("POW(10, 2)", Value::Integer(100));
    test_eval_eq("MAX(1, 5, 3)", Value::Integer(5));
    test_eval_eq("MIN(-10.5, 200, -10)", Value::Float(float_of(-10.5)));
    test_eval_eq("LOG10(100000) == 5.0", yes());
    test_eval_eq("POW(MAX(1, 2), MIN(3, 4)) + 1", Value::Integer(9));
    test_eval_eq("'   a   ' | TRIM", Value::String("a".to_string()));
    test_eval_eq("' a ' | TRIM | UPPER", Value::String("A".to_string()));
    assert_eq!(eval("POW(-7, 0.5)").unwrap_err().kind, ErrorKind::NonFiniteResult);
    assert_eq!(eval("LOG10(0)").unwrap_err().kind, ErrorKind::NonFiniteResult);
    assert_eq!(eval("MIN()").unwrap_err().kind, ErrorKind::InvalidArgumentCount);
    assert_eq!(eval("MAX()").unwrap_err().kind, ErrorKind::InvalidArgumentCount);
    assert_eq!(eval("1 | TRIM").unwrap_err().kind, ErrorKind::InvalidArgumentType);
}

#[test]
fn unknown_names() {
    let err = eval("NOPE(1)").unwrap_err();
    assert_eq!(err.kind, ErrorKind::UnknownFunction);
    assert_eq!(err.context, vec![("function", Detail::Text("NOPE".to_string()))]);
    let err = eval("1 | nope").unwrap_err();
    assert_eq!(err.kind, ErrorKind::UnknownFilter);
    assert_eq!(err.context, vec![("filter", Detail::Text("nope".to_string()))]);
    // names are case-sensitive
    assert_eq!(eval("pow(1, 2)").unwrap_err().kind, ErrorKind::UnknownFunction);
    assert_eq!(eval("'a' | trim").unwrap_err().kind, ErrorKind::UnknownFilter);
    // a name is looked up before its arguments are evaluated
    assert_eq!(eval("NOPE(na)").unwrap_err().kind, ErrorKind::UnknownFunction);
    // a failing step ends the chain
    assert_eq!(eval("1 | TRIM | nope").unwrap_err().kind, ErrorKind::InvalidArgumentType);
}

#[test]
fn without_float_arithmetic_integers_are_all_there_is() {
    let engine: Engine<NoFloatMath, NoExtension, NoExtension> = Engine::new(NoFloatMath);
    let mut context = Context::default();
    let mut run = |text: &str| match parse(text, &NoFloatMath) {
        Ok(expression) => engine.eval(&expression, None, &mut context),
        Err(e) => Err(e),
    };
    assert_eq!(run("1 + 2 == 3 and POW(2, 10) == 1024").unwrap(), yes());
    assert_eq!(run("MAX(1, 2, 3) - MIN(1, 2, 3)").unwrap(), Value::Integer(2));
    assert_eq!(run("1.5").unwrap_err().kind, ErrorKind::InfiniteFloat);
    assert_eq!(run("POW(2, -1)").unwrap_err().kind, ErrorKind::NonFiniteResult);
    assert_eq!(run("LOG10(10)").unwrap_err().kind, ErrorKind::NonFiniteResult);
    assert!(!NoFloatMath.add(float_of(1.0), float_of(2.0)).is_finite());
    assert!(!NoFloatMath.sub(float_of(1.0), float_of(2.0)).is_finite());
}
