use temen::builtin::function::math::{finite_number, log10, max, min, pow, validate_args_len};
use temen::engine::context::Context;
use temen::error::{Category, Detail, ErrorKind};
use temen::value::float::{Float, FloatMath};
use temen::value::integer::wrapping_power;
use temen::value::Value;

struct Native;

fn of(bits: Float) -> f64 {
    f64::from_bits(bits.bits)
}

fn float(x: f64) -> Float {
    Float::from_bits(x.to_bits())
}

impl FloatMath for Native {
    fn add(&self, a: Float, b: Float) -> Float {
        float(of(a) + of(b))
    }

    fn sub(&self, a: Float, b: Float) -> Float {
        float(of(a) - of(b))
    }

    fn pow(&self, base: Float, exponent: Float) -> Float {
        float(of(base).powf(of(exponent)))
    }

    fn log10(&self, x: Float) -> Float {
        float(of(x).log10())
    }

    fn parse(&self, literal: &str) -> Float {
        float(literal.parse::<f64>().unwrap_or(f64::NAN))
    }
}

fn integer(i: i64) -> Value {
    Value::Integer(i)
}

fn num(x: f64) -> Value {
    Value::Float(float(x))
}

fn as_i64(v: Value) -> i64 {
    v.as_i64().unwrap()
}

fn as_f64(v: Value) -> f64 {
    of(v.as_float().unwrap())
}

fn assert_close(a: f64, b: f64) {
    let scale = a.abs().max(b.abs());
    assert!((a - b).abs() <= f64::EPSILON * scale.max(1.0), "{} is not close to {}", a, b);
}

#[test]
fn min_multiple_values() {
    let mut ctx = Context::default();
    let args = [-100, 200, 10_000, -1, -10_235].iter().map(|x| integer(*x)).collect::<Vec<Value>>();

    let result = as_i64(min(&args, &mut ctx).unwrap());
    assert_eq!(result, -10_235);
}

#[test]
fn min_two_values() {
    let mut ctx = Context::default();
    let args = [-100, 200].iter().map(|x| integer(*x)).collect::<Vec<Value>>();

    let result = as_i64(min(&args, &mut ctx).unwrap());
    assert_eq!(result, -100);
}

#[test]
fn min_with_floats_and_integers() {
    let mut ctx = Context::default();
    let args = vec![num(-10.5), integer(200), integer(-10)];

    let result = as_f64(min(&args, &mut ctx).unwrap());
    assert_close(result, -10.5);
}

#[test]
fn min_fails_without_arguments() {
    let mut ctx = Context::default();
    assert!(min(&[], &mut ctx).is_err());
}

#[test]
fn min_fails_with_strings() {
    let mut ctx = Context::default();
    let args = vec![num(-10.5), Value::String("foo".to_string())];

    assert!(min(&args, &mut ctx).is_err());
}

#[test]
fn max_multiple_values() {
    let mut ctx = Context::default();
    let args = [1, 2, 3, 4].iter().map(|x| integer(*x)).collect::<Vec<Value>>();

    let result = as_i64(max(&args, &mut ctx).unwrap());
    assert_eq!(result, 4);
}

#[test]
fn max_two_values() {
    let mut ctx = Context::default();
    let args = [10, 7].iter().map(|x| integer(*x)).collect::<Vec<Value>>();

    let result = as_i64(max(&args, &mut ctx).unwrap());
    assert_eq!(result, 10);
}

#[test]
fn max_fails_without_arguments() {
    let mut ctx = Context::default();
    assert!(max(&[], &mut ctx).is_err());
}

#[test]
fn max_fails_with_strings() {
    let mut ctx = Context::default();
    let args = vec![num(-10.5), Value::String("foo".to_string())];

    assert!(max(&args, &mut ctx).is_err());
}

#[test]
fn pow_10_2() {
    let mut ctx = Context::default();
    let args = vec![integer(10), integer(2)];

    let result = as_i64(pow(&args, &mut ctx, &Native).unwrap());
    assert_eq!(result, 100);
}

#[test]
fn pow_7_3() {
    let mut ctx = Context::default();
    let args = vec![integer(7), integer(3)];

    let result = as_i64(pow(&args, &mut ctx, &Native).unwrap());
    assert_eq!(result, 343);
}

#[test]
fn pow_4_0_5() {
    let mut ctx = Context::default();
    let args = vec![integer(4), num(0.5)];

    let result = as_f64(pow(&args, &mut ctx, &Native).unwrap());
    assert_close(result, 2.0);
}

#[test]
fn pow_7_minus_2() {
    let mut ctx = Context::default();
    let args = vec![integer(7), integer(-2)];

    let result = as_f64(pow(&args, &mut ctx, &Native).unwrap());
    assert_close(result, 0.020_408_163_265_306_12);
}

#[test]
fn pow_minus_7_0_5() {
    let mut ctx = Context::default();
    let args = vec![integer(-7), num(0.5)];

    assert!(pow(&args, &mut ctx, &Native).is_err());
}

#[test]
fn log10_100000() {
    let mut ctx = Context::default();

    let args = vec![integer(100_000)];
    let result = as_f64(log10(&args, &mut ctx, &Native).unwrap());
    assert_close(result, 5.0);
}

#[test]
fn log10_2() {
    let mut ctx = Context::default();

    let args = vec![integer(2)];
    let result = as_f64(log10(&args, &mut ctx, &Native).unwrap());
    assert_close(result, 0.301_029_995_663_981_2);
}

#[test]
fn log10_1() {
    let mut ctx = Context::default();

    let args = vec![integer(1)];
    let result = as_f64(log10(&args, &mut ctx, &Native).unwrap());
    assert_close(result, 0.0);
}

#[test]
fn log10_0() {
    // The result is -inf, which no value can hold.
    let mut ctx = Context::default();
    let args = vec![integer(0)];
    assert!(log10(&args, &mut ctx, &Native).is_err());
}

#[test]
fn pow_result_is_an_integer_on_the_integer_path() {
    let mut ctx = Context::default();
    assert_eq!(pow(&[integer(10), integer(2)], &mut ctx, &Native).unwrap(), integer(100));
    assert_eq!(pow(&[integer(-3), integer(3)], &mut ctx, &Native).unwrap(), integer(-27));
    assert_eq!(pow(&[integer(5), integer(0)], &mut ctx, &Native).unwrap(), integer(1));
}

#[test]
fn pow_wraps_around() {
    let mut ctx = Context::default();
    assert_eq!(pow(&[integer(2), integer(63)], &mut ctx, &Native).unwrap(), integer(i64::MIN));
    assert_eq!(pow(&[integer(2), integer(64)], &mut ctx, &Native).unwrap(), integer(0));
    assert_eq!(pow(&[integer(3), integer(41)], &mut ctx, &Native).unwrap(), integer(3i64.wrapping_pow(41)));
    assert_eq!(wrapping_power(-7, 23), (-7i64).wrapping_pow(23));
    assert_eq!(wrapping_power(-1, u64::MAX), -1);
    assert_eq!(wrapping_power(0, 1 << 32), 0);
}

#[test]
fn pow_arity_is_two() {
    let mut ctx = Context::default();
    let err = pow(&[integer(1)], &mut ctx, &Native).unwrap_err();
    assert_eq!(err.kind, ErrorKind::InvalidArgumentCount);
    assert_eq!(err.category(), Category::Eval);
    assert_eq!(
        err.context,
        vec![
            ("function", Detail::Text("POW".to_string())),
            ("argument count", Detail::Count(1)),
            ("expected", Detail::Count(2)),
        ]
    );
    let err = pow(&[integer(1), integer(2), integer(3)], &mut ctx, &Native).unwrap_err();
    assert_eq!(err.kind, ErrorKind::InvalidArgumentCount);
    assert_eq!(err.context[1], ("argument count", Detail::Count(3)));
}

#[test]
fn pow_rejects_what_is_no_number() {
    let mut ctx = Context::default();
    let err = pow(&[integer(1), Value::Bool(true)], &mut ctx, &Native).unwrap_err();
    assert_eq!(err.kind, ErrorKind::InvalidArgumentType);
    let err = pow(&[Value::Null, integer(1)], &mut ctx, &Native).unwrap_err();
    assert_eq!(err.kind, ErrorKind::InvalidArgumentType);
}

#[test]
fn non_finite_results_name_the_function() {
    let mut ctx = Context::default();
    let err = log10(&[integer(-1)], &mut ctx, &Native).unwrap_err();
    assert_eq!(err.kind, ErrorKind::NonFiniteResult);
    assert_eq!(err.context, vec![("function", Detail::Text("LOG10".to_string()))]);
    let err = finite_number(float(f64::INFINITY), "POW").unwrap_err();
    assert_eq!(err.kind, ErrorKind::NonFiniteResult);
    assert_eq!(finite_number(float(1.5), "POW").unwrap(), num(1.5));
}

#[test]
fn log10_arity_and_type() {
    let mut ctx = Context::default();
    assert_eq!(log10(&[], &mut ctx, &Native).unwrap_err().kind, ErrorKind::InvalidArgumentCount);
    assert_eq!(
        log10(&[integer(1), integer(2)], &mut ctx, &Native).unwrap_err().kind,
        ErrorKind::InvalidArgumentCount
    );
    assert_eq!(
        log10(&[Value::String("1".to_string())], &mut ctx, &Native).unwrap_err().kind,
        ErrorKind::InvalidArgumentType
    );
}

#[test]
fn max_and_min_of_integers_stay_integers() {
    let mut ctx = Context::default();
    assert_eq!(max(&[integer(3)], &mut ctx).unwrap(), integer(3));
    assert_eq!(max(&[integer(i64::MIN), integer(i64::MAX)], &mut ctx).unwrap(), integer(i64::MAX));
    assert_eq!(min(&[integer(i64::MIN), integer(i64::MAX)], &mut ctx).unwrap(), integer(i64::MIN));
}

#[test]
fn max_and_min_promote_when_a_float_is_present() {
    let mut ctx = Context::default();
    assert_eq!(max(&[num(-10.5), integer(200), integer(-10)], &mut ctx).unwrap(), num(200.0));
    assert_eq!(min(&[integer(3), num(2.5)], &mut ctx).unwrap(), num(2.5));
    assert_eq!(max(&[num(-0.5), num(-0.25)], &mut ctx).unwrap(), num(-0.25));
    assert_eq!(min(&[num(-0.5), num(-0.25)], &mut ctx).unwrap(), num(-0.5));
}

#[test]
fn max_and_min_arity_error_names_the_function() {
    let mut ctx = Context::default();
    let err = max(&[], &mut ctx).unwrap_err();
    assert_eq!(err.kind, ErrorKind::InvalidArgumentCount);
    assert_eq!(
        err.context,
        vec![
            ("function", Detail::Text("MAX".to_string())),
            ("argument count", Detail::Count(0)),
            ("expected", Detail::Count(1)),
        ]
    );
    let err = min(&[], &mut ctx).unwrap_err();
    assert_eq!(err.context[0], ("function", Detail::Text("MIN".to_string())));
    assert_eq!(min(&[Value::Null], &mut ctx).unwrap_err().kind, ErrorKind::InvalidArgumentType);
}

#[test]
fn validate_args_len_bounds_are_inclusive() {
    let args = vec![integer(1), integer(2)];
    assert!(validate_args_len(&args, Some(2), Some(2), "F").is_ok());
    assert!(validate_args_len(&args, None, None, "F").is_ok());
    assert!(validate_args_len(&args, Some(1), Some(3), "F").is_ok());
    let err = validate_args_len(&args, Some(3), Some(1), "F").unwrap_err();
    assert_eq!(err.context[2], ("expected", Detail::Count(3)));
    let err = validate_args_len(&args, None, Some(1), "F").unwrap_err();
    assert_eq!(err.context[2], ("expected", Detail::Count(1)));
}

#[test]
fn promotion_agrees_with_the_cast() {
    let samples: [i64; 16] = [
        0,
        1,
        -1,
        2,
        3,
        1 << 52,
        (1 << 53) - 1,
        1 << 53,
        (1 << 53) + 1,
        (1 << 53) + 2,
        (1 << 53) + 3,
        (1 << 54) + 2,
        (1 << 54) + 6,
        i64::MAX,
        i64::MIN,
        i64::MIN + 1,
    ];
    for i in samples.iter() {
        assert_eq!(Float::from_i64(*i).bits, (*i as f64).to_bits(), "{}", i);
        assert_eq!(Float::from_i64(-*i.max(&(i64::MIN + 1))).bits, ((-*i.max(&(i64::MIN + 1))) as f64).to_bits());
    }
    let mut x: i64 = 0x5DEECE66D;
    for _ in 0..20000 {
        x = x.wrapping_mul(6364136223846793005).wrapping_add(1442695040888963407);
        let shifted = x >> ((x as u64 >> 58) % 12);
        assert_eq!(Float::from_i64(shifted).bits, (shifted as f64).to_bits(), "{}", shifted);
    }
}
