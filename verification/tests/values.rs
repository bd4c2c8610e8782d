use temen::error::{Category, Detail, Error, ErrorKind};
use temen::value::float::{Float, Order};
use temen::value::relate::order_bytes;
use temen::value::{find_index, Value};

fn float_of(x: f64) -> Float {
    Float::from_bits(x.to_bits())
}

fn samples() -> Vec<f64> {
    vec![
        0.0,
        -0.0,
        f64::MIN_POSITIVE,
        -f64::MIN_POSITIVE,
        5e-324,
        -5e-324,
        1.0,
        -1.0,
        1.0000000000000002,
        0.5,
        -0.5,
        2.0,
        3.5,
        -3.5,
        1e300,
        -1e300,
        f64::MAX,
        f64::MIN,
        9007199254740992.0,
        9007199254740994.0,
    ]
}

#[test]
fn float_order_agrees_with_the_machine() {
    for a in samples().iter() {
        for b in samples().iter() {
            let expected = if a < b {
                Order::Less
            } else if a > b {
                Order::Greater
            } else {
                Order::Equal
            };
            assert_eq!(float_of(*a).order(float_of(*b)), expected, "{} {}", a, b);
        }
    }
}

#[test]
fn finite_is_neither_infinite_nor_nan() {
    for a in samples().iter() {
        assert!(float_of(*a).is_finite());
    }
    assert!(!float_of(f64::INFINITY).is_finite());
    assert!(!float_of(f64::NEG_INFINITY).is_finite());
    assert!(!float_of(f64::NAN).is_finite());
    assert!(!float_of(-f64::NAN).is_finite());
    assert!(!Float::from_bits(0x7FF0_0000_0000_0001).is_finite());
    assert!(Float::from_bits(0x7FEF_FFFF_FFFF_FFFF).is_finite());
    assert_eq!(float_of(1.5).to_bits(), 1.5f64.to_bits());
}

#[test]
fn every_kind_has_its_category() {
    let kinds = [
        (ErrorKind::UnexpectedToken, Category::Parse),
        (ErrorKind::UnterminatedString, Category::Parse),
        (ErrorKind::IntegerOutOfRange, Category::Parse),
        (ErrorKind::InfiniteFloat, Category::Parse),
        (ErrorKind::KeyNotFound, Category::Lookup),
        (ErrorKind::IndexOutOfBounds, Category::Lookup),
        (ErrorKind::NotAnObject, Category::Lookup),
        (ErrorKind::NotAnArray, Category::Lookup),
        (ErrorKind::RelativeWithoutPosition, Category::Lookup),
        (ErrorKind::SuperPastRoot, Category::Lookup),
        (ErrorKind::InvalidIndirectIndex, Category::Lookup),
        (ErrorKind::DepthLimitExceeded, Category::Lookup),
        (ErrorKind::TypeMismatch, Category::Eval),
        (ErrorKind::InvalidArgumentCount, Category::Eval),
        (ErrorKind::InvalidArgumentType, Category::Eval),
        (ErrorKind::NonFiniteResult, Category::Eval),
        (ErrorKind::UnknownFilter, Category::Registry),
        (ErrorKind::UnknownFunction, Category::Registry),
    ];
    for (kind, category) in kinds.iter() {
        assert_eq!(kind.category(), *category);
        assert_eq!(Error::new(*kind).category(), *category);
        assert_eq!(Error::new(*kind).kind(), *kind);
    }
}

#[test]
fn annotations_keep_their_order() {
    let error = Error::new(ErrorKind::KeyNotFound)
        .context("a", Detail::Count(1))
        .context("b", Detail::Text("x".to_string()))
        .context("a", Detail::Integer(-1));
    assert_eq!(
        error.context,
        vec![
            ("a", Detail::Count(1)),
            ("b", Detail::Text("x".to_string())),
            ("a", Detail::Integer(-1)),
        ]
    );
    assert!(Error::new(ErrorKind::KeyNotFound).context.is_empty());
}

#[test]
fn accessors() {
    let list = Value::Array(vec![Value::Integer(1), Value::Integer(2)]);
    let object = Value::Object(vec![
        ("k".to_string(), Value::Integer(1)),
        ("l".to_string(), Value::Null),
        ("k".to_string(), Value::Integer(2)),
    ]);
    assert!(list.is_array() && !list.is_object());
    assert!(object.is_object() && !object.is_array());
    assert_eq!(list.at(0), Some(&Value::Integer(1)));
    assert_eq!(list.at(-1), Some(&Value::Integer(2)));
    assert_eq!(list.at(2), None);
    assert_eq!(list.at(-3), None);
    assert_eq!(object.at(0), None);
    assert_eq!(object.get(&"k".to_string()), Some(&Value::Integer(2)));
    assert_eq!(object.get(&"l".to_string()), Some(&Value::Null));
    assert_eq!(object.get(&"m".to_string()), None);
    assert_eq!(list.get(&"k".to_string()), None);
    if let Value::Object(entries) = &object {
        assert_eq!(find_index(entries, &"k".to_string()), Some(2));
        assert_eq!(find_index(entries, &"l".to_string()), Some(1));
        assert_eq!(find_index(entries, &"K".to_string()), None);
    }
    assert_eq!(Value::Integer(-1).as_i64(), Some(-1));
    assert_eq!(Value::Integer(-1).as_u64(), None);
    assert_eq!(Value::Integer(7).as_u64(), Some(7));
    assert_eq!(Value::Float(float_of(1.0)).as_i64(), None);
    assert_eq!(Value::Integer(3).as_float(), Some(float_of(3.0)));
    assert_eq!(Value::Float(float_of(0.25)).as_float(), Some(float_of(0.25)));
    assert_eq!(Value::Null.as_float(), None);
    assert_eq!(Value::String("x".to_string()).as_str(), Some("x"));
    assert_eq!(Value::Null.as_str(), None);
}

#[test]
fn values_are_ordered_within_numbers_and_within_strings() {
    let text = |s: &str| Value::String(s.to_string());
    assert_eq!(Value::Integer(1).order(&Value::Integer(2)), Some(Order::Less));
    assert_eq!(Value::Integer(2).order(&Value::Float(float_of(1.5))), Some(Order::Greater));
    assert_eq!(Value::Float(float_of(2.0)).order(&Value::Integer(2)), Some(Order::Equal));
    assert_eq!(text("a").order(&text("b")), Some(Order::Less));
    assert_eq!(text("a").order(&Value::Integer(1)), None);
    assert_eq!(Value::Null.order(&Value::Null), None);
    assert_eq!(Value::Bool(true).order(&Value::Bool(false)), None);
    assert_eq!(order_bytes(b"abc", b"abd"), Order::Less);
    assert_eq!(order_bytes(b"abc", b"ab"), Order::Greater);
    assert_eq!(order_bytes(b"", b""), Order::Equal);
    assert_eq!(order_bytes(b"", b"a"), Order::Less);
    for a in ["", "a", "ab", "b", "é", "z", "\u{10000}", "\u{ffff}"].iter() {
        for b in ["", "a", "ab", "b", "é", "z", "\u{10000}", "\u{ffff}"].iter() {
            let expected = if a < b {
                Order::Less
            } else if a > b {
                Order::Greater
            } else {
                Order::Equal
            };
            assert_eq!(text(a).order(&text(b)), Some(expected), "{} {}", a, b);
        }
    }
}

#[test]
fn a_valid_value_holds_no_float_that_is_not_finite() {
    let bad = Value::Float(float_of(f64::NAN));
    let good = Value::Float(float_of(1.5));
    assert!(good.is_valid());
    assert!(!bad.is_valid());
    assert!(!Value::Float(float_of(f64::INFINITY)).is_valid());
    assert!(Value::Null.is_valid() && Value::Integer(1).is_valid());
    assert!(Value::String("x".to_string()).is_valid());
    assert!(Value::Array(vec![good.clone(), Value::Array(vec![])]).is_valid());
    assert!(!Value::Array(vec![good.clone(), Value::Array(vec![bad.clone()])]).is_valid());
    assert!(!Value::Object(vec![("k".to_string(), bad.clone())]).is_valid());
    // an entry that a later one replaces does not count
    assert!(Value::Object(vec![("k".to_string(), bad.clone()), ("k".to_string(), good.clone())])
        .is_valid());
    assert!(!Value::Object(vec![("k".to_string(), good.clone()), ("k".to_string(), bad.clone())])
        .is_valid());
}
