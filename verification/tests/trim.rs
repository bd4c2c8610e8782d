use temen::builtin::filter::trim::{trim, trim_text};
use temen::engine::context::Context;
use temen::error::ErrorKind;
use temen::value::float::Float;
use temen::value::Value;

fn text(s: &str) -> Value {
    Value::String(s.to_string())
}

#[test]
fn result_is_trimmed() {
    let args = Vec::new();
    let mut ctx = Context::default();

    assert_eq!(trim(&text("a    "), &args, &mut ctx).unwrap(), text("a"));
    assert_eq!(trim(&text("    a"), &args, &mut ctx).unwrap(), text("a"));
    assert_eq!(trim(&text("    a    "), &args, &mut ctx).unwrap(), text("a"));
}

#[test]
fn fail_on_invalid_input_type() {
    let args = Vec::new();
    let mut ctx = Context::default();

    assert!(trim(&Value::Integer(1), &args, &mut ctx).is_err());
    assert!(trim(&Value::Float(Float::from_bits(1.0f64.to_bits())), &args, &mut ctx).is_err());
    assert!(trim(&Value::Bool(true), &args, &mut ctx).is_err());
    assert!(trim(&Value::Array(vec![text("a"), text("b")]), &args, &mut ctx).is_err());
    assert!(trim(&Value::Object(vec![("a".to_string(), text("b"))]), &args, &mut ctx).is_err());
}

#[test]
fn trim_keeps_inner_whitespace() {
    let args = Vec::new();
    let mut ctx = Context::default();
    assert_eq!(trim(&text("   a   "), &args, &mut ctx).unwrap(), text("a"));
    assert_eq!(trim(&text(" a  b\t"), &args, &mut ctx).unwrap(), text("a  b"));
    assert_eq!(trim(&text(""), &args, &mut ctx).unwrap(), text(""));
    assert_eq!(trim(&text(" \t\r\n"), &args, &mut ctx).unwrap(), text(""));
}

#[test]
fn trim_type_error_kind() {
    let args = Vec::new();
    let mut ctx = Context::default();
    assert_eq!(trim(&Value::Null, &args, &mut ctx).unwrap_err().kind, ErrorKind::InvalidArgumentType);
}

#[test]
fn trim_agrees_with_the_standard_library() {
    let samples = [
        "",
        " ",
        "x",
        "\u{85}x\u{a0}",
        "\u{1680}\u{2000}x y\u{200a}\u{2028}\u{2029}",
        "\u{202f}\u{205f}\u{3000}é\u{3000}",
        "\u{200b}x\u{200b}",
        "\u{b}\u{c}x\u{1c}",
        "  héllo wörld \n",
    ];
    for s in samples.iter() {
        assert_eq!(trim_text(s), s.trim().to_string(), "{:?}", s);
    }
    for u in 0..0x3100u32 {
        if let Some(c) = char::from_u32(u) {
            let s = format!("{}x{}", c, c);
            assert_eq!(trim_text(&s), s.trim().to_string(), "{:?}", c);
        }
    }
}
