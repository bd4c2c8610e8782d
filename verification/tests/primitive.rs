use temen::error::{Category, Detail, Error, ErrorKind};
use temen::parser::ast::{
    BinaryOperator, Expression, ExpressionValue, FilterCall, FunctionCall, Identifier,
    IdentifierValue, UnaryOperator,
};
use temen::parser::lexer::{tokenize, Token, TokenKind};
use temen::parser::parse;
use temen::value::float::{Float, FloatMath};

struct Native;

fn of(bits: Float) -> f64 {
    f64::from_bits(bits.bits)
}

fn float_of(x: f64) -> Float {
    Float::from_bits(x.to_bits())
}

impl FloatMath for Native {
    fn add(&self, a: Float, b: Float) -> Float {
        float_of(of(a) + of(b))
    }

    fn sub(&self, a: Float, b: Float) -> Float {
        float_of(of(a) - of(b))
    }

    fn pow(&self, base: Float, exponent: Float) -> Float {
        float_of(of(base).powf(of(exponent)))
    }

    fn log10(&self, x: Float) -> Float {
        float_of(of(x).log10())
    }

    fn parse(&self, literal: &str) -> Float {
        float_of(literal.parse::<f64>().unwrap_or(f64::NAN))
    }
}

fn parsed(text: &str) -> Result<Expression, Error> {
    parse(text, &Native)
}

fn test_parse_eq(text: &str, expected: ExpressionValue) {
    assert_eq!(parsed(text).unwrap(), Expression::new(expected));
}

fn test_parse_err(text: &str) {
    assert!(parsed(text).is_err());
}

#[test]
fn boolean() {
    test_parse_eq("true", ExpressionValue::Boolean(true));
    test_parse_eq("false", ExpressionValue::Boolean(false));
}

#[test]
fn integer() {
    test_parse_eq("0", ExpressionValue::Integer(0));
    test_parse_eq("123", ExpressionValue::Integer(123));
    test_parse_eq("-346", ExpressionValue::Integer(-346));
}

#[test]
fn integer_with_leading_zeroes() {
    test_parse_eq("00000", ExpressionValue::Integer(0));
    test_parse_eq("00001", ExpressionValue::Integer(1));
    test_parse_eq("-00001234", ExpressionValue::Integer(-1234));
}

#[test]
fn integer_boundaries() {
    test_parse_eq(&format!("{}", std::i64::MIN), ExpressionValue::Integer(std::i64::MIN));
    test_parse_eq(&format!("{}", std::i64::MAX), ExpressionValue::Integer(std::i64::MAX));
}

#[test]
fn fail_on_integer_out_of_bounds() {
    test_parse_err(&format!("{}9999", std::i64::MIN));
    test_parse_err(&format!("{}9999", std::i64::MAX));
}

#[test]
fn float() {
    test_parse_eq("0.0", ExpressionValue::Float(float_of(0.0)));
    test_parse_eq("-1.3", ExpressionValue::Float(float_of(-1.3)));
    test_parse_eq("2.9", ExpressionValue::Float(float_of(2.9)));
}

#[test]
fn fail_on_float_without_leading_digit() {
    test_parse_err(".0");
}

#[test]
fn float_leading_and_trailing_zeroes() {
    test_parse_eq("00000.0000", ExpressionValue::Float(float_of(0.0)));
    test_parse_eq("-00001.30000", ExpressionValue::Float(float_of(-1.3)));
    test_parse_eq("0002.9000", ExpressionValue::Float(float_of(2.9)));
}

#[test]
fn float_boundaries() {
    // With at least one decimal digit, or it would be read as an integer.
    test_parse_eq(&format!("{:.1}", std::f64::MIN), ExpressionValue::Float(float_of(std::f64::MIN)));
    test_parse_eq(&format!("{:.1}", std::f64::MAX), ExpressionValue::Float(float_of(std::f64::MAX)));
}

#[test]
fn fail_on_float_infinity() {
    // Infinite numbers are not supported
    test_parse_err(&format!("{:.0}999.99", std::f64::MAX));
    test_parse_err(&format!("{:.0}999.99", std::f64::MIN));
}

#[test]
fn string() {
    test_parse_eq("\"hallo\"", ExpressionValue::String("hallo".to_string()));
    test_parse_eq("\"ha'l'lo\"", ExpressionValue::String("ha'l'lo".to_string()));
    test_parse_eq("\"ha`l`lo\"", ExpressionValue::String("ha`l`lo".to_string()));
    test_parse_eq("'hallo'", ExpressionValue::String("hallo".to_string()));
    test_parse_eq("'ha\"l\"lo'", ExpressionValue::String("ha\"l\"lo".to_string()));
    test_parse_eq("'ha`l`lo'", ExpressionValue::String("ha`l`lo".to_string()));
    test_parse_eq("`hallo`", ExpressionValue::String("hallo".to_string()));
    test_parse_eq("`ha'l'lo`", ExpressionValue::String("ha'l'lo".to_string()));
    test_parse_eq("`ha\"l\"lo`", ExpressionValue::String("ha\"l\"lo".to_string()));
}

#[test]
fn fail_on_invalid_string_syntax() {
    test_parse_err("\"hallo");
    test_parse_err("\"ha'l'lo");
    test_parse_err("\"ha`l`lo");
    test_parse_err("'hallo");
    test_parse_err("'ha\"l\"lo");
    test_parse_err("'ha`l`lo");
    test_parse_err("`hallo");
    test_parse_err("`ha'l'lo");
    test_parse_err("`ha\"l\"lo");
}

#[test]
fn parse_error_kinds_and_positions() {
    let err = parsed("  'abc").unwrap_err();
    assert_eq!(err.kind, ErrorKind::UnterminatedString);
    assert_eq!(err.category(), Category::Parse);
    assert_eq!(err.context, vec![("position", Detail::Count(2))]);

    let err = parsed("1 + 99999999999999999999").unwrap_err();
    assert_eq!(err.kind, ErrorKind::IntegerOutOfRange);
    assert_eq!(err.context, vec![("position", Detail::Count(4))]);

    let err = parsed(&format!("{:.0}999.99", std::f64::MAX)).unwrap_err();
    assert_eq!(err.kind, ErrorKind::InfiniteFloat);
    assert_eq!(err.context, vec![("position", Detail::Count(0))]);

    let err = parsed("1 + ").unwrap_err();
    assert_eq!(err.kind, ErrorKind::UnexpectedToken);
    assert_eq!(err.context, vec![("position", Detail::Count(4))]);

    let err = parsed("1 2").unwrap_err();
    assert_eq!(err.kind, ErrorKind::UnexpectedToken);
    assert_eq!(err.context, vec![("position", Detail::Count(2))]);

    let err = parsed("a ? b").unwrap_err();
    assert_eq!(err.kind, ErrorKind::UnexpectedToken);
    assert_eq!(err.context, vec![("position", Detail::Count(2))]);

    assert_eq!(parsed("").unwrap_err().kind, ErrorKind::UnexpectedToken);
    assert_eq!(parsed("(1").unwrap_err().kind, ErrorKind::UnexpectedToken);
    assert_eq!(parsed("a = b").unwrap_err().kind, ErrorKind::UnexpectedToken);
    assert_eq!(parsed("a[1").unwrap_err().kind, ErrorKind::UnexpectedToken);
    assert_eq!(parsed("a.").unwrap_err().kind, ErrorKind::UnexpectedToken);
    assert_eq!(parsed("a | ").unwrap_err().kind, ErrorKind::UnexpectedToken);
    assert_eq!(parsed("F(1,)").unwrap_err().kind, ErrorKind::UnexpectedToken);
}

#[test]
fn mismatched_quotes_fail_in_every_style() {
    for open in ['"', '\'', '`'].iter() {
        for close in ['"', '\'', '`'].iter() {
            let text = format!("{}hallo{}", open, close);
            assert_eq!(parsed(&text).is_ok(), open == close, "{}", text);
            if open != close {
                assert_eq!(parsed(&text).unwrap_err().kind, ErrorKind::UnterminatedString);
            }
        }
    }
}

#[test]
fn minus_is_a_sign_only_where_no_operand_ends() {
    let one = || Box::new(Expression::new(ExpressionValue::Integer(1)));
    let two = || Box::new(Expression::new(ExpressionValue::Integer(2)));
    let minus_two = || Box::new(Expression::new(ExpressionValue::Integer(-2)));
    test_parse_eq("1 - 2", ExpressionValue::Binary(BinaryOperator::Subtract, one(), two()));
    test_parse_eq("1-2", ExpressionValue::Binary(BinaryOperator::Subtract, one(), two()));
    test_parse_eq("1 - -2", ExpressionValue::Binary(BinaryOperator::Subtract, one(), minus_two()));
    test_parse_eq("1 + -2", ExpressionValue::Binary(BinaryOperator::Add, one(), minus_two()));
    test_parse_eq("(1)-2", ExpressionValue::Binary(BinaryOperator::Subtract, one(), two()));
}

#[test]
fn precedence_and_grouping() {
    let number = |i: i64| Box::new(Expression::new(ExpressionValue::Integer(i)));
    let text = |s: &str| Expression::new(ExpressionValue::String(s.to_string()));
    let binary = |op, l, r| Box::new(Expression::new(ExpressionValue::Binary(op, l, r)));

    // `not` binds looser than the comparison, which binds looser than `+`
    test_parse_eq(
        "not 1 + 1 == 3",
        ExpressionValue::Unary(
            UnaryOperator::Not,
            binary(
                BinaryOperator::Equal,
                binary(BinaryOperator::Add, number(1), number(1)),
                number(3),
            ),
        ),
    );
    // `and` binds tighter than `or`; both group from the left
    test_parse_eq(
        "1 or 2 and 3 or 4",
        ExpressionValue::Binary(
            BinaryOperator::Or,
            binary(
                BinaryOperator::Or,
                number(1),
                binary(BinaryOperator::And, number(2), number(3)),
            ),
            number(4),
        ),
    );
    test_parse_eq(
        "1 - 2 + 3",
        ExpressionValue::Binary(
            BinaryOperator::Add,
            binary(BinaryOperator::Subtract, number(1), number(2)),
            number(3),
        ),
    );
    test_parse_eq(
        "1 - (2 + 3)",
        ExpressionValue::Binary(
            BinaryOperator::Subtract,
            number(1),
            binary(BinaryOperator::Add, number(2), number(3)),
        ),
    );
    // the filter binds tighter than the comparison
    let mut piped = text("ABC");
    piped.filters.push(FilterCall { name: "LOWER".to_string(), args: vec![] });
    test_parse_eq(
        "`ABC` | LOWER == 'abc'",
        ExpressionValue::Binary(BinaryOperator::Equal, Box::new(piped), Box::new(text("abc"))),
    );
    let mut piped = text("abc");
    piped.filters.push(FilterCall { name: "UPPER".to_string(), args: vec![] });
    test_parse_eq(
        "`ABC` == 'abc' | UPPER",
        ExpressionValue::Binary(BinaryOperator::Equal, Box::new(text("ABC")), Box::new(piped)),
    );
}

#[test]
fn filters_and_calls() {
    let number = |i: i64| Expression::new(ExpressionValue::Integer(i));
    let mut expected = Expression::new(ExpressionValue::Identifier(Identifier::new(vec![
        IdentifierValue::Name("a".to_string()),
    ])));
    expected.filters.push(FilterCall { name: "F".to_string(), args: vec![] });
    expected.filters.push(FilterCall {
        name: "G".to_string(),
        args: vec![("x".to_string(), number(1)), ("y".to_string(), number(2))],
    });
    expected.filters.push(FilterCall { name: "H".to_string(), args: vec![] });
    assert_eq!(parsed("a | F | G(x: 1, y: 2) | H()").unwrap(), expected);

    test_parse_eq(
        "POW(10, 2)",
        ExpressionValue::FunctionCall(FunctionCall {
            name: "POW".to_string(),
            args: vec![number(10), number(2)],
        }),
    );
    test_parse_eq(
        "NOW()",
        ExpressionValue::FunctionCall(FunctionCall { name: "NOW".to_string(), args: vec![] }),
    );
}

#[test]
fn identifier_paths() {
    let name = |s: &str| IdentifierValue::Name(s.to_string());
    test_parse_eq(
        "data.country[country[name]]['rust-developers'][-1].this.super",
        ExpressionValue::Identifier(Identifier::new(vec![
            name("data"),
            name("country"),
            IdentifierValue::IdentifierIndex(Identifier::new(vec![
                name("country"),
                IdentifierValue::IdentifierIndex(Identifier::new(vec![name("name")])),
            ])),
            IdentifierValue::StringIndex("rust-developers".to_string()),
            IdentifierValue::IntegerIndex(-1),
            IdentifierValue::This,
            IdentifierValue::Super,
        ])),
    );
    test_parse_eq(
        "super.a[this.b]",
        ExpressionValue::Identifier(Identifier::new(vec![
            IdentifierValue::Super,
            name("a"),
            IdentifierValue::IdentifierIndex(Identifier::new(vec![
                IdentifierValue::This,
                name("b"),
            ])),
        ])),
    );
}

#[test]
fn tokens_and_their_ranges() {
    let text = "a1 >= -2.5|`x y`";
    let chars: Vec<char> = text.chars().collect();
    let (tokens, _) = tokenize(text, &chars, &Native);
    assert_eq!(
        tokens.unwrap(),
        vec![
            Token { kind: TokenKind::Name, from: 0, to: 2 },
            Token { kind: TokenKind::Compare(BinaryOperator::GreaterOrEqual), from: 3, to: 5 },
            Token { kind: TokenKind::Float(float_of(-2.5)), from: 6, to: 10 },
            Token { kind: TokenKind::Pipe, from: 10, to: 11 },
            Token { kind: TokenKind::Text, from: 12, to: 15 },
        ]
    );
    let text = "true\t\nsuper and_or not truely";
    let chars: Vec<char> = text.chars().collect();
    let (tokens, _) = tokenize(text, &chars, &Native);
    let kinds: Vec<TokenKind> = tokens.unwrap().iter().map(|t| t.kind).collect();
    assert_eq!(
        kinds,
        vec![
            TokenKind::Boolean(true),
            TokenKind::Super,
            TokenKind::Name,
            TokenKind::Not,
            TokenKind::Name
        ]
    );
    let text = "a ! b";
    let chars: Vec<char> = text.chars().collect();
    let (tokens, _) = tokenize(text, &chars, &Native);
    assert_eq!(tokens.unwrap_err().kind, ErrorKind::UnexpectedToken);
}
