use temen::engine::context::{Context, INDIRECTION_LIMIT, Internal, Lookup, Timestamp};
use temen::engine::registry::{Filter, Function, NoExtension, Registry};
use temen::engine::Engine;
use temen::error::{Category, Detail, Error, ErrorKind};
use temen::parser::ast::{Identifier, IdentifierValue};
use temen::parser::parse;
use temen::value::float::{Float, FloatMath};
use temen::value::Value;

struct Native;

fn of(bits: Float) -> f64 {
    f64::from_bits(bits.bits)
}

fn float_of(x: f64) -> Float {
    Float::from_bits(x.to_bits())
}

impl FloatMath for Native {
    fn add(&self, a: Float, b: Float) -> Float {
        float_of(of(a) + of(b))
    }

    fn sub(&self, a: Float, b: Float) -> Float {
        float_of(of(a) - of(b))
    }

    fn pow(&self, base: Float, exponent: Float) -> Float {
        float_of(of(base).powf(of(exponent)))
    }

    fn log10(&self, x: Float) -> Float {
        float_of(of(x).log10())
    }

    fn parse(&self, literal: &str) -> Float {
        float_of(literal.parse::<f64>().unwrap_or(f64::NAN))
    }
}

fn text(s: &str) -> Value {
    Value::String(s.to_string())
}

fn num(x: f64) -> Value {
    Value::Float(float_of(x))
}

fn array(items: Vec<Value>) -> Value {
    Value::Array(items)
}

fn object(entries: Vec<(&str, Value)>) -> Value {
    Value::Object(entries.into_iter().map(|(k, v)| (k.to_string(), v)).collect())
}

fn name(s: &str) -> IdentifierValue {
    IdentifierValue::Name(s.to_string())
}

fn path(values: Vec<IdentifierValue>) -> Identifier {
    Identifier::new(values)
}

fn eval(text: &str, context: &mut Context) -> Result<Value, Error> {
    let engine: Engine<Native, NoExtension, NoExtension> = Engine::new(Native);
    engine.eval(&parse(text, &Native).unwrap(), None, context)
}

fn test_eval_eq(text: &str, context: &mut Context, expected: Value) {
    assert_eq!(eval(text, context).unwrap(), expected, "{}", text);
}

fn test_eval_err(text: &str, context: &mut Context) {
    assert!(eval(text, context).is_err(), "{}", text);
}

fn samples() -> Vec<(&'static str, Value)> {
    vec![
        ("string", text("hallo")),
        ("integer", Value::Integer(10)),
        ("float", num(3.2)),
        ("boolean", Value::Bool(true)),
        ("array", array(vec![text("a"), text("b")])),
        ("object", object(vec![("a", text("b"))])),
        ("null", Value::Null),
    ]
}

fn sample_list() -> Value {
    array(samples().into_iter().map(|(_, v)| v).collect())
}

#[test]
fn test_simple() {
    let mut ctx = Context::new(object(samples()));

    test_eval_eq("string", &mut ctx, text("hallo"));
    test_eval_eq("integer", &mut ctx, Value::Integer(10));
    test_eval_eq("float", &mut ctx, num(3.2));
    test_eval_eq("boolean", &mut ctx, Value::Bool(true));
    test_eval_eq("array", &mut ctx, array(vec![text("a"), text("b")]));
    test_eval_eq("object", &mut ctx, object(vec![("a", text("b"))]));
    test_eval_eq("null", &mut ctx, Value::Null);

    test_eval_err("na", &mut ctx);
}

#[test]
fn test_dotted() {
    let mut ctx = Context::new(object(vec![("root", object(vec![("another", object(samples()))]))]));

    test_eval_eq("root.another.string", &mut ctx, text("hallo"));
    test_eval_eq("root.another.integer", &mut ctx, Value::Integer(10));
    test_eval_eq("root.another.float", &mut ctx, num(3.2));
    test_eval_eq("root.another.boolean", &mut ctx, Value::Bool(true));
    test_eval_eq("root.another.array", &mut ctx, array(vec![text("a"), text("b")]));
    test_eval_eq("root.another.object", &mut ctx, object(vec![("a", text("b"))]));
    test_eval_eq("root.another.null", &mut ctx, Value::Null);

    test_eval_err("root.another.na", &mut ctx);
    test_eval_err("root.na", &mut ctx);
    test_eval_err("na", &mut ctx);
}

#[test]
fn test_square_bracket_string() {
    let mut ctx = Context::new(object(vec![("root", object(vec![("another", object(samples()))]))]));

    test_eval_eq("root[`another`][`string`]", &mut ctx, text("hallo"));
    test_eval_eq("root[`another`][`integer`]", &mut ctx, Value::Integer(10));
    test_eval_eq("root[`another`][`float`]", &mut ctx, num(3.2));
    test_eval_eq("root[`another`][`boolean`]", &mut ctx, Value::Bool(true));
    test_eval_eq("root[`another`][`array`]", &mut ctx, array(vec![text("a"), text("b")]));
    test_eval_eq("root[`another`][`object`]", &mut ctx, object(vec![("a", text("b"))]));
    test_eval_eq("root[`another`][`null`]", &mut ctx, Value::Null);

    test_eval_err("root[`another`][`dummy`]", &mut ctx);
    test_eval_err("root[`dummy`]", &mut ctx);
}

#[test]
fn test_square_bracket_integer() {
    let mut ctx = Context::new(object(vec![("root", sample_list())]));

    test_eval_eq("root[0]", &mut ctx, text("hallo"));
    test_eval_eq("root[1]", &mut ctx, Value::Integer(10));
    test_eval_eq("root[2]", &mut ctx, num(3.2));
    test_eval_eq("root[3]", &mut ctx, Value::Bool(true));
    test_eval_eq("root[4]", &mut ctx, array(vec![text("a"), text("b")]));
    test_eval_eq("root[5]", &mut ctx, object(vec![("a", text("b"))]));
    test_eval_eq("root[6]", &mut ctx, Value::Null);

    test_eval_err("root[7]", &mut ctx);
}

#[test]
fn test_square_bracket_negative_integer() {
    let mut ctx = Context::new(object(vec![("root", sample_list())]));

    test_eval_eq("root[-7]", &mut ctx, text("hallo"));
    test_eval_eq("root[-6]", &mut ctx, Value::Integer(10));
    test_eval_eq("root[-5]", &mut ctx, num(3.2));
    test_eval_eq("root[-4]", &mut ctx, Value::Bool(true));
    test_eval_eq("root[-3]", &mut ctx, array(vec![text("a"), text("b")]));
    test_eval_eq("root[-2]", &mut ctx, object(vec![("a", text("b"))]));
    test_eval_eq("root[-1]", &mut ctx, Value::Null);

    test_eval_err("root[-8]", &mut ctx);
}

fn people() -> Value {
    array(vec![object(vec![("name", text("Robert"))]), object(vec![("name", text("Cyryl"))])])
}

#[test]
fn test_square_bracket_mixed() {
    let mut ctx = Context::new(object(vec![("people", people())]));

    test_eval_eq("people[0][`name`]", &mut ctx, text("Robert"));
    test_eval_eq("people[0].name", &mut ctx, text("Robert"));
    test_eval_eq("people[1][`name`]", &mut ctx, text("Cyryl"));
    test_eval_eq("people[1].name", &mut ctx, text("Cyryl"));
}

#[test]
fn test_square_bracket_indirect() {
    let mut ctx = Context::new(object(vec![
        ("first", Value::Integer(0)),
        ("second", Value::Integer(1)),
        ("boolean", Value::Bool(true)),
        ("array", array(vec![text("a"), text("b")])),
        ("object", object(vec![("a", text("b"))])),
        ("null", Value::Null),
        ("people", people()),
    ]));

    test_eval_eq("people[first][`name`]", &mut ctx, text("Robert"));
    test_eval_eq("people[first].name", &mut ctx, text("Robert"));
    test_eval_eq("people[second][`name`]", &mut ctx, text("Cyryl"));
    test_eval_eq("people[second].name", &mut ctx, text("Cyryl"));

    test_eval_err("people[boolean].name", &mut ctx);
    test_eval_err("people[array].name", &mut ctx);
    test_eval_err("people[object].name", &mut ctx);
    test_eval_err("people[null].name", &mut ctx);
}

#[test]
fn test_square_bracket_multiple_indirect() {
    let mut ctx = Context::new(object(vec![
        ("country", text("Czech Republic")),
        ("city", text("Hradec Kralove")),
        (
            "data",
            object(vec![(
                "country",
                object(vec![(
                    "Czech Republic",
                    object(vec![(
                        "city",
                        object(vec![(
                            "Hradec Kralove",
                            object(vec![("rust-developers", Value::Integer(1))]),
                        )]),
                    )]),
                )]),
            )]),
        ),
    ]));

    test_eval_eq("data.country[country].city[city]['rust-developers']", &mut ctx, Value::Integer(1));
}

#[test]
fn test_square_bracket_nested_indirect() {
    let mut ctx = Context::new(object(vec![
        ("name", text("czech")),
        ("country", object(vec![("czech", text("Czech Republic"))])),
        (
            "data",
            object(vec![(
                "country",
                object(vec![("Czech Republic", object(vec![("rust-developers", Value::Integer(2))]))]),
            )]),
        ),
    ]));

    test_eval_eq("data.country[country[name]]['rust-developers']", &mut ctx, Value::Integer(2));
}

#[test]
fn last_entry_of_a_key_wins() {
    let ctx = Context::new(object(vec![("a", Value::Integer(1)), ("a", Value::Integer(2))]));
    assert_eq!(ctx.lookup_identifier(&path(vec![name("a")]), None).unwrap(), &Value::Integer(2));
}

#[test]
fn index_bounds() {
    let ctx = Context::new(object(vec![
        ("arr", array(vec![Value::Integer(10), Value::Integer(20), Value::Integer(30)])),
        ("empty", array(vec![])),
    ]));
    let at = |root: &str, i: i64| {
        ctx.lookup_identifier(&path(vec![name(root), IdentifierValue::IntegerIndex(i)]), None)
    };
    assert_eq!(at("arr", -1).unwrap(), &Value::Integer(30));
    assert_eq!(at("arr", -3).unwrap(), &Value::Integer(10));
    assert_eq!(at("arr", 2).unwrap(), &Value::Integer(30));
    let err = at("arr", -4).unwrap_err();
    assert_eq!(err.kind, ErrorKind::IndexOutOfBounds);
    assert_eq!(err.category(), Category::Lookup);
    assert_eq!(err.context, vec![("index", Detail::Integer(-4))]);
    assert_eq!(at("arr", 3).unwrap_err().kind, ErrorKind::IndexOutOfBounds);
    // an index more negative than the length does not wrap a second time
    assert_eq!(at("arr", -7).unwrap_err().kind, ErrorKind::IndexOutOfBounds);
    assert_eq!(at("arr", i64::MIN).unwrap_err().kind, ErrorKind::IndexOutOfBounds);
    assert_eq!(at("arr", i64::MAX).unwrap_err().kind, ErrorKind::IndexOutOfBounds);
    assert_eq!(at("empty", 0).unwrap_err().kind, ErrorKind::IndexOutOfBounds);
    assert_eq!(at("empty", -1).unwrap_err().kind, ErrorKind::IndexOutOfBounds);
}

#[test]
fn lookup_error_kinds() {
    let ctx = Context::new(object(vec![
        ("a", object(vec![("b", Value::Integer(1))])),
        ("list", array(vec![Value::Integer(1)])),
        ("half", num(0.5)),
        ("one", num(1.0)),
    ]));
    let kind = |id: Identifier, position: Option<&Identifier>| {
        ctx.lookup_identifier(&id, position).unwrap_err().kind
    };
    let err = ctx.lookup_identifier(&path(vec![name("a"), name("c")]), None).unwrap_err();
    assert_eq!(err.kind, ErrorKind::KeyNotFound);
    assert_eq!(err.context, vec![("key", Detail::Text("c".to_string()))]);
    assert_eq!(kind(path(vec![name("list"), name("c")]), None), ErrorKind::NotAnObject);
    assert_eq!(
        kind(path(vec![name("a"), IdentifierValue::IntegerIndex(0)]), None),
        ErrorKind::NotAnArray
    );
    assert_eq!(kind(path(vec![IdentifierValue::This]), None), ErrorKind::RelativeWithoutPosition);
    assert_eq!(kind(path(vec![IdentifierValue::Super]), None), ErrorKind::RelativeWithoutPosition);
    // an absolute identifier may hold `super` further on
    assert_eq!(
        ctx.lookup_identifier(
            &path(vec![name("a"), name("b"), IdentifierValue::Super, IdentifierValue::This]),
            None
        )
        .unwrap(),
        &object(vec![("b", Value::Integer(1))])
    );
    assert_eq!(
        kind(path(vec![name("a"), IdentifierValue::Super, IdentifierValue::Super]), None),
        ErrorKind::SuperPastRoot
    );
    // a float is no index, even where it is a whole number
    for key in ["half", "one", "a", "list"].iter() {
        assert_eq!(
            kind(
                path(vec![
                    name("list"),
                    IdentifierValue::IdentifierIndex(path(vec![name(key)]))
                ]),
                None
            ),
            ErrorKind::InvalidIndirectIndex
        );
    }
}

#[test]
fn relative_identifiers_start_at_the_position() {
    let ctx = Context::new(object(vec![(
        "people",
        array(vec![
            object(vec![("name", text("Robert")), ("boss", Value::Integer(1))]),
            object(vec![("name", text("Cyryl")), ("boss", Value::Integer(0))]),
        ]),
    )]));
    let position = path(vec![name("people"), IdentifierValue::IntegerIndex(0), name("name")]);
    let this = path(vec![IdentifierValue::This]);
    assert_eq!(ctx.lookup_identifier(&this, Some(&position)).unwrap(), &text("Robert"));
    let sibling = path(vec![IdentifierValue::Super, name("boss")]);
    assert_eq!(ctx.lookup_identifier(&sibling, Some(&position)).unwrap(), &Value::Integer(1));
    let other = path(vec![
        IdentifierValue::Super,
        IdentifierValue::Super,
        IdentifierValue::IdentifierIndex(path(vec![IdentifierValue::Super, name("boss")])),
        name("name"),
    ]);
    assert_eq!(ctx.lookup_identifier(&other, Some(&position)).unwrap(), &text("Cyryl"));
    // an absolute identifier does not look at the position
    let absolute = path(vec![name("people"), IdentifierValue::IntegerIndex(1), name("name")]);
    let nowhere = path(vec![name("nowhere")]);
    assert_eq!(ctx.lookup_identifier(&absolute, Some(&nowhere)).unwrap(), &text("Cyryl"));
    // a position that leads nowhere fails a relative identifier
    assert_eq!(
        ctx.lookup_identifier(&this, Some(&nowhere)).unwrap_err().kind,
        ErrorKind::KeyNotFound
    );
    let up = path(vec![
        IdentifierValue::Super,
        IdentifierValue::Super,
        IdentifierValue::Super,
        IdentifierValue::Super,
    ]);
    assert_eq!(
        ctx.lookup_identifier(&up, Some(&position)).unwrap_err().kind,
        ErrorKind::SuperPastRoot
    );
}

#[test]
fn relative_lookup_through_the_engine() {
    let engine: Engine<Native, NoExtension, NoExtension> = Engine::new(Native);
    let mut ctx = Context::new(object(vec![(
        "a",
        object(vec![("b", Value::Integer(1)), ("c", Value::Integer(41))]),
    )]));
    let position = path(vec![name("a"), name("b")]);
    let expression = parse("this + super.c", &Native).unwrap();
    assert_eq!(engine.eval(&expression, Some(&position), &mut ctx).unwrap(), Value::Integer(42));
    assert_eq!(
        engine.eval(&expression, None, &mut ctx).unwrap_err().kind,
        ErrorKind::RelativeWithoutPosition
    );
}

#[test]
fn a_position_that_refers_to_itself_hits_the_depth_limit() {
    let ctx = Context::new(object(vec![("a", array(vec![Value::Integer(0)]))]));
    let position = path(vec![
        name("a"),
        IdentifierValue::IdentifierIndex(path(vec![IdentifierValue::This])),
    ]);
    let this = path(vec![IdentifierValue::This]);
    assert_eq!(
        ctx.lookup_identifier(&this, Some(&position)).unwrap_err().kind,
        ErrorKind::DepthLimitExceeded
    );
}

#[test]
fn nesting_up_to_the_limit_resolves() {
    let ctx = Context::new(object(vec![("a", array(vec![Value::Integer(0)]))]));
    let nest = |depth: u32| {
        let mut id = path(vec![name("a"), IdentifierValue::IntegerIndex(0)]);
        for _ in 0..depth {
            id = path(vec![name("a"), IdentifierValue::IdentifierIndex(id)]);
        }
        id
    };
    assert_eq!(ctx.lookup_identifier(&nest(INDIRECTION_LIMIT), None).unwrap(), &Value::Integer(0));
    assert_eq!(
        ctx.lookup_identifier(&nest(INDIRECTION_LIMIT + 1), None).unwrap_err().kind,
        ErrorKind::DepthLimitExceeded
    );
    let root = object(vec![("a", array(vec![Value::Integer(0)]))]);
    assert_eq!(Lookup::lookup_identifier(&root, &nest(3), None, 3).unwrap(), &Value::Integer(0));
    assert_eq!(
        Lookup::lookup_identifier(&root, &nest(3), None, 2).unwrap_err().kind,
        ErrorKind::DepthLimitExceeded
    );
}

#[test]
fn update_with_identifier_value_moves_the_stack() {
    let root = object(vec![("a", array(vec![text("x"), text("y")]))]);
    let mut lookup = Lookup::new(&root);
    assert_eq!(lookup.stack.len(), 1);
    lookup.update_with_identifier_value(&name("a"), None, 0).unwrap();
    lookup.update_with_identifier_value(&IdentifierValue::IntegerIndex(-1), None, 0).unwrap();
    assert_eq!(lookup.stack.len(), 3);
    assert_eq!(*lookup.stack.last().unwrap(), &text("y"));
    lookup.update_with_identifier_value(&IdentifierValue::This, None, 0).unwrap();
    assert_eq!(lookup.stack.len(), 3);
    lookup.update_with_identifier_value(&IdentifierValue::Super, None, 0).unwrap();
    assert_eq!(*lookup.stack.last().unwrap(), &array(vec![text("x"), text("y")]));
    // a failing step leaves the stack as it was
    assert!(lookup.update_with_identifier_value(&name("b"), None, 0).is_err());
    assert_eq!(lookup.stack.len(), 2);
    lookup
        .update_with_identifier_value(&IdentifierValue::StringIndex("a".to_string()), None, 0)
        .unwrap_err();
    lookup.update_with_identifier_value(&IdentifierValue::Super, None, 0).unwrap();
    assert_eq!(
        lookup.update_with_identifier_value(&IdentifierValue::Super, None, 0).unwrap_err().kind,
        ErrorKind::SuperPastRoot
    );
}

fn system_time() -> Timestamp {
    let now = chrono::Utc::now();
    Timestamp { seconds: now.timestamp(), nanoseconds: now.timestamp_subsec_nanos() }
}

fn at(seconds: i64) -> Timestamp {
    Timestamp { seconds, nanoseconds: 0 }
}

fn wait() {
    let start = std::time::Instant::now();
    while start.elapsed() < std::time::Duration::from_millis(5) {}
}

#[test]
fn the_clock_is_read_once() {
    let mut ctx = Context::default();
    let first = ctx.cached_now(system_time);
    wait();
    let second = ctx.cached_now(system_time);
    assert_eq!(first, second);
    assert!(first.seconds > 1_500_000_000);
    let mut other = Context::default();
    wait();
    assert_ne!(other.cached_now(system_time), first);
}

struct Host;

impl Function for Host {
    fn call(&self, args: &[Value], document: &Value, clock: &mut Internal) -> Result<Value, Error> {
        if args.is_empty() {
            Ok(Value::Integer(clock.cached_now(system_time).seconds))
        } else {
            Ok(document.clone())
        }
    }
}

impl Filter for Host {
    fn apply(
        &self,
        input: &Value,
        args: &[(String, Value)],
        _document: &Value,
        _clock: &mut Internal,
    ) -> Result<Value, Error> {
        let mut items = vec![input.clone()];
        for (key, value) in args.iter() {
            items.push(Value::String(key.clone()));
            items.push(value.clone());
        }
        Ok(Value::Array(items))
    }
}

#[test]
fn the_host_registers_functions_and_filters() {
    let mut engine: Engine<Native, Host, Host> = Engine::new(Native);
    let mut ctx = Context::new(Value::Integer(7));
    let now = parse("NOW() == NOW()", &Native).unwrap();
    assert_eq!(engine.eval(&now, None, &mut ctx).unwrap_err().kind, ErrorKind::UnknownFunction);
    engine.register_function("NOW".to_string(), Host);
    engine.register_function("POW".to_string(), Host);
    engine.register_filter("PAIR".to_string(), Host);
    engine.register_filter("TRIM".to_string(), Host);
    assert_eq!(engine.eval(&now, None, &mut ctx).unwrap(), Value::Bool(true));
    let frozen = ctx.cached_now(system_time).seconds;
    let read = parse("NOW()", &Native).unwrap();
    assert_eq!(engine.eval(&read, None, &mut ctx).unwrap(), Value::Integer(frozen));
    let document = parse("NOW(1)", &Native).unwrap();
    assert_eq!(engine.eval(&document, None, &mut ctx).unwrap(), Value::Integer(7));
    // a built-in name keeps its meaning
    let pow = parse("POW(2, 3)", &Native).unwrap();
    assert_eq!(engine.eval(&pow, None, &mut ctx).unwrap(), Value::Integer(8));
    let trim = parse("' a ' | TRIM", &Native).unwrap();
    assert_eq!(engine.eval(&trim, None, &mut ctx).unwrap(), text("a"));
    // named arguments reach the filter in the order they were written
    let pair = parse("1 | PAIR(b: 2, a: 1 + 2)", &Native).unwrap();
    assert_eq!(
        engine.eval(&pair, None, &mut ctx).unwrap(),
        array(vec![
            Value::Integer(1),
            text("b"),
            Value::Integer(2),
            text("a"),
            Value::Integer(3)
        ])
    );
    // a failing argument ends the call
    let failing = parse("1 | PAIR(b: na)", &Native).unwrap();
    assert_eq!(engine.eval(&failing, None, &mut ctx).unwrap_err().kind, ErrorKind::NotAnObject);
    assert_eq!(ctx.data(), &Value::Integer(7));
}

#[test]
fn a_name_registered_again_stands_for_its_last_implementation() {
    let mut registry: Registry<i64> = Registry::new();
    assert_eq!(registry.find(&"a".to_string()), None);
    registry.register("a".to_string(), 1);
    registry.register("b".to_string(), 2);
    registry.register("a".to_string(), 3);
    assert_eq!(registry.find(&"a".to_string()), Some(&3));
    assert_eq!(registry.find(&"b".to_string()), Some(&2));
    assert_eq!(registry.find(&"A".to_string()), None);
    let mut engine: Engine<Native, NoExtension, NoExtension> = Engine::new(Native);
    engine.register_function("F".to_string(), NoExtension);
    engine.register_filter("G".to_string(), NoExtension);
    let mut ctx = Context::default();
    let call = parse("F()", &Native).unwrap();
    assert_eq!(engine.eval(&call, None, &mut ctx).unwrap_err().kind, ErrorKind::UnknownFunction);
    let pipe = parse("1 | G", &Native).unwrap();
    assert_eq!(engine.eval(&pipe, None, &mut ctx).unwrap_err().kind, ErrorKind::UnknownFilter);
}

#[test]
fn values_compare_by_content() {
    let a = object(vec![("x", Value::Integer(1)), ("y", array(vec![num(2.0), Value::Null]))]);
    let b = object(vec![
        ("y", array(vec![Value::Integer(2), Value::Null])),
        ("x", Value::Integer(0)),
        ("x", num(1.0)),
    ]);
    assert!(a.same(&b));
    assert!(b.same(&a));
    let c = object(vec![("x", Value::Integer(1))]);
    assert!(!a.same(&c));
    assert!(!c.same(&a));
    let d = object(vec![("x", Value::Integer(1)), ("y", array(vec![num(2.5), Value::Null]))]);
    assert!(!a.same(&d));
    assert!(!array(vec![]).same(&object(vec![])));
    assert!(!Value::Null.same(&Value::Bool(false)));
    assert!(!text("1").same(&Value::Integer(1)));
    assert!(array(vec![]).same(&array(vec![])));
    assert!(!array(vec![Value::Null]).same(&array(vec![])));
    assert_eq!(a.clone(), a);
}

#[test]
fn a_context_hands_its_document_and_clock_to_the_host() {
    let mut ctx = Context::new(Value::Integer(7));
    // with an argument, the host's function returns the document
    assert_eq!(ctx.call_function(&Host, &[Value::Null]).unwrap(), Value::Integer(7));
    // without one, it reads the clock: the context's own, which stays read
    let read = ctx.call_function(&Host, &[]).unwrap();
    assert_eq!(read, Value::Integer(ctx.cached_now(system_time).seconds));
    assert_eq!(ctx.call_function(&Host, &[]).unwrap(), read);
    let piped = ctx
        .apply_filter(&Host, &text("in"), &[("k".to_string(), Value::Bool(true))])
        .unwrap();
    assert_eq!(piped, array(vec![text("in"), text("k"), Value::Bool(true)]));
    assert_eq!(
        ctx.call_function(&NoExtension, &[]).unwrap_err().kind,
        ErrorKind::UnknownFunction
    );
    assert_eq!(
        ctx.apply_filter(&NoExtension, &Value::Null, &[]).unwrap_err().kind,
        ErrorKind::UnknownFilter
    );
    assert_eq!(ctx.data(), &Value::Integer(7));
}

#[test]
fn the_first_reading_is_the_time_of_a_context() {
    let mut ctx = Context::default();
    assert_eq!(ctx.cached_now(|| at(5)), at(5));
    // a full memo is handed out, and the clock is not asked again
    assert_eq!(ctx.cached_now(|| at(6)), at(5));
    let never = || -> Timestamp { panic!("the clock was read a second time") };
    assert_eq!(ctx.cached_now(never), at(5));
    assert_eq!(ctx.freeze(at(7)), at(5));

    let mut ctx = Context::default();
    assert_eq!(ctx.freeze(at(7)), at(7));
    assert_eq!(ctx.freeze(at(8)), at(7));
    assert_eq!(ctx.cached_now(|| at(9)), at(7));
    assert_eq!(ctx.data(), &Value::Null);
}

struct Clock;

impl Function for Clock {
    fn call(&self, args: &[Value], _document: &Value, clock: &mut Internal) -> Result<Value, Error> {
        let shown = args[0].as_i64().unwrap();
        let first = clock.cached_now(|| at(shown));
        Ok(Value::Integer(clock.freeze(at(first.seconds + 100)).seconds))
    }
}

#[test]
fn the_host_shares_the_clock_of_the_context() {
    let mut ctx = Context::default();
    assert_eq!(ctx.call_function(&Clock, &[Value::Integer(1)]).unwrap(), Value::Integer(1));
    assert_eq!(ctx.call_function(&Clock, &[Value::Integer(2)]).unwrap(), Value::Integer(1));
    assert_eq!(ctx.cached_now(|| at(3)), at(1));
}

#[test]
fn named_arguments_stand_for_their_last_value() {
    let args = vec![
        ("a".to_string(), Value::Integer(1)),
        ("b".to_string(), Value::Integer(2)),
        ("a".to_string(), Value::Integer(3)),
    ];
    assert_eq!(temen::value::argument(&args, &"a".to_string()), Some(&Value::Integer(3)));
    assert_eq!(temen::value::argument(&args, &"b".to_string()), Some(&Value::Integer(2)));
    assert_eq!(temen::value::argument(&args, &"c".to_string()), None);
    assert_eq!(temen::value::argument(&[], &"a".to_string()), None);
    // the filter gets every argument, in the order written
    let mut engine: Engine<Native, Host, Host> = Engine::new(Native);
    engine.register_filter("PAIR".to_string(), Host);
    let mut ctx = Context::default();
    let twice = parse("0 | PAIR(a: 1, a: 2)", &Native).unwrap();
    assert_eq!(
        engine.eval(&twice, None, &mut ctx).unwrap(),
        array(vec![Value::Integer(0), text("a"), Value::Integer(1), text("a"), Value::Integer(2)])
    );
}
