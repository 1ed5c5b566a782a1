use rule_engine::{
    Context, Engine, EngineError, EvalError, Evaluator, FunctionRegistry, OperatorRegistry,
    ParseError, Scope, StructMap, Value,
};

fn float(x: f64) -> Value {
    Value::Float(x.to_bits())
}

fn sample_struct() -> Value {
    let mut m = StructMap::new();
    m.insert("b".to_string(), Value::Int(2));
    m.insert("a".to_string(), Value::Int(1));
    m.insert("c".to_string(), Value::List(vec![Value::Null, Value::Bool(true)]));
    Value::Struct(m)
}

#[test]
fn kind_names() {
    assert_eq!(Value::Null.kind_name(), "null");
    assert_eq!(Value::Bool(true).kind_name(), "bool");
    assert_eq!(Value::Int(1).kind_name(), "int");
    assert_eq!(float(1.0).kind_name(), "float");
    assert_eq!(Value::String("x".into()).kind_name(), "string");
    assert_eq!(Value::List(vec![]).kind_name(), "list");
    assert_eq!(sample_struct().kind_name(), "struct");
    assert_eq!(Value::Enum { name: "A".into(), payload: None }.kind_name(), "enum");
}

#[test]
fn accessors_answer_only_for_their_tag() {
    assert_eq!(Value::Bool(true).as_bool(), Some(true));
    assert_eq!(Value::Int(1).as_bool(), None);
    assert_eq!(Value::Int(7).as_int(), Some(7));
    assert_eq!(float(7.0).as_int(), None);
    assert_eq!(float(7.5).as_float(), Some(7.5f64.to_bits()));
    assert_eq!(Value::Int(7).as_float(), None);
    assert_eq!(Value::String("hi".into()).as_string(), Some("hi"));
    assert_eq!(Value::Null.as_string(), None);
}

#[test]
fn fields_and_indices() {
    let s = sample_struct();
    assert_eq!(s.get_field("a"), Some(&Value::Int(1)));
    assert_eq!(s.get_field("z"), None);
    assert_eq!(Value::Int(1).get_field("a"), None);
    assert_eq!(s.get_index(&Value::String("b".into())), Some(&Value::Int(2)));
    assert_eq!(s.get_index(&Value::Int(0)), None);
    let l = Value::List(vec![Value::Int(10), Value::Int(20)]);
    assert_eq!(l.get_index(&Value::Int(1)), Some(&Value::Int(20)));
    assert_eq!(l.get_index(&Value::Int(2)), None);
    assert_eq!(l.get_index(&Value::Int(-1)), None);
    assert_eq!(l.get_index(&Value::String("a".into())), None);
}

#[test]
fn struct_fields_are_kept_in_key_order() {
    let mut m = StructMap::new();
    m.insert("pear".to_string(), Value::Int(1));
    m.insert("apple".to_string(), Value::Int(2));
    m.insert("fig".to_string(), Value::Int(3));
    m.insert("apple".to_string(), Value::Int(4));
    m.insert("Zed".to_string(), Value::Int(5));
    m.insert("app".to_string(), Value::Int(6));
    assert_eq!(m.keys(), vec!["Zed", "app", "apple", "fig", "pear"]);
    assert_eq!(m.len(), 5);
    assert_eq!(m.get("apple"), Some(&Value::Int(4)));
    assert_eq!(m.get("none"), None);
}

#[test]
fn values_are_written_unambiguously() {
    assert_eq!(Value::Null.to_text(), "null");
    assert_eq!(Value::Bool(true).to_text(), "true");
    assert_eq!(Value::Bool(false).to_text(), "false");
    assert_eq!(Value::Int(0).to_text(), "0");
    assert_eq!(Value::Int(42).to_text(), "42");
    assert_eq!(Value::Int(-42).to_text(), "-42");
    assert_eq!(Value::Int(i64::MAX).to_text(), "9223372036854775807");
    assert_eq!(Value::Int(i64::MIN).to_text(), "-9223372036854775808");
    assert_eq!(float(7.0).to_text(), "7");
    assert_eq!(float(0.15).to_text(), "0.15");
    assert_eq!(float(-2.5).to_text(), "-2.5");
    assert_eq!(float(f64::NAN).to_text(), "NaN");
    assert_eq!(float(f64::INFINITY).to_text(), "inf");
    assert_eq!(Value::String("hi".into()).to_text(), "\"hi\"");
    assert_eq!(Value::String("a\"b".into()).to_text(), "\"a\\\"b\"");
    assert_eq!(Value::String("a\\b".into()).to_text(), "\"a\\\\b\"");
    assert_eq!(Value::String("a\nb".into()).to_text(), "\"a\nb\"");
    assert_eq!(
        Value::List(vec![Value::String("\"".into())]).to_text(),
        "[\"\\\"\"]"
    );
    assert_eq!(Value::List(vec![]).to_text(), "[]");
    assert_eq!(Value::List(vec![Value::Int(1), float(2.5), Value::Null]).to_text(), "[1, 2.5, null]");
    assert_eq!(sample_struct().to_text(), "{a: 1, b: 2, c: [null, true]}");
    assert_eq!(Value::Struct(StructMap::new()).to_text(), "{}");
    assert_eq!(Value::Enum { name: "None".into(), payload: None }.to_text(), "None");
    assert_eq!(
        Value::Enum { name: "Some".into(), payload: Some(Box::new(Value::Int(1))) }.to_text(),
        "Some(1)"
    );
}

#[test]
fn written_values_read_back() {
    let engine = Engine::new();
    let ctx = Context::new();
    let values = vec![
        Value::Null,
        Value::Bool(true),
        Value::Bool(false),
        Value::Int(0),
        Value::Int(7),
        Value::Int(-7),
        Value::Int(i64::MAX),
        Value::Int(i64::MIN + 1),
        Value::Int(i64::MIN),
        Value::String("".into()),
        Value::String("plain text, with spaces".into()),
        Value::String("a\"b".into()),
        Value::String("\"".into()),
        Value::String("\\".into()),
        Value::String("back\\slash and \"quotes\" and \\n".into()),
        Value::String("line\nbreak\ttab\rreturn".into()),
        Value::String("héllo ∑ 😀".into()),
        Value::List(vec![Value::String("a\"b".into()), Value::String("c\\".into())]),
        float(0.15),
        float(-2.5),
        float(1234.5678),
        float(999999999999999.9),
        Value::List(vec![Value::Int(1), Value::String("a".into())]),
        sample_struct(),
        Value::Enum { name: "Some".into(), payload: Some(Box::new(Value::Int(1))) },
        Value::Enum { name: "Nothing".into(), payload: None },
    ];
    for v in values {
        let back = engine.parse_and_eval(&v.to_text(), &ctx).unwrap();
        assert_eq!(back, v, "{}", v.to_text());
    }
    for x in [
        7.0f64,
        100.0,
        0.0,
        -0.0,
        -7.0,
        1e15,
        -1e15,
        123456789.0,
        4503599627370496.0,
        9007199254740991.0,
        -9007199254740991.0,
    ] {
        let back = engine.parse_and_eval(&float(x).to_text(), &ctx).unwrap();
        assert_eq!(back, Value::Int(x as i64));
    }
    assert_eq!(float(-0.0).to_text(), "-0");
    assert_eq!(float(9007199254740991.0).to_text(), "9007199254740991");
    assert_eq!(float(9007199254740992.0).to_text(), "9007199254740992");
    assert_eq!(float(1e21).to_text(), "1000000000000000000000");
}

#[test]
fn equality_is_deep_and_numeric() {
    assert_eq!(float(0.0), float(-0.0));
    assert_ne!(float(f64::NAN), float(f64::NAN));
    assert_ne!(Value::Int(1), float(1.0));
    assert_eq!(sample_struct(), sample_struct());
    assert_eq!(sample_struct().clone(), sample_struct());
    assert_ne!(Value::List(vec![Value::Int(1)]), Value::List(vec![Value::Int(1), Value::Int(2)]));
    assert!(sample_struct().equals(&sample_struct().duplicate()));
}

#[test]
fn errors_are_written_with_their_kind() {
    let p = ParseError::new("unexpected token", 12);
    assert_eq!(p.message, "unexpected token");
    assert_eq!(p.position, 12);
    assert_eq!(p.to_text(), "unexpected token at position 12");
    let e = EvalError::new("division by zero");
    assert_eq!(e.to_text(), "division by zero");
    assert_eq!(EngineError::Parse(p).to_text(), "parse error: unexpected token at position 12");
    assert_eq!(EngineError::Eval(e).to_text(), "eval error: division by zero");
    assert_eq!(ParseError::new("x", 0).to_text(), "x at position 0");
    assert_eq!(ParseError::new("x", 1234567890).to_text(), "x at position 1234567890");
}

#[test]
fn scopes_bind_and_shadow() {
    let scope = Scope::new().with_var("x", Value::Int(1)).with_var("y", Value::Int(2));
    assert_eq!(scope.get("x"), Some(&Value::Int(1)));
    assert_eq!(scope.get("z"), None);
    let inner = scope.clone().with_var("x", Value::Int(10));
    assert_eq!(inner.get("x"), Some(&Value::Int(10)));
    assert_eq!(inner.get("y"), Some(&Value::Int(2)));
    assert_eq!(scope.get("x"), Some(&Value::Int(1)));
    assert_eq!(Scope::default().get("x"), None);
}

#[test]
fn registries_hold_one_handler_per_name() {
    let mut funcs = FunctionRegistry::new();
    assert!(funcs.get("len").is_none());
    funcs.register("one", |_: &[Value]| Ok(Value::Int(1)));
    funcs.register("one", |_: &[Value]| Ok(Value::Int(2)));
    assert_eq!(funcs.funcs.len(), 1);
    assert_eq!(funcs.get("one").unwrap().call(&[]).unwrap(), Value::Int(2));
    assert!(FunctionRegistry::default().get("len").is_some());
    assert!(FunctionRegistry::default().get("one").is_none());

    let mut ops = OperatorRegistry::new();
    assert!(ops.get_binary("+").is_none());
    ops.register_unary("~", |v: &Value| Ok(v.clone()));
    ops.register_binary("first", 9, rule_engine::Assoc::Right, |a: &Value, _: &Value| Ok(a.clone()));
    assert_eq!(ops.get_unary("~").unwrap().call(&Value::Int(3)).unwrap(), Value::Int(3));
    let spec = ops.get_binary("first").unwrap();
    assert_eq!(spec.precedence, 9);
    assert_eq!(spec.associativity, rule_engine::Assoc::Right);
    assert_eq!(spec.func.call(&Value::Int(1), &Value::Int(2)).unwrap(), Value::Int(1));

    let defaults = OperatorRegistry::default();
    for (name, precedence) in [
        ("||", 1),
        ("or", 1),
        ("&&", 2),
        ("and", 2),
        ("==", 3),
        ("!=", 3),
        ("contains", 3),
        ("<", 4),
        ("<=", 4),
        (">", 4),
        (">=", 4),
        ("+", 5),
        ("-", 5),
        ("*", 6),
        ("/", 6),
        ("%", 6),
    ] {
        let spec = defaults.get_binary(name).unwrap();
        assert_eq!(spec.precedence, precedence, "{}", name);
        assert_eq!(spec.associativity, rule_engine::Assoc::Left);
    }
    for name in ["!", "not", "-u", "+u"] {
        assert!(defaults.get_unary(name).is_some(), "{}", name);
    }
    assert!(defaults.get_unary("-").is_none());
    assert_eq!(
        defaults.get_unary("-u").unwrap().call(&Value::Int(i64::MIN)).unwrap_err().to_text(),
        "eval error: integer overflow"
    );
    assert_eq!(
        defaults.get_unary("!").unwrap().call(&Value::Int(1)).unwrap_err().to_text(),
        "eval error: operator '!' expects bool, got int"
    );
}

#[test]
fn evaluation_is_repeatable() {
    let engine = Engine::new();
    let ctx = Context::new().with_var("x", float(2.5));
    let expr = engine.parse("[x * 2, {k: x + 1}, len(\"abc\"), Tag(x)]").unwrap();
    let again = engine.parse("[x * 2, {k: x + 1}, len(\"abc\"), Tag(x)]").unwrap();
    assert_eq!(expr, again);
    let first = engine.eval(&expr, &ctx).unwrap();
    let second = engine.eval(&expr, &ctx).unwrap();
    assert_eq!(first, second);
    let ev = Evaluator::new(&engine.funcs, &engine.ops);
    assert_eq!(ev.eval(&expr, &ctx.scope).unwrap(), first);
}

#[test]
fn a_struct_does_not_depend_on_the_order_of_its_fields() {
    let mut first = StructMap::new();
    first.insert("fig".to_string(), Value::Int(1));
    first.insert("apple".to_string(), float(2.5));
    first.insert("pear".to_string(), Value::Null);
    let mut second = StructMap::new();
    second.insert("pear".to_string(), Value::Null);
    second.insert("apple".to_string(), float(2.5));
    second.insert("fig".to_string(), Value::Int(1));
    let a = Value::Struct(first);
    let b = Value::Struct(second);
    assert!(a.equals(&b));
    assert!(b.equals(&a));
    assert_eq!(a.to_text(), b.to_text());
    assert_eq!(a.get_field("apple"), Some(&float(2.5)));
    assert_eq!(b.get_field("fig"), Some(&Value::Int(1)));
}

#[test]
fn a_stored_field_leaves_the_others_as_they_were() {
    let mut m = StructMap::new();
    m.insert("b".to_string(), Value::Int(2));
    m.insert("a".to_string(), Value::Int(1));
    m.insert("b".to_string(), Value::Int(3));
    assert_eq!(m.get("a"), Some(&Value::Int(1)));
    assert_eq!(m.get("b"), Some(&Value::Int(3)));
    assert_eq!(m.get("c"), None);
}

#[test]
fn equality_reads_the_same_from_either_side() {
    let samples = vec![
        Value::Null,
        Value::Bool(true),
        Value::Int(1),
        float(1.0),
        float(f64::NAN),
        Value::String("1".to_string()),
        Value::List(vec![Value::Int(1), Value::Int(2)]),
        Value::List(vec![Value::Int(2), Value::Int(1)]),
        sample_struct(),
    ];
    for a in &samples {
        for b in &samples {
            assert_eq!(a.equals(b), b.equals(a));
        }
    }
    assert!(!float(f64::NAN).equals(&float(f64::NAN)));
    assert!(!Value::Int(1).equals(&float(1.0)));
}

#[test]
fn errors_convert_into_engine_errors() {
    let p: EngineError = ParseError::new("unexpected end of input", 4).into();
    assert!(matches!(&p, EngineError::Parse(e) if e.position == 4));
    assert_eq!(p.to_text(), "parse error: unexpected end of input at position 4");
    let e = EngineError::from(EvalError::new("unknown identifier: x"));
    assert!(matches!(&e, EngineError::Eval(inner) if inner.message == "unknown identifier: x"));
    assert_eq!(e.to_text(), "eval error: unknown identifier: x");
}

#[test]
fn the_least_int_is_a_negative_literal() {
    let engine = Engine::new();
    let ctx = Context::new();
    assert_eq!(
        engine.parse_and_eval("-9223372036854775808", &ctx).unwrap(),
        Value::Int(i64::MIN)
    );
    assert_eq!(
        engine.parse_and_eval("- 9223372036854775808", &ctx).unwrap(),
        Value::Int(i64::MIN)
    );
    assert_eq!(
        engine.parse_and_eval("-9223372036854775808 + 1", &ctx).unwrap(),
        Value::Int(i64::MIN + 1)
    );
    assert_eq!(
        engine.parse_and_eval("-9223372036854775807", &ctx).unwrap(),
        Value::Int(i64::MIN + 1)
    );
    assert_eq!(
        engine.parse_and_eval("-09223372036854775808", &ctx).unwrap(),
        Value::Int(i64::MIN)
    );
    let e = engine.parse_and_eval("9223372036854775808", &ctx).unwrap_err();
    assert_eq!(e.to_text(), "parse error: integer literal out of range at position 0");
    let e = engine.parse_and_eval("-9223372036854775809", &ctx).unwrap_err();
    assert_eq!(e.to_text(), "parse error: integer literal out of range at position 1");
}
