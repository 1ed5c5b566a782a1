use rule_engine::{Context, Engine, StructMap, Value};

fn float(x: f64) -> Value {
    Value::Float(x.to_bits())
}

#[test]
fn arithmetic_and_logic() {
    let engine = Engine::new();
    let ctx = Context::new().with_var("x", Value::Int(10)).with_var("y", Value::Int(3));

    let cases = vec![
        ("1 + 2 * 3", float(7.0)),
        ("(1 + 2) * 3", float(9.0)),
        ("x > y and x < 20", Value::Bool(true)),
        ("x % 3 == 1", Value::Bool(true)),
        ("not false or false", Value::Bool(true)),
    ];

    for (expr, expected) in cases {
        let val = engine.parse_and_eval(expr, &ctx).unwrap();
        assert_eq!(val, expected, "expr: {}", expr);
    }
}

#[test]
fn collections_and_structs() {
    let engine = Engine::new();
    let ctx = Context::new()
        .with_var("nums", Value::List(vec![Value::Int(1), Value::Int(2), Value::Int(3)]))
        .with_var("user", {
            let mut m = StructMap::new();
            m.insert("name".to_string(), Value::String("Alice".into()));
            m.insert("age".to_string(), Value::Int(30));
            Value::Struct(m)
        });

    let cases = vec![
        ("nums[1] == 2", Value::Bool(true)),
        ("user.name == \"Alice\"", Value::Bool(true)),
        ("len(nums) == 3", Value::Bool(true)),
        ("\"l\" contains \"l\"", Value::Bool(true)),
    ];

    for (expr, expected) in cases {
        let val = engine.parse_and_eval(expr, &ctx).unwrap();
        assert_eq!(val, expected, "expr: {}", expr);
    }
}

fn eval(text: &str) -> Value {
    Engine::new().parse_and_eval(text, &Context::new()).unwrap()
}

fn eval_err(text: &str) -> String {
    Engine::new().parse_and_eval(text, &Context::new()).unwrap_err().to_text()
}

#[test]
fn precedence_and_grouping() {
    assert_eq!(eval("1 + 2 * 3"), float(7.0));
    assert_eq!(eval("(1 + 2) * 3"), float(9.0));
    assert_eq!(eval("10 - 3 - 2"), float(5.0));
    assert_eq!(eval("2 * 3 + 4 * 5"), float(26.0));
    assert_eq!(eval("1 + 2 == 3"), Value::Bool(true));
    assert_eq!(eval("1 < 2 && 2 < 3 || false"), Value::Bool(true));
    assert_eq!(eval("-2 + 5"), Value::Int(3));
    assert_eq!(eval("- 2 * 3"), float(-6.0));
    assert_eq!(eval("!true || true"), Value::Bool(true));
    assert_eq!(eval("not false and true"), Value::Bool(true));
}

#[test]
fn numeric_promotion() {
    assert_eq!(eval("1 + 2"), Value::Int(3));
    assert_eq!(eval("1 + 2.5"), float(3.5));
    assert_eq!(eval("1.5 + 2"), float(3.5));
    assert_eq!(eval("3 - 1"), float(2.0));
    assert_eq!(eval("3 * 2"), float(6.0));
    assert_eq!(eval("6 / 3"), float(2.0));
    assert_eq!(eval("7 / 2"), float(3.5));
    assert_eq!(eval("7 % 4"), Value::Int(3));
    assert_eq!(eval("0.1 + 0.2"), float(0.1 + 0.2));
    assert_eq!(eval("1e3"), float(1000.0));
    assert_eq!(eval("2.5e-1 * 4"), float(1.0));
    assert_eq!(eval("\"ab\" + \"cd\""), Value::String("abcd".into()));
    assert_eq!(eval_err("1 / 0"), "eval error: division by zero");
    assert_eq!(eval_err("1 % 0"), "eval error: '%' expects non-zero integer rhs");
    assert_eq!(eval_err("1.5 % 2"), "eval error: '%' expects non-zero integer rhs");
    assert_eq!(eval_err("9223372036854775807 + 1"), "eval error: integer overflow");
}

#[test]
fn short_circuit_skips_the_right_operand() {
    assert_eq!(eval("false && missing"), Value::Bool(false));
    assert_eq!(eval("true || missing"), Value::Bool(true));
    assert_eq!(eval("false and missing"), Value::Bool(false));
    assert_eq!(eval("true or missing"), Value::Bool(true));
    assert_eq!(eval_err("true && missing"), "eval error: unknown identifier 'missing'");
    assert_eq!(eval_err("false || missing"), "eval error: unknown identifier 'missing'");
}

#[test]
fn structural_equality() {
    assert_eq!(eval("{a:1,b:2} == {b:2,a:1}"), Value::Bool(true));
    assert_eq!(eval("[1,2] != [2,1]"), Value::Bool(true));
    assert_eq!(eval("[1,2] == [1,2]"), Value::Bool(true));
    assert_eq!(eval("1 == 1.0"), Value::Bool(false));
    assert_eq!(eval("Some(1) == Some(1)"), Value::Bool(true));
    assert_eq!(eval("Some(1) == Other(1)"), Value::Bool(false));
    assert_eq!(eval("None == None"), Value::Bool(true));
    assert_eq!(eval("null == null"), Value::Bool(true));
}

#[test]
fn literals_members_and_indexing() {
    assert_eq!(eval("[1,2,3][1] == 2"), Value::Bool(true));
    assert_eq!(eval("{a:1,b:2}.a == 1"), Value::Bool(true));
    assert_eq!(eval("{a:1,b:2}[\"b\"]"), Value::Int(2));
    assert_eq!(eval("[]"), Value::List(vec![]));
    assert_eq!(eval("{}"), Value::Struct(StructMap::new()));
    assert_eq!(eval("{a:1,a:2}.a"), Value::Int(2));
    assert_eq!(eval_err("[1,2,3][3]"), "eval error: index out of range");
    assert_eq!(eval_err("[1,2,3][0-1]"), "eval error: indexing mismatch");
    assert_eq!(eval_err("[1,2,3][-1]"), "eval error: index out of range");
    assert_eq!(eval_err("{a:1}[\"b\"]"), "eval error: missing key");
    assert_eq!(eval_err("{a:1}.b"), "eval error: unknown field 'b'");
    assert_eq!(eval_err("(1).a"), "eval error: member access expects a struct");
    assert_eq!(eval("1.a"), float(1.0));
    assert_eq!(eval("\"a\\nb\""), Value::String("a\nb".into()));
    assert_eq!(eval("\"a\\qb\""), Value::String("aqb".into()));
}

#[test]
fn comparisons() {
    assert_eq!(eval("1 < 2"), Value::Bool(true));
    assert_eq!(eval("2 <= 2"), Value::Bool(true));
    assert_eq!(eval("1 < 1.5"), Value::Bool(true));
    assert_eq!(eval("2.5 >= 3"), Value::Bool(false));
    assert_eq!(eval("\"abc\" < \"abd\""), Value::Bool(true));
    assert_eq!(eval("\"ab\" < \"abc\""), Value::Bool(true));
    assert_eq!(eval("\"b\" > \"abc\""), Value::Bool(true));
    assert_eq!(eval("false < true"), Value::Bool(true));
    assert_eq!(eval_err("1 < \"a\""), "eval error: incompatible types for comparison");
    assert_eq!(eval_err("[1] < [2]"), "eval error: incompatible types for comparison");
}

#[test]
fn builtin_functions() {
    assert_eq!(eval("len(\"héllo\")"), Value::Int(5));
    assert_eq!(eval("len([1,2,3])"), Value::Int(3));
    assert_eq!(eval("len({a:1,b:2})"), Value::Int(2));
    assert_eq!(eval("lower(\"AbC\")"), Value::String("abc".into()));
    assert_eq!(eval("upper(\"AbC\")"), Value::String("ABC".into()));
    assert_eq!(eval("abs(0 - 5)"), float(5.0));
    assert_eq!(eval("abs(-5)"), Value::Int(5));
    assert_eq!(eval("abs(-2.5)"), float(2.5));
    assert_eq!(eval("min(1, 2)"), Value::Int(1));
    assert_eq!(eval("max(1, 2)"), Value::Int(2));
    assert_eq!(eval("min(1, 0.5)"), float(0.5));
    assert_eq!(eval("max(1, 0.5)"), float(1.0));
    assert_eq!(eval("max(1.5, 2.5)"), float(2.5));
    assert_eq!(eval_err("len(1)"), "eval error: len expects one string, list, or struct");
    assert_eq!(eval_err("lower(1)"), "eval error: lower expects one string");
    assert_eq!(eval_err("min(1)"), "eval error: min expects two arguments");
    assert_eq!(eval_err("min(1, \"a\")"), "eval error: min expects numbers");
    assert_eq!(eval_err("nope(1)"), "eval error: unknown function 'nope'");
    assert_eq!(eval("\"hello\" contains \"ell\""), Value::Bool(true));
    assert_eq!(eval("\"hello\" contains \"elx\""), Value::Bool(false));
    assert_eq!(eval("[1,2,3] contains 2"), Value::Bool(true));
    assert_eq!(eval("[1,2,3] contains 4"), Value::Bool(false));
}

#[test]
fn combinators_and_method_sugar() {
    let engine = Engine::new();
    let mut a = StructMap::new();
    a.insert("price".to_string(), float(30.0));
    a.insert("tag".to_string(), Value::String("x".into()));
    let mut b = StructMap::new();
    b.insert("price".to_string(), float(25.0));
    let mut c = StructMap::new();
    c.insert("price".to_string(), float(55.0));
    c.insert("qty".to_string(), Value::Int(2));
    let ctx = Context::new()
        .with_var("cart", Value::List(vec![Value::Struct(a), Value::Struct(b), Value::Struct(c)]))
        .with_var("nums", Value::List(vec![Value::Int(1), Value::Int(2), Value::Int(3), Value::Int(4)]));
    let run = |text: &str| engine.parse_and_eval(text, &ctx).unwrap();
    assert_eq!(run("sum_by(cart, i => i.price)"), float(110.0));
    assert_eq!(run("sum_by(cart, i => i.price) > 100"), Value::Bool(true));
    assert_eq!(
        run("map(filter(cart, i => i.price > 26), i => i.price)"),
        Value::List(vec![float(30.0), float(55.0)])
    );
    assert_eq!(
        run("cart.where(i => i.price > 26).select(i => i.price)"),
        run("map(filter(cart, i => i.price > 26), i => i.price)")
    );
    assert_eq!(run("filter(nums, n => n % 2 == 0)"), Value::List(vec![Value::Int(2), Value::Int(4)]));
    assert_eq!(run("map(nums, n => n + 1)"), Value::List(vec![Value::Int(2), Value::Int(3), Value::Int(4), Value::Int(5)]));
    assert_eq!(run("count(nums)"), Value::Int(4));
    assert_eq!(run("count(nums, n => n > 1)"), Value::Int(3));
    assert_eq!(run("nums.count(n => n > 1)"), Value::Int(3));
    assert_eq!(run("sum(nums)"), float(10.0));
    assert_eq!(run("nums.sum(n => n * 2)"), float(20.0));
    assert_eq!(run("any(nums, n => n > 3)"), Value::Bool(true));
    assert_eq!(run("all(nums, n => n > 3)"), Value::Bool(false));
    assert_eq!(run("any(nums, n => n > 0 || missing)"), Value::Bool(true));
    assert_eq!(run("nums.avg(n => n)"), float(2.5));
    assert_eq!(run("nums.min(n => n)"), Value::Int(1));
    assert_eq!(run("nums.max(n => n * 1.5)"), float(6.0));
    assert_eq!(run("len(nums.where(n => n > 2))"), Value::Int(2));
    let fail = |text: &str| engine.parse_and_eval(text, &ctx).unwrap_err().to_text();
    assert_eq!(fail("filter(nums, n => n)"), "eval error: filter lambda must return bool");
    assert_eq!(fail("filter(1, n => n)"), "eval error: filter expects list as first argument");
    assert_eq!(fail("sum_by(nums, n => \"a\")"), "eval error: sum_by lambda must return number");
    assert_eq!(fail("n => n"), "eval error: lambdas must be passed to higher-order functions");
    assert_eq!(fail("map(nums, 1)"), "eval error: unknown function 'map'");
}

#[test]
fn lambda_parameter_shadows_outer_variable() {
    let engine = Engine::new();
    let ctx = Context::new()
        .with_var("n", Value::Int(100))
        .with_var("nums", Value::List(vec![Value::Int(1), Value::Int(2)]));
    let v = engine.parse_and_eval("map(nums, n => n + 1)", &ctx).unwrap();
    assert_eq!(v, Value::List(vec![Value::Int(2), Value::Int(3)]));
    let v = engine.parse_and_eval("n", &ctx).unwrap();
    assert_eq!(v, Value::Int(100));
}

#[test]
fn custom_functions_and_operators() {
    let engine = Engine::new()
        .with_function("double", |args: &[Value]| match args {
            [Value::Int(n)] => Ok(Value::Int(n * 2)),
            _ => Ok(Value::Null),
        })
        .with_operator("xor", 1, rule_engine::Assoc::Left, |a: &Value, b: &Value| match (a, b) {
            (Value::Bool(x), Value::Bool(y)) => Ok(Value::Bool(x != y)),
            _ => Ok(Value::Null),
        })
        .with_operator("pow", 7, rule_engine::Assoc::Right, |a: &Value, b: &Value| match (a, b) {
            (Value::Int(x), Value::Int(y)) => Ok(Value::Int(x.pow(*y as u32))),
            _ => Ok(Value::Null),
        });
    let ctx = Context::new();
    assert_eq!(engine.parse_and_eval("double(21)", &ctx).unwrap(), Value::Int(42));
    assert_eq!(engine.parse_and_eval("true xor false", &ctx).unwrap(), Value::Bool(true));
    assert_eq!(engine.parse_and_eval("true xor true", &ctx).unwrap(), Value::Bool(false));
    assert_eq!(engine.parse_and_eval("2 pow 3 pow 2", &ctx).unwrap(), Value::Int(512));
    assert_eq!(engine.parse_and_eval("1 + 2 pow 3", &ctx).unwrap(), Value::Int(9));
}

#[test]
fn parse_errors_carry_positions() {
    let cases = vec![
        ("1 +", "parse error: unexpected token: Eof at position 3"),
        ("(1 + 2", "parse error: expected ')' at position 6"),
        ("[1, 2", "parse error: expected ',' or ']' in list at position 5"),
        ("{a 1}", "parse error: expected ':' after key at position 3"),
        ("{1: 2}", "parse error: expected identifier key in struct literal at position 1"),
        ("{a: 1", "parse error: expected ',' or '}' in struct literal at position 5"),
        ("f(1", "parse error: expected ',' or ')' in call at position 3"),
        ("a.1", "parse error: expected identifier after '.' at position 2"),
        ("a[1", "parse error: expected ']' at position 3"),
        ("Some(1, 2)", "parse error: enum variant expects 0 or 1 argument at position 0"),
        ("Some()", "parse error: enum variant expects 0 or 1 argument at position 0"),
        ("\"abc", "parse error: unterminated string literal at position 0"),
        ("\"abc\\", "parse error: unterminated escape in string at position 0"),
        ("1 & 2", "parse error: unexpected '&' (did you mean '&&'?) at position 2"),
        ("1 | 2", "parse error: unexpected '|' (did you mean '||'?) at position 2"),
        ("1 = 2", "parse error: unexpected '=' (did you mean '==')? at position 2"),
        ("1 # 2", "parse error: unexpected character '#' at position 2"),
        ("é", "parse error: unexpected character 'é' at position 0"),
        ("\"é\" §", "parse error: unexpected character '§' at position 5"),
        ("99999999999999999999", "parse error: integer literal out of range at position 0"),
        ("1.5e", "parse error: invalid number literal at position 0"),
        (")", "parse error: unexpected token: RParen at position 0"),
    ];
    for (text, want) in cases {
        assert_eq!(eval_err(text), want, "{}", text);
    }
}
