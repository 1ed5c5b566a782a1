use rule_engine::{Engine, EngineError, Expr, Lexer, OperatorRegistry, Parser, TokenKind, UnaryOp, Value};

fn kinds(text: &str) -> Vec<(TokenKind, usize)> {
    Lexer::new(text).tokenize().unwrap().into_iter().map(|t| (t.kind, t.position)).collect()
}

#[test]
fn tokens_carry_byte_positions() {
    assert_eq!(
        kinds("ab + 12"),
        vec![
            (TokenKind::Ident("ab".into()), 0),
            (TokenKind::Plus, 3),
            (TokenKind::Number("12".into()), 5),
            (TokenKind::Eof, 7),
        ]
    );
    assert_eq!(
        kinds("\"é\" x"),
        vec![(TokenKind::String("é".into()), 0), (TokenKind::Ident("x".into()), 5), (TokenKind::Eof, 6)]
    );
    assert_eq!(kinds(""), vec![(TokenKind::Eof, 0)]);
    assert_eq!(kinds("  \t\n "), vec![(TokenKind::Eof, 5)]);
    assert_eq!(kinds("\u{2003}x"), vec![(TokenKind::Ident("x".into()), 3), (TokenKind::Eof, 4)]);
}

#[test]
fn every_kind_of_token() {
    let got: Vec<TokenKind> = kinds("( ) [ ] { } , : . + - * / % ! && || == != < <= > >= => true false null _a1 1.5e-3 \"s\"")
        .into_iter()
        .map(|(k, _)| k)
        .collect();
    assert_eq!(
        got,
        vec![
            TokenKind::LParen,
            TokenKind::RParen,
            TokenKind::LBracket,
            TokenKind::RBracket,
            TokenKind::LBrace,
            TokenKind::RBrace,
            TokenKind::Comma,
            TokenKind::Colon,
            TokenKind::Dot,
            TokenKind::Plus,
            TokenKind::Minus,
            TokenKind::Star,
            TokenKind::Slash,
            TokenKind::Percent,
            TokenKind::Bang,
            TokenKind::AndAnd,
            TokenKind::OrOr,
            TokenKind::EqEq,
            TokenKind::NotEq,
            TokenKind::Lt,
            TokenKind::Le,
            TokenKind::Gt,
            TokenKind::Ge,
            TokenKind::Arrow,
            TokenKind::True,
            TokenKind::False,
            TokenKind::Null,
            TokenKind::Ident("_a1".into()),
            TokenKind::Number("1.5e-3".into()),
            TokenKind::String("s".into()),
            TokenKind::Eof,
        ]
    );
}

#[test]
fn numbers_and_words() {
    assert_eq!(kinds("1e5"), vec![(TokenKind::Number("1e5".into()), 0), (TokenKind::Eof, 3)]);
    assert_eq!(kinds("12E-3x")[0].0, TokenKind::Number("12E-3".into()));
    assert_eq!(kinds("1.5.2")[1].0, TokenKind::Dot);
    assert_eq!(kinds("1.e5")[0].0, TokenKind::Number("1.e5".into()));
    assert_eq!(kinds("1.5E+10")[0].0, TokenKind::Number("1.5E+10".into()));
    assert_eq!(kinds("truex")[0].0, TokenKind::Ident("truex".into()));
    assert_eq!(kinds("nulls")[0].0, TokenKind::Ident("nulls".into()));
    assert_eq!(kinds("True")[0].0, TokenKind::Ident("True".into()));
    assert_eq!(kinds("a<=b").len(), 4);
    assert_eq!(kinds("!x")[0].0, TokenKind::Bang);
    assert_eq!(kinds("\"a\\tb\\\\c\\\"d\\re\"")[0].0, TokenKind::String("a\tb\\c\"d\re".into()));
}

#[test]
fn lexer_errors() {
    let err = |text: &str| {
        let e = Lexer::new(text).tokenize().unwrap_err();
        (e.message, e.position)
    };
    assert_eq!(err("a \"bc"), ("unterminated string literal".to_string(), 2));
    assert_eq!(err("\"bc\\"), ("unterminated escape in string".to_string(), 0));
    assert_eq!(err("a & b"), ("unexpected '&' (did you mean '&&'?)".to_string(), 2));
    assert_eq!(err("a | b"), ("unexpected '|' (did you mean '||'?)".to_string(), 2));
    assert_eq!(err("a = b"), ("unexpected '=' (did you mean '==')?".to_string(), 2));
    assert_eq!(err("a ? b"), ("unexpected character '?'".to_string(), 2));
}

fn lit(n: i64) -> Box<Expr> {
    Box::new(Expr::Literal(Value::Int(n)))
}

fn parse(text: &str) -> Expr {
    Engine::new().parse(text).unwrap()
}

#[test]
fn trees_follow_binding_powers() {
    assert_eq!(
        parse("1 + 2 * 3"),
        Expr::Binary {
            left: lit(1),
            op: "+".into(),
            right: Box::new(Expr::Binary { left: lit(2), op: "*".into(), right: lit(3) }),
        }
    );
    assert_eq!(
        parse("10 - 3 - 2"),
        Expr::Binary {
            left: Box::new(Expr::Binary { left: lit(10), op: "-".into(), right: lit(3) }),
            op: "-".into(),
            right: lit(2),
        }
    );
    assert_eq!(
        parse("-1 * 2"),
        Expr::Binary {
            left: Box::new(Expr::Unary { op: UnaryOp::Neg, expr: lit(1) }),
            op: "*".into(),
            right: lit(2),
        }
    );
    assert_eq!(
        parse("not a and b"),
        Expr::Binary {
            left: Box::new(Expr::Unary {
                op: UnaryOp::WordNot,
                expr: Box::new(Expr::Ident("a".into())),
            }),
            op: "and".into(),
            right: Box::new(Expr::Ident("b".into())),
        }
    );
    assert_eq!(parse("1 2"), Expr::Literal(Value::Int(1)));
}

#[test]
fn prefix_and_postfix_forms() {
    assert_eq!(
        parse("f(1, x)"),
        Expr::Call { name: "f".into(), args: vec![*lit(1), Expr::Ident("x".into())] }
    );
    assert_eq!(parse("f()"), Expr::Call { name: "f".into(), args: vec![] });
    assert_eq!(
        parse("a.b[0]"),
        Expr::Index {
            target: Box::new(Expr::Member {
                target: Box::new(Expr::Ident("a".into())),
                member: "b".into(),
            }),
            index: lit(0),
        }
    );
    assert_eq!(
        parse("x => x + 1"),
        Expr::Lambda {
            param: "x".into(),
            body: Box::new(Expr::Binary {
                left: Box::new(Expr::Ident("x".into())),
                op: "+".into(),
                right: lit(1),
            }),
        }
    );
    assert_eq!(parse("Red"), Expr::EnumVariant { name: "Red".into(), payload: None });
    assert_eq!(parse("Some(1)"), Expr::EnumVariant { name: "Some".into(), payload: Some(lit(1)) });
    assert_eq!(
        parse("{b: 1, a: 2}"),
        Expr::StructLiteral(vec![("b".to_string(), *lit(1)), ("a".to_string(), *lit(2))])
    );
    assert_eq!(parse("[1, [2]]"), Expr::ListLiteral(vec![*lit(1), Expr::ListLiteral(vec![*lit(2)])]));
    assert_eq!(parse("(1)(2)"), *lit(1));
    assert_eq!(parse("1.5"), Expr::Literal(Value::Float(1.5f64.to_bits())));
    assert_eq!(parse("\"s\""), Expr::Literal(Value::String("s".into())));
}

#[test]
fn method_calls_become_calls() {
    assert_eq!(parse("xs.where(x => x)"), parse("filter(xs, x => x)"));
    assert_eq!(parse("xs.select(x => x)"), parse("map(xs, x => x)"));
    assert_eq!(parse("xs.sum(x => x)"), parse("sum_by(xs, x => x)"));
    assert_eq!(parse("xs.sum()"), parse("sum(xs)"));
    assert_eq!(parse("xs.count(x => x)"), parse("count(xs, x => x)"));
    assert_eq!(parse("xs.count()"), parse("count(xs)"));
    assert_eq!(parse("xs.avg(x => x)"), parse("avg(xs, x => x)"));
    assert_eq!(parse("s.lower()"), parse("lower(s)"));
    assert_eq!(
        parse("xs.where(x => x > 1).select(x => x * 2)"),
        parse("map(filter(xs, x => x > 1), x => x * 2)")
    );
}

#[test]
fn a_parser_reads_one_expression_after_another() {
    let ops = OperatorRegistry::default();
    let mut parser = Parser::new("1 + 2 x", &ops).unwrap();
    assert_eq!(
        parser.parse_expression().unwrap(),
        Expr::Binary { left: lit(1), op: "+".into(), right: lit(2) }
    );
    assert_eq!(parser.parse_expression().unwrap(), Expr::Ident("x".into()));
    assert!(matches!(parser.parse_expression(), Err(EngineError::Parse(_))));
    assert!(matches!(Parser::new("\"open", &ops), Err(EngineError::Parse(_))));
}

#[test]
fn words_are_operators_only_where_registered() {
    let plain = OperatorRegistry::new();
    let mut parser = Parser::new("a and b", &plain).unwrap();
    assert_eq!(parser.parse_expression().unwrap(), Expr::Ident("a".into()));
    let engine = Engine::new();
    assert_eq!(
        engine.parse("a contains b or c").unwrap(),
        Expr::Binary {
            left: Box::new(Expr::Binary {
                left: Box::new(Expr::Ident("a".into())),
                op: "contains".into(),
                right: Box::new(Expr::Ident("b".into())),
            }),
            op: "or".into(),
            right: Box::new(Expr::Ident("c".into())),
        }
    );
}
