use rule_engine::{
    AuditLog, Engine, RuleAction, RuleChain, RuleChainBuilder, RuleContext, RuleEngine,
    RuleOutcome, RuleStep, StructMap, Value,
};

fn float(x: f64) -> Value {
    Value::Float(x.to_bits())
}

fn shop(vip: bool, prices: &[f64]) -> RuleContext {
    let mut user = StructMap::new();
    user.insert("is_vip".to_string(), Value::Bool(vip));
    let mut cart = Vec::new();
    for price in prices {
        let mut m = StructMap::new();
        m.insert("price".to_string(), float(*price));
        cart.push(Value::Struct(m));
    }
    RuleContext::new().with("user", Value::Struct(user)).with("cart", Value::List(cart))
}

fn pricing_engine() -> RuleEngine {
    let pricing = RuleChain {
        name: "pricing".into(),
        steps: vec![
            RuleStep {
                name: "check_vip".into(),
                action: RuleAction::When {
                    expr: "user.is_vip == true".into(),
                    on_false: Some("non_vip".into()),
                },
            },
            RuleStep {
                name: "vip_discount".into(),
                action: RuleAction::Let { key: "discount".into(), expr: "0.20".into() },
            },
            RuleStep { name: "emit".into(), action: RuleAction::Emit { expr: "discount".into() } },
        ],
    };
    let non_vip = RuleChain {
        name: "non_vip".into(),
        steps: vec![
            RuleStep {
                name: "expensive_cart".into(),
                action: RuleAction::When {
                    expr: "sum_by(cart, i => i.price) > 100 or any(cart, i => i.price > 50)".into(),
                    on_false: Some("small_cart".into()),
                },
            },
            RuleStep {
                name: "big_discount".into(),
                action: RuleAction::Let { key: "discount".into(), expr: "0.15".into() },
            },
            RuleStep { name: "emit".into(), action: RuleAction::Emit { expr: "discount".into() } },
        ],
    };
    let small_cart = RuleChain {
        name: "small_cart".into(),
        steps: vec![
            RuleStep {
                name: "base_discount".into(),
                action: RuleAction::Let { key: "discount".into(), expr: "0.05".into() },
            },
            RuleStep { name: "emit".into(), action: RuleAction::Emit { expr: "discount".into() } },
        ],
    };
    let mut re = RuleEngine::new(Engine::new());
    re.add_chain(pricing);
    re.add_chain(non_vip);
    re.add_chain(small_cart);
    re
}

fn names(audit: &AuditLog) -> Vec<String> {
    audit.0.iter().map(|e| e.step_name.clone()).collect()
}

#[test]
fn pricing_for_a_large_cart() {
    let (value, audit) = pricing_engine().run("pricing", shop(false, &[30.0, 25.0, 55.0])).unwrap();
    assert_eq!(value, Some(float(0.15)));
    assert_eq!(names(&audit), vec!["check_vip", "expensive_cart", "big_discount", "emit"]);
    assert_eq!(audit.0[0].result, Value::Bool(false));
    assert!(matches!(&audit.0[0].outcome, RuleOutcome::Branch(t) if t == "non_vip"));
    assert_eq!(audit.0[1].result, Value::Bool(true));
    assert!(matches!(audit.0[1].outcome, RuleOutcome::Continue));
    assert_eq!(audit.0[2].expression, "0.15");
    assert!(matches!(&audit.0[3].outcome, RuleOutcome::Emit(v) if *v == float(0.15)));
}

#[test]
fn pricing_for_a_small_cart_and_for_a_vip() {
    let (value, audit) = pricing_engine().run("pricing", shop(false, &[10.0, 20.0])).unwrap();
    assert_eq!(value, Some(float(0.05)));
    assert_eq!(names(&audit), vec!["check_vip", "expensive_cart", "base_discount", "emit"]);
    assert!(matches!(&audit.0[1].outcome, RuleOutcome::Branch(t) if t == "small_cart"));
    let (value, audit) = pricing_engine().run("pricing", shop(true, &[10.0])).unwrap();
    assert_eq!(value, Some(float(0.20)));
    assert_eq!(names(&audit), vec!["check_vip", "vip_discount", "emit"]);
}

#[test]
fn builder_chains_with_method_sugar() {
    let pricing = RuleChainBuilder::new("pricing")
        .when_else("user.is_vip == true", "non_vip")
        .let_("discount", "0.20")
        .emit("discount")
        .build();
    let non_vip = RuleChainBuilder::new("non_vip")
        .when_else("cart.avg(i => i.price) > 50", "small_cart")
        .let_("discount", "0.15")
        .emit("discount")
        .build();
    let small_cart =
        RuleChainBuilder::new("small_cart").let_("discount", "0.05").emit("discount").build();
    assert_eq!(pricing.name, "pricing");
    assert_eq!(pricing.steps.len(), 3);
    assert_eq!(pricing.steps[0].name, "when");
    assert_eq!(pricing.steps[1].name, "let");
    assert_eq!(pricing.steps[2].name, "emit");
    let engine = RuleEngine::new(Engine::new())
        .with_chain(pricing)
        .with_chain(non_vip)
        .with_chain(small_cart);
    let (value, audit) = engine.run("pricing", shop(false, &[30.0, 25.0, 55.0])).unwrap();
    assert_eq!(value, Some(float(0.05)));
    assert_eq!(audit.0.len(), 4);
    let (value, _) = engine.run("pricing", shop(false, &[80.0, 25.0, 55.0])).unwrap();
    assert_eq!(value, Some(float(0.15)));
}

#[test]
fn runs_without_an_emission() {
    let engine = RuleEngine::new(Engine::new())
        .with_chain(RuleChainBuilder::new("a").when("1 < 2").let_("x", "1 + 1").call("b").build())
        .with_chain(RuleChainBuilder::new("b").when("x").when("false").build());
    let (value, audit) = engine.run("a", RuleContext::new()).unwrap();
    assert_eq!(value, None);
    assert_eq!(names(&audit), vec!["when", "let", "call", "when", "when"]);
    assert_eq!(audit.0[2].expression, "call b");
    assert_eq!(audit.0[2].result, Value::Null);
    assert!(matches!(&audit.0[2].outcome, RuleOutcome::Branch(t) if t == "b"));
    assert_eq!(audit.0[3].result, Value::Int(2));
    assert!(matches!(audit.0[3].outcome, RuleOutcome::Continue));
    assert!(matches!(audit.0[4].outcome, RuleOutcome::Continue));
    let (value, audit) = engine.run("missing", RuleContext::new()).unwrap();
    assert_eq!(value, None);
    assert_eq!(audit.0.len(), 0);
    let engine = engine.with_chain(RuleChainBuilder::new("c").call("nowhere").build());
    let (value, audit) = engine.run("c", RuleContext::new()).unwrap();
    assert_eq!(value, None);
    assert_eq!(audit.0.len(), 1);
}

#[test]
fn errors_abort_the_run() {
    let engine = RuleEngine::new(Engine::new())
        .with_chain(RuleChainBuilder::new("a").let_("x", "1").emit("x + y").build())
        .with_chain(RuleChainBuilder::new("b").when("1 +").build());
    let err = engine.run("a", RuleContext::new()).unwrap_err();
    assert_eq!(err.to_text(), "eval error: unknown identifier 'y'");
    let err = engine.run("b", RuleContext::new()).unwrap_err();
    assert_eq!(err.to_text(), "parse error: unexpected token: Eof at position 3");
}

#[test]
fn a_later_chain_replaces_one_of_the_same_name() {
    let engine = RuleEngine::new(Engine::new())
        .with_chain(RuleChainBuilder::new("a").emit("1").build())
        .with_chain(RuleChainBuilder::new("a").emit("2").build());
    assert_eq!(engine.chains.len(), 1);
    let (value, _) = engine.run("a", RuleContext::new()).unwrap();
    assert_eq!(value, Some(Value::Int(2)));
}
