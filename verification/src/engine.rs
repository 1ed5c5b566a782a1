//! The engine: functions and operators, with parsing and evaluation in one
//! place.

use vstd::prelude::*;
use crate::ast::Expr;
use crate::defaults::{has_default_binary, has_default_unary};
use crate::error::EngineError;
use crate::eval::{eval_expr, Bindings, Evaluator, Outcome, Scope};
use crate::functions::{function_closure_result, function_pure, FunctionRegistry};
use crate::operators::{binary_closure_result, binary_pure, outcome, Assoc, OperatorRegistry};
use crate::parser::{parse_matches, parse_text, Parser};
use crate::value::{with_field, Value, ValueView};

verus! {

/// The variables that an evaluation starts with.
pub struct Context {
    pub scope: Scope,
}

impl View for Context {
    type V = Bindings;

    open spec fn view(&self) -> Bindings {
        self.scope@
    }
}

impl Context {
    /// A context without variables.
    pub fn new() -> (c: Context)
        ensures
            c@ == Seq::<(Seq<char>, ValueView)>::empty(),
    {
        Context { scope: Scope::new() }
    }

    /// This context with `name` bound to `value`.
    pub fn with_var(self, name: &str, value: Value) -> (c: Context)
        ensures
            c@ == with_field(self@, name@, value@),
    {
        Context { scope: self.scope.with_var(name, value) }
    }
}

/// An expression engine: the functions and operators that expressions may
/// use.
pub struct Engine {
    pub funcs: FunctionRegistry,
    pub ops: OperatorRegistry,
}

/// The value of the expression that the text `s` starts with, in `scope`.
pub open spec fn eval_text(s: Seq<char>, scope: Bindings, funcs: FunctionRegistry, ops: OperatorRegistry) -> Outcome {
    match parse_text(s, ops) {
        Ok(e) => eval_expr(e, scope, funcs, ops),
        Err(e) => Err(e),
    }
}

impl Engine {
    /// An engine with the built-in functions and operators.
    pub fn new() -> (e: Engine)
        ensures
            e.funcs.is_default(),
            has_default_unary(e.ops),
            has_default_binary(e.ops),
    {
        Engine { funcs: FunctionRegistry::default(), ops: OperatorRegistry::default() }
    }

    /// This engine with the pure closure `f` as the function `name`.
    pub fn with_function<F>(self, name: &str, f: F) -> (e: Engine) where
        F: Fn(&[Value]) -> Result<Value, EngineError> + Send + Sync + 'static,

        requires
            function_pure(f),
        ensures
            e.ops == self.ops,
            forall|args: Seq<ValueView>| #[trigger]
                e.funcs.result(name@, args) == Some(function_closure_result(f, args)),
            forall|other: Seq<char>|
                other != name@ ==> #[trigger] e.funcs.at(other) == self.funcs.at(other),
    {
        let mut e = self;
        e.funcs.register(name, f);
        e
    }

    /// This engine with the pure closure `f` as the binary operator `name`.
    /// A name of letters and underscores becomes a word operator of the
    /// given precedence and associativity.
    pub fn with_operator<F>(self, name: &str, precedence: u8, assoc: Assoc, f: F) -> (e: Engine) where
        F: Fn(&Value, &Value) -> Result<Value, EngineError> + Send + Sync + 'static,

        requires
            binary_pure(f),
        ensures
            e.funcs == self.funcs,
            e.ops.unary@ == self.ops.unary@,
            e.ops.binary_info(name@) == Some((precedence, assoc)),
            forall|a: ValueView, b: ValueView| #[trigger]
                e.ops.binary_result(name@, a, b) == Some(binary_closure_result(f, a, b)),
            forall|other: Seq<char>|
                other != name@ ==> #[trigger] e.ops.binary_at(other) == self.ops.binary_at(other),
    {
        let mut e = self;
        e.ops.register_binary(name, precedence, assoc, f);
        e
    }

    /// The expression that `input` starts with.
    pub fn parse(&self, input: &str) -> (r: Result<Expr, EngineError>)
        ensures
            parse_matches(r, parse_text(input@, self.ops)),
    {
        let mut parser = match Parser::new(input, &self.ops) {
            Ok(p) => p,
            Err(e) => {
                return Err(e);
            },
        };
        parser.parse_expression()
    }

    /// The value of `expr` with the variables of `ctx`.
    pub fn eval(&self, expr: &Expr, ctx: &Context) -> (r: Result<Value, EngineError>)
        ensures
            outcome(r) == eval_expr(expr@, ctx@, self.funcs, self.ops),
    {
        let ev = Evaluator::new(&self.funcs, &self.ops);
        ev.eval(expr, &ctx.scope)
    }

    /// The value of the expression that `input` starts with, with the
    /// variables of `ctx`.
    pub fn parse_and_eval(&self, input: &str, ctx: &Context) -> (r: Result<Value, EngineError>)
        ensures
            outcome(r) == eval_text(input@, ctx@, self.funcs, self.ops),
    {
        let expr = match self.parse(input) {
            Ok(e) => e,
            Err(e) => {
                return Err(e);
            },
        };
        self.eval(&expr, ctx)
    }
}

} // verus!
