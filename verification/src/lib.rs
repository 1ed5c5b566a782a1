//! An embeddable expression language with a small rule layer on top.
//!
//! Text is lexed and parsed into a syntax tree, the tree is evaluated
//! against a scope of variables, and rule chains weave such evaluations into
//! steps that branch, assign and emit, leaving an audit trail.

pub mod ast;
pub mod defaults;
pub mod engine;
pub mod error;
pub mod eval;
pub mod float;
pub mod functions;
pub mod laws;
pub mod number;
pub mod operators;
pub mod parser;
pub mod rules;
pub mod text;
pub mod token;
pub mod value;

pub use crate::ast::{Expr, UnaryOp};
pub use crate::engine::{Context, Engine};
pub use crate::error::{EngineError, EvalError, ParseError};
pub use crate::eval::{Evaluator, Scope};
pub use crate::functions::FunctionRegistry;
pub use crate::operators::{Assoc, BinaryOpSpec, OperatorRegistry};
pub use crate::parser::Parser;
pub use crate::rules::{
    AuditEvent, AuditLog, RuleAction, RuleChain, RuleChainBuilder, RuleContext, RuleEngine,
    RuleOutcome, RuleStep,
};
pub use crate::token::{Lexer, Token, TokenKind};
pub use crate::value::{StructMap, Value};
