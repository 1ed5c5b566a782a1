//! The evaluator: a syntax tree and a scope to a value.

use vstd::prelude::*;
use crate::ast::{
    exprs_view, field_exprs_view, lemma_exprs_view, lemma_field_exprs_view, Expr, ExprView,
    UnaryOp,
};
use crate::error::{EngineError, ErrorView, EvalError};
use crate::float::{add_model, div_model, float_add, float_div, float_from_int, from_int};
use crate::functions::{length_of, length_value, pick_number, pick_of, FunctionRegistry};
use crate::operators::{eval_error, fail, outcome, OperatorRegistry};
use crate::text::{append_chars, chars_of, string_of, text_equal};
use crate::value::{lemma_values_view, lookup, values_view, with_field, StructMap, Value, ValueView};

verus! {

/// What evaluating gives: a value or an error, as mathematical content.
pub type Outcome = Result<ValueView, ErrorView>;

/// The variables of a scope: names with their values, in ascending order of
/// the names.
pub type Bindings = Seq<(Seq<char>, ValueView)>;

/// The variables that an expression can see.
pub struct Scope {
    pub vars: StructMap,
}

impl View for Scope {
    type V = Bindings;

    open spec fn view(&self) -> Bindings {
        self.vars@
    }
}

impl Scope {
    /// A scope without variables.
    pub fn new() -> (s: Scope)
        ensures
            s@ == Seq::<(Seq<char>, ValueView)>::empty(),
    {
        Scope { vars: StructMap::new() }
    }

    /// This scope with `name` bound to `value`, in place of an earlier
    /// binding of that name.
    pub fn with_var(self, name: &str, value: Value) -> (s: Scope)
        ensures
            s@ == with_field(self@, name@, value@),
    {
        let mut s = self;
        s.vars.insert(name.to_owned(), value);
        s
    }

    /// The value bound to `name`.
    pub fn get(&self, name: &str) -> (r: Option<&Value>)
        ensures
            match r {
                Some(v) => lookup(self@, name@) == Some(v@),
                None => lookup(self@, name@) is None,
            },
    {
        self.vars.get(name)
    }
}

impl Clone for Scope {
    fn clone(&self) -> (s: Scope)
        ensures
            s@ == self@,
    {
        Scope { vars: self.vars.duplicate() }
    }
}

impl Default for Scope {
    fn default() -> (s: Scope)
        ensures
            s@ == Seq::<(Seq<char>, ValueView)>::empty(),
    {
        Scope::new()
    }
}

/// The registry name of a prefix operator; `-u` and `+u` stand for the
/// prefix forms of `-` and `+`.
pub open spec fn unary_name(op: UnaryOp) -> Seq<char> {
    match op {
        UnaryOp::Not => "!"@,
        UnaryOp::Neg => "-u"@,
        UnaryOp::Pos => "+u"@,
        UnaryOp::WordNot => "not"@,
    }
}

/// The built-in functions that take a list and a lambda, or a list alone.
#[derive(Debug, Clone, Copy, PartialEq, Eq, Structural)]
pub enum Combinator {
    Filter,
    MapEach,
    SumBy,
    CountBy,
    Any,
    All,
    MinBy,
    MaxBy,
    AvgBy,
    Sum,
    Count,
}

/// The combinator that a call of `name` with `args` is, by its shape: the
/// name, the number of arguments, and a lambda as the second one.
pub open spec fn combinator_of(name: Seq<char>, args: Seq<ExprView>) -> Option<Combinator> {
    if args.len() == 2 && args[1] is Lambda {
        if name == "filter"@ {
            Some(Combinator::Filter)
        } else if name == "map"@ {
            Some(Combinator::MapEach)
        } else if name == "sum_by"@ {
            Some(Combinator::SumBy)
        } else if name == "count"@ {
            Some(Combinator::CountBy)
        } else if name == "any"@ {
            Some(Combinator::Any)
        } else if name == "all"@ {
            Some(Combinator::All)
        } else if name == "min"@ {
            Some(Combinator::MinBy)
        } else if name == "max"@ {
            Some(Combinator::MaxBy)
        } else if name == "avg"@ {
            Some(Combinator::AvgBy)
        } else {
            None
        }
    } else if args.len() == 1 {
        if name == "sum"@ {
            Some(Combinator::Sum)
        } else if name == "count"@ {
            Some(Combinator::Count)
        } else {
            None
        }
    } else {
        None
    }
}

/// The message for a first argument that is no list.
pub open spec fn list_expected(c: Combinator) -> Seq<char> {
    match c {
        Combinator::Filter => "filter expects list as first argument"@,
        Combinator::MapEach => "map expects list as first argument"@,
        Combinator::SumBy => "sum_by expects list as first argument"@,
        Combinator::CountBy => "count(list, lambda) expects a list"@,
        Combinator::Any => "any expects list"@,
        Combinator::All => "all expects list"@,
        Combinator::MinBy => "min expects list"@,
        Combinator::MaxBy => "max expects list"@,
        Combinator::AvgBy => "avg expects list"@,
        Combinator::Sum => "sum expects a list"@,
        Combinator::Count => "count expects a list"@,
    }
}

/// What a combinator has gathered while it walks a list.
pub ghost enum Gathered {
    Items(Seq<ValueView>),
    Total(u64),
    Count(nat),
    Best(Option<ValueView>),
    Nothing,
}

/// How a combinator goes on after an item.
pub ghost enum Flow {
    More(Gathered),
    Stop(ValueView),
}

/// What a combinator starts with.
pub open spec fn gather_start(c: Combinator) -> Gathered {
    match c {
        Combinator::Filter | Combinator::MapEach => Gathered::Items(Seq::empty()),
        Combinator::SumBy | Combinator::AvgBy | Combinator::Sum => Gathered::Total(0),
        Combinator::CountBy | Combinator::Count => Gathered::Count(0),
        Combinator::MinBy | Combinator::MaxBy => Gathered::Best(None),
        Combinator::Any | Combinator::All => Gathered::Nothing,
    }
}

/// `total` with the number `v` added, as a Float.
pub open spec fn add_number(total: u64, v: ValueView) -> Option<u64> {
    match v {
        ValueView::Int(n) => Some(add_model(total, from_int(n))),
        ValueView::Float(x) => Some(add_model(total, x)),
        _ => None,
    }
}

/// The better of `best` and the number `v`: the smaller for `least`, else
/// the larger.
pub open spec fn better(best: Option<ValueView>, v: ValueView, least: bool) -> Option<ValueView> {
    match best {
        None => if v is Int || v is Float {
            Some(v)
        } else {
            None
        },
        Some(b) => pick_number(b, v, least),
    }
}

/// What a combinator does with the value `v` that the lambda gave for
/// `item`, having gathered `state`.
pub open spec fn gather_step(c: Combinator, state: Gathered, item: ValueView, v: ValueView) -> Result<
    Flow,
    ErrorView,
> {
    match (c, state) {
        (Combinator::Filter, Gathered::Items(acc)) => match v {
            ValueView::Bool(true) => Ok(Flow::More(Gathered::Items(acc.push(item)))),
            ValueView::Bool(false) => Ok(Flow::More(state)),
            _ => Err(ErrorView::Eval("filter lambda must return bool"@)),
        },
        (Combinator::MapEach, Gathered::Items(acc)) => Ok(Flow::More(Gathered::Items(acc.push(v)))),
        (Combinator::SumBy, Gathered::Total(total)) => match add_number(total, v) {
            Some(sum) => Ok(Flow::More(Gathered::Total(sum))),
            None => Err(ErrorView::Eval("sum_by lambda must return number"@)),
        },
        (Combinator::AvgBy, Gathered::Total(total)) => match add_number(total, v) {
            Some(sum) => Ok(Flow::More(Gathered::Total(sum))),
            None => Err(ErrorView::Eval("avg lambda must return number"@)),
        },
        (Combinator::Sum, Gathered::Total(total)) => match add_number(total, item) {
            Some(sum) => Ok(Flow::More(Gathered::Total(sum))),
            None => Err(ErrorView::Eval("sum expects numeric list"@)),
        },
        (Combinator::CountBy, Gathered::Count(n)) => match v {
            ValueView::Bool(true) => Ok(Flow::More(Gathered::Count(n + 1))),
            ValueView::Bool(false) => Ok(Flow::More(state)),
            _ => Err(ErrorView::Eval("count lambda must return bool"@)),
        },
        (Combinator::Count, Gathered::Count(n)) => Ok(Flow::More(Gathered::Count(n + 1))),
        (Combinator::Any, _) => match v {
            ValueView::Bool(true) => Ok(Flow::Stop(ValueView::Bool(true))),
            ValueView::Bool(false) => Ok(Flow::More(state)),
            _ => Err(ErrorView::Eval("any lambda must return bool"@)),
        },
        (Combinator::All, _) => match v {
            ValueView::Bool(true) => Ok(Flow::More(state)),
            ValueView::Bool(false) => Ok(Flow::Stop(ValueView::Bool(false))),
            _ => Err(ErrorView::Eval("all lambda must return bool"@)),
        },
        (Combinator::MinBy, Gathered::Best(best)) => match better(best, v, true) {
            Some(b) => Ok(Flow::More(Gathered::Best(Some(b)))),
            None => Err(ErrorView::Eval("min expects numbers"@)),
        },
        (Combinator::MaxBy, Gathered::Best(best)) => match better(best, v, false) {
            Some(b) => Ok(Flow::More(Gathered::Best(Some(b)))),
            None => Err(ErrorView::Eval("max expects numbers"@)),
        },
        _ => Err(ErrorView::Eval(Seq::empty())),
    }
}

/// What a combinator gives at the end of a list of `n` items.
pub open spec fn gather_end(c: Combinator, state: Gathered, n: nat) -> Outcome {
    match (c, state) {
        (Combinator::Filter, Gathered::Items(acc)) => Ok(ValueView::List(acc)),
        (Combinator::MapEach, Gathered::Items(acc)) => Ok(ValueView::List(acc)),
        (Combinator::SumBy, Gathered::Total(total)) => Ok(ValueView::Float(total)),
        (Combinator::Sum, Gathered::Total(total)) => Ok(ValueView::Float(total)),
        (Combinator::AvgBy, Gathered::Total(total)) => if n == 0 {
            eval_error("division by zero"@)
        } else if n > i64::MAX {
            eval_error("length out of range"@)
        } else {
            Ok(ValueView::Float(div_model(total, from_int(n as i64))))
        },
        (Combinator::CountBy, Gathered::Count(k)) => length_value(k),
        (Combinator::Count, Gathered::Count(k)) => length_value(k),
        (Combinator::Any, _) => Ok(ValueView::Bool(false)),
        (Combinator::All, _) => Ok(ValueView::Bool(true)),
        (Combinator::MinBy, Gathered::Best(best)) => match best {
            Some(b) => Ok(b),
            None => eval_error("min of an empty list"@),
        },
        (Combinator::MaxBy, Gathered::Best(best)) => match best {
            Some(b) => Ok(b),
            None => eval_error("max of an empty list"@),
        },
        _ => Err(ErrorView::Eval(Seq::empty())),
    }
}

/// Whether the combinator calls a lambda for each item.
pub open spec fn takes_lambda(c: Combinator) -> bool {
    !(c is Sum || c is Count)
}

/// What indexing `target` with `index` gives.
pub open spec fn index_result(target: ValueView, index: ValueView) -> Outcome {
    match (target, index) {
        (ValueView::List(items), ValueView::Int(i)) => if 0 <= i < items.len() {
            Ok(items[i as int])
        } else {
            eval_error("index out of range"@)
        },
        (ValueView::Struct(fields), ValueView::Str(k)) => match lookup(fields, k) {
            Some(v) => Ok(v),
            None => eval_error("missing key"@),
        },
        _ => eval_error("indexing mismatch"@),
    }
}

/// Whether a binary operator called `op` leaves its right operand alone
/// when the left one is `left`, and what it gives then.
pub open spec fn short_circuit(op: Seq<char>, left: ValueView) -> Option<ValueView> {
    if (op == "||"@ || op == "or"@) && left == ValueView::Bool(true) {
        Some(ValueView::Bool(true))
    } else if (op == "&&"@ || op == "and"@) && left == ValueView::Bool(false) {
        Some(ValueView::Bool(false))
    } else {
        None
    }
}

/// The value of the expression `e` in `scope`, with the functions `funcs`
/// and the operators `ops`.
pub open spec fn eval_expr(e: ExprView, scope: Bindings, funcs: FunctionRegistry, ops: OperatorRegistry) -> Outcome
    decreases e, 0nat,
{
    match e {
        ExprView::Literal(v) => Ok(v),
        ExprView::Ident(name) => match lookup(scope, name) {
            Some(v) => Ok(v),
            None => eval_error("unknown identifier '"@ + name + "'"@),
        },
        ExprView::Lambda { .. } => eval_error("lambdas must be passed to higher-order functions"@),
        ExprView::Unary { op, expr } => match eval_expr(*expr, scope, funcs, ops) {
            Ok(v) => match ops.unary_result(unary_name(op), v) {
                Some(r) => r,
                None => eval_error("unknown unary operator"@),
            },
            Err(e) => Err(e),
        },
        ExprView::Binary { left, op, right } => match eval_expr(*left, scope, funcs, ops) {
            Ok(l) => match short_circuit(op, l) {
                Some(v) => Ok(v),
                None => match eval_expr(*right, scope, funcs, ops) {
                    Ok(r) => match ops.binary_result(op, l, r) {
                        Some(x) => x,
                        None => eval_error("unknown operator '"@ + op + "'"@),
                    },
                    Err(e) => Err(e),
                },
            },
            Err(e) => Err(e),
        },
        ExprView::Call { name, args } => match combinator_of(name, args) {
            Some(c) => match eval_expr(args[0], scope, funcs, ops) {
                Ok(ValueView::List(items)) => if takes_lambda(c) {
                    match args[1] {
                        ExprView::Lambda { param, body } => eval_each(
                            c,
                            items,
                            0,
                            param,
                            *body,
                            scope,
                            gather_start(c),
                            funcs,
                            ops,
                        ),
                        _ => Err(ErrorView::Eval(Seq::empty())),
                    }
                } else {
                    gather_all(c, items, 0, gather_start(c))
                },
                Ok(_) => eval_error(list_expected(c)),
                Err(e) => Err(e),
            },
            None => if funcs.at(name) is None {
                eval_error("unknown function '"@ + name + "'"@)
            } else {
                match eval_list(args, 0, Seq::empty(), scope, funcs, ops) {
                    Ok(values) => funcs.at(name)->0.func.result(values),
                    Err(e) => Err(e),
                }
            },
        },
        ExprView::Member { target, member } => match eval_expr(*target, scope, funcs, ops) {
            Ok(ValueView::Struct(fields)) => match lookup(fields, member) {
                Some(v) => Ok(v),
                None => eval_error("unknown field '"@ + member + "'"@),
            },
            Ok(_) => eval_error("member access expects a struct"@),
            Err(e) => Err(e),
        },
        ExprView::Index { target, index } => match eval_expr(*target, scope, funcs, ops) {
            Ok(t) => match eval_expr(*index, scope, funcs, ops) {
                Ok(i) => index_result(t, i),
                Err(e) => Err(e),
            },
            Err(e) => Err(e),
        },
        ExprView::StructLiteral(fields) => match eval_fields(fields, 0, Seq::empty(), scope, funcs, ops) {
            Ok(map) => Ok(ValueView::Struct(map)),
            Err(e) => Err(e),
        },
        ExprView::ListLiteral(items) => match eval_list(items, 0, Seq::empty(), scope, funcs, ops) {
            Ok(values) => Ok(ValueView::List(values)),
            Err(e) => Err(e),
        },
        ExprView::EnumVariant { name, payload } => match payload {
            Some(p) => match eval_expr(*p, scope, funcs, ops) {
                Ok(v) => Ok(ValueView::Enum(name, Some(Box::new(v)))),
                Err(e) => Err(e),
            },
            None => Ok(ValueView::Enum(name, None)),
        },
    }
}

/// The values of the expressions of `items` from position `i` on, in order,
/// after the values `acc`; the first error ends it.
pub open spec fn eval_list(
    items: Seq<ExprView>,
    i: int,
    acc: Seq<ValueView>,
    scope: Bindings,
    funcs: FunctionRegistry,
    ops: OperatorRegistry,
) -> Result<Seq<ValueView>, ErrorView>
    decreases items, items.len() - i,
{
    if i < 0 || i >= items.len() {
        Ok(acc)
    } else {
        match eval_expr(items[i], scope, funcs, ops) {
            Ok(v) => eval_list(items, i + 1, acc.push(v), scope, funcs, ops),
            Err(e) => Err(e),
        }
    }
}

/// The struct that the fields of `fields` from position `i` on make, each
/// value stored under its key in source order, after the fields `acc`; the
/// first error ends it.
pub open spec fn eval_fields(
    fields: Seq<(Seq<char>, ExprView)>,
    i: int,
    acc: Bindings,
    scope: Bindings,
    funcs: FunctionRegistry,
    ops: OperatorRegistry,
) -> Result<Bindings, ErrorView>
    decreases fields, fields.len() - i,
{
    if i < 0 || i >= fields.len() {
        Ok(acc)
    } else {
        match eval_expr(fields[i].1, scope, funcs, ops) {
            Ok(v) => eval_fields(fields, i + 1, with_field(acc, fields[i].0, v), scope, funcs, ops),
            Err(e) => Err(e),
        }
    }
}

/// What the combinator `c` gives for the items of `items` from position `i`
/// on: for each in turn the lambda's body is evaluated with `param` bound to
/// the item in a copy of `scope`, and the combinator takes the value.
pub open spec fn eval_each(
    c: Combinator,
    items: Seq<ValueView>,
    i: int,
    param: Seq<char>,
    body: ExprView,
    scope: Bindings,
    state: Gathered,
    funcs: FunctionRegistry,
    ops: OperatorRegistry,
) -> Outcome
    decreases body, items.len() - i + 1,
{
    if i < 0 || i >= items.len() {
        gather_end(c, state, items.len())
    } else {
        match eval_expr(body, with_field(scope, param, items[i]), funcs, ops) {
            Ok(v) => match gather_step(c, state, items[i], v) {
                Ok(Flow::More(next)) => eval_each(c, items, i + 1, param, body, scope, next, funcs, ops),
                Ok(Flow::Stop(r)) => Ok(r),
                Err(e) => Err(e),
            },
            Err(e) => Err(e),
        }
    }
}

/// What the combinator `c`, which takes no lambda, gives for the items of
/// `items` from position `i` on.
pub open spec fn gather_all(c: Combinator, items: Seq<ValueView>, i: int, state: Gathered) -> Outcome
    decreases items.len() - i,
{
    if i < 0 || i >= items.len() {
        gather_end(c, state, items.len())
    } else {
        match gather_step(c, state, items[i], items[i]) {
            Ok(Flow::More(next)) => gather_all(c, items, i + 1, next),
            Ok(Flow::Stop(r)) => Ok(r),
            Err(e) => Err(e),
        }
    }
}

/// What a combinator has gathered, in memory.
enum Fold {
    Items(Vec<Value>),
    Total(u64),
    Count(usize),
    Best(Option<Value>),
    Nothing,
}

/// How a combinator goes on, in memory.
enum Step {
    More(Fold),
    Stop(Value),
}

impl View for Fold {
    type V = Gathered;

    closed spec fn view(&self) -> Gathered {
        match self {
            Fold::Items(items) => Gathered::Items(values_view(items@)),
            Fold::Total(t) => Gathered::Total(*t),
            Fold::Count(n) => Gathered::Count(*n as nat),
            Fold::Best(b) => Gathered::Best(
                match b {
                    Some(v) => Some(v@),
                    None => None,
                },
            ),
            Fold::Nothing => Gathered::Nothing,
        }
    }
}

impl View for Step {
    type V = Flow;

    closed spec fn view(&self) -> Flow {
        match self {
            Step::More(f) => Flow::More(f@),
            Step::Stop(v) => Flow::Stop(v@),
        }
    }
}

/// Fails with the message `head`, `name`, `tail`.
fn fail_named(head: &str, name: &str, tail: &str) -> (r: Result<Value, EngineError>)
    ensures
        outcome(r) == eval_error(head@ + name@ + tail@),
{
    let mut message = chars_of(head);
    let middle = chars_of(name);
    let end = chars_of(tail);
    append_chars(&mut message, &middle);
    append_chars(&mut message, &end);
    Err(EngineError::Eval(EvalError { message: string_of(&message) }))
}

fn mismatch() -> (e: EngineError)
    ensures
        e@ == ErrorView::Eval(Seq::empty()),
{
    proof {
        reveal_strlit("");
        assert(""@ =~= Seq::<char>::empty());
    }
    EngineError::Eval(EvalError::new(""))
}

fn error_of(message: &str) -> (e: EngineError)
    ensures
        e@ == ErrorView::Eval(message@),
{
    EngineError::Eval(EvalError::new(message))
}

fn name_of(op: UnaryOp) -> (r: &'static str)
    ensures
        r@ == unary_name(op),
{
    match op {
        UnaryOp::Not => "!",
        UnaryOp::Neg => "-u",
        UnaryOp::Pos => "+u",
        UnaryOp::WordNot => "not",
    }
}

fn classify(name: &str, args: &Vec<Expr>) -> (r: Option<Combinator>)
    ensures
        r == combinator_of(name@, exprs_view(args@)),
{
    proof {
        lemma_exprs_view(args@);
    }
    if args.len() == 2 {
        let lambda = match &args[1] {
            Expr::Lambda { .. } => true,
            _ => false,
        };
        if !lambda {
            None
        } else if text_equal(name, "filter") {
            Some(Combinator::Filter)
        } else if text_equal(name, "map") {
            Some(Combinator::MapEach)
        } else if text_equal(name, "sum_by") {
            Some(Combinator::SumBy)
        } else if text_equal(name, "count") {
            Some(Combinator::CountBy)
        } else if text_equal(name, "any") {
            Some(Combinator::Any)
        } else if text_equal(name, "all") {
            Some(Combinator::All)
        } else if text_equal(name, "min") {
            Some(Combinator::MinBy)
        } else if text_equal(name, "max") {
            Some(Combinator::MaxBy)
        } else if text_equal(name, "avg") {
            Some(Combinator::AvgBy)
        } else {
            None
        }
    } else if args.len() == 1 {
        if text_equal(name, "sum") {
            Some(Combinator::Sum)
        } else if text_equal(name, "count") {
            Some(Combinator::Count)
        } else {
            None
        }
    } else {
        None
    }
}

fn list_message(c: Combinator) -> (r: &'static str)
    ensures
        r@ == list_expected(c),
{
    match c {
        Combinator::Filter => "filter expects list as first argument",
        Combinator::MapEach => "map expects list as first argument",
        Combinator::SumBy => "sum_by expects list as first argument",
        Combinator::CountBy => "count(list, lambda) expects a list",
        Combinator::Any => "any expects list",
        Combinator::All => "all expects list",
        Combinator::MinBy => "min expects list",
        Combinator::MaxBy => "max expects list",
        Combinator::AvgBy => "avg expects list",
        Combinator::Sum => "sum expects a list",
        Combinator::Count => "count expects a list",
    }
}

fn start_fold(c: Combinator) -> (f: Fold)
    ensures
        f@ == gather_start(c),
        f matches Fold::Count(n) ==> n == 0,
{
    match c {
        Combinator::Filter | Combinator::MapEach => {
            let items: Vec<Value> = Vec::new();
            proof {
                assert(values_view(items@) =~= Seq::<ValueView>::empty());
            }
            Fold::Items(items)
        },
        Combinator::SumBy | Combinator::AvgBy | Combinator::Sum => Fold::Total(0),
        Combinator::CountBy | Combinator::Count => Fold::Count(0),
        Combinator::MinBy | Combinator::MaxBy => Fold::Best(None),
        Combinator::Any | Combinator::All => Fold::Nothing,
    }
}

fn add_to(total: u64, v: &Value) -> (r: Option<u64>)
    ensures
        r == add_number(total, v@),
{
    match v {
        Value::Int(n) => Some(float_add(total, float_from_int(*n))),
        Value::Float(x) => Some(float_add(total, *x)),
        _ => None,
    }
}

fn better_of(best: Option<Value>, v: Value, least: bool) -> (r: Option<Value>)
    ensures
        match r {
            Some(b) => better(
                match best {
                    Some(x) => Some(x@),
                    None => None,
                },
                v@,
                least,
            ) == Some(b@),
            None => better(
                match best {
                    Some(x) => Some(x@),
                    None => None,
                },
                v@,
                least,
            ) is None,
        },
{
    match best {
        None => match v {
            Value::Int(_) => Some(v),
            Value::Float(_) => Some(v),
            _ => None,
        },
        Some(b) => pick_of(&b, &v, least),
    }
}

/// What stepping gave, as mathematical content.
spec fn step_outcome(r: Result<Step, EngineError>) -> Result<Flow, ErrorView> {
    match r {
        Ok(s) => Ok(s@),
        Err(e) => Err(e@),
    }
}

fn truth(v: &Value) -> (r: Option<bool>)
    ensures
        r == (match v@ {
            ValueView::Bool(b) => Some(b),
            _ => None,
        }),
{
    match v {
        Value::Bool(b) => Some(*b),
        _ => None,
    }
}

fn fold_step(c: Combinator, state: Fold, item: Value, v: Value, bound: usize) -> (r: Result<Step, EngineError>)
    requires
        state matches Fold::Count(n) ==> n < bound,
    ensures
        step_outcome(r) == gather_step(c, state@, item@, v@),
        r matches Ok(Step::More(Fold::Count(n))) ==> state matches Fold::Count(m) && n <= m + 1,
{
    match (c, state) {
        (Combinator::Filter, Fold::Items(acc)) => match truth(&v) {
            Some(true) => {
                let mut acc = acc;
                let ghost before = values_view(acc@);
                acc.push(item);
                proof {
                    lemma_values_view(acc@);
                    assert(values_view(acc@) =~= before.push(item@));
                }
                Ok(Step::More(Fold::Items(acc)))
            },
            Some(false) => Ok(Step::More(Fold::Items(acc))),
            None => Err(error_of("filter lambda must return bool")),
        },
        (Combinator::MapEach, Fold::Items(acc)) => {
            let mut acc = acc;
            let ghost before = values_view(acc@);
            acc.push(v);
            proof {
                lemma_values_view(acc@);
                assert(values_view(acc@) =~= before.push(v@));
            }
            Ok(Step::More(Fold::Items(acc)))
        },
        (Combinator::SumBy, Fold::Total(total)) => match add_to(total, &v) {
            Some(sum) => Ok(Step::More(Fold::Total(sum))),
            None => Err(error_of("sum_by lambda must return number")),
        },
        (Combinator::AvgBy, Fold::Total(total)) => match add_to(total, &v) {
            Some(sum) => Ok(Step::More(Fold::Total(sum))),
            None => Err(error_of("avg lambda must return number")),
        },
        (Combinator::Sum, Fold::Total(total)) => match add_to(total, &item) {
            Some(sum) => Ok(Step::More(Fold::Total(sum))),
            None => Err(error_of("sum expects numeric list")),
        },
        (Combinator::CountBy, Fold::Count(n)) => match truth(&v) {
            Some(true) => Ok(Step::More(Fold::Count(n + 1))),
            Some(false) => Ok(Step::More(Fold::Count(n))),
            None => Err(error_of("count lambda must return bool")),
        },
        (Combinator::Count, Fold::Count(n)) => Ok(Step::More(Fold::Count(n + 1))),
        (Combinator::Any, state) => match truth(&v) {
            Some(true) => Ok(Step::Stop(Value::Bool(true))),
            Some(false) => Ok(Step::More(state)),
            None => Err(error_of("any lambda must return bool")),
        },
        (Combinator::All, state) => match truth(&v) {
            Some(true) => Ok(Step::More(state)),
            Some(false) => Ok(Step::Stop(Value::Bool(false))),
            None => Err(error_of("all lambda must return bool")),
        },
        (Combinator::MinBy, Fold::Best(best)) => match better_of(best, v, true) {
            Some(b) => Ok(Step::More(Fold::Best(Some(b)))),
            None => Err(error_of("min expects numbers")),
        },
        (Combinator::MaxBy, Fold::Best(best)) => match better_of(best, v, false) {
            Some(b) => Ok(Step::More(Fold::Best(Some(b)))),
            None => Err(error_of("max expects numbers")),
        },
        _ => Err(mismatch()),
    }
}

fn fold_end(c: Combinator, state: Fold, n: usize) -> (r: Result<Value, EngineError>)
    ensures
        outcome(r) == gather_end(c, state@, n as nat),
{
    match (c, state) {
        (Combinator::Filter, Fold::Items(acc)) => Ok(Value::List(acc)),
        (Combinator::MapEach, Fold::Items(acc)) => Ok(Value::List(acc)),
        (Combinator::SumBy, Fold::Total(total)) => Ok(Value::Float(total)),
        (Combinator::Sum, Fold::Total(total)) => Ok(Value::Float(total)),
        (Combinator::AvgBy, Fold::Total(total)) => {
            if n == 0 {
                fail("division by zero")
            } else if n as u64 > 0x7FFF_FFFF_FFFF_FFFFu64 {
                fail("length out of range")
            } else {
                Ok(Value::Float(float_div(total, float_from_int(n as i64))))
            }
        },
        (Combinator::CountBy, Fold::Count(k)) => length_of(k),
        (Combinator::Count, Fold::Count(k)) => length_of(k),
        (Combinator::Any, _) => Ok(Value::Bool(false)),
        (Combinator::All, _) => Ok(Value::Bool(true)),
        (Combinator::MinBy, Fold::Best(best)) => match best {
            Some(b) => Ok(b),
            None => fail("min of an empty list"),
        },
        (Combinator::MaxBy, Fold::Best(best)) => match best {
            Some(b) => Ok(b),
            None => fail("max of an empty list"),
        },
        _ => Err(mismatch()),
    }
}

/// What a combinator without a lambda gives for `items`.
fn fold_plain(c: Combinator, items: &Vec<Value>) -> (r: Result<Value, EngineError>)
    ensures
        outcome(r) == gather_all(c, values_view(items@), 0, gather_start(c)),
{
    proof {
        lemma_values_view(items@);
    }
    let mut state = start_fold(c);
    let mut i: usize = 0;
    while i < items.len()
        invariant
            i <= items.len(),
            values_view(items@).len() == items@.len(),
            forall|k: int| 0 <= k < items@.len() ==> #[trigger] values_view(items@)[k] == items@[k]@,
            state matches Fold::Count(n) ==> n <= i,
            gather_all(c, values_view(items@), 0, gather_start(c)) == gather_all(
                c,
                values_view(items@),
                i as int,
                state@,
            ),
        decreases items.len() - i,
    {
        assert(values_view(items@)[i as int] == items@[i as int]@);
        match fold_step(c, state, items[i].duplicate(), items[i].duplicate(), items.len()) {
            Ok(Step::More(next)) => {
                state = next;
            },
            Ok(Step::Stop(v)) => {
                return Ok(v);
            },
            Err(e) => {
                return Err(e);
            },
        }
        i += 1;
    }
    fold_end(c, state, items.len())
}

/// What evaluating a list of expressions gave.
pub open spec fn values_match(r: Result<Vec<Value>, EngineError>, expected: Result<Seq<ValueView>, ErrorView>) -> bool {
    match r {
        Ok(values) => expected == Ok::<Seq<ValueView>, ErrorView>(values_view(values@)),
        Err(e) => expected == Err::<Seq<ValueView>, ErrorView>(e@),
    }
}

/// What evaluating the fields of a struct literal gave.
pub open spec fn struct_matches(r: Result<StructMap, EngineError>, expected: Result<Bindings, ErrorView>) -> bool {
    match r {
        Ok(map) => expected == Ok::<Bindings, ErrorView>(map@),
        Err(e) => expected == Err::<Bindings, ErrorView>(e@),
    }
}

/// Evaluates expressions with the functions and operators of an engine.
pub struct Evaluator<'a> {
    pub funcs: &'a FunctionRegistry,
    pub ops: &'a OperatorRegistry,
}

impl<'a> Evaluator<'a> {
    pub fn new(funcs: &'a FunctionRegistry, ops: &'a OperatorRegistry) -> (ev: Evaluator<'a>)
        ensures
            *ev.funcs == *funcs,
            *ev.ops == *ops,
    {
        Evaluator { funcs, ops }
    }

    /// The value of `expr` in `scope`, or the first error.
    #[verifier::rlimit(50)]
    pub fn eval(&self, expr: &Expr, scope: &Scope) -> (r: Result<Value, EngineError>)
        ensures
            outcome(r) == eval_expr(expr@, scope@, *self.funcs, *self.ops),
        decreases expr, 0nat,
    {
        match expr {
            Expr::Literal(v) => Ok(v.duplicate()),
            Expr::Ident(name) => match scope.get(name.as_str()) {
                Some(v) => Ok(v.duplicate()),
                None => fail_named("unknown identifier '", name.as_str(), "'"),
            },
            Expr::Lambda { .. } => fail("lambdas must be passed to higher-order functions"),
            Expr::Unary { op, expr: inner } => {
                let v = match self.eval(inner, scope) {
                    Ok(v) => v,
                    Err(e) => {
                        return Err(e);
                    },
                };
                match self.ops.get_unary(name_of(*op)) {
                    Some(h) => h.call(&v),
                    None => fail("unknown unary operator"),
                }
            },
            Expr::Binary { left, op, right } => {
                let l = match self.eval(left, scope) {
                    Ok(v) => v,
                    Err(e) => {
                        return Err(e);
                    },
                };
                let truth_of_left = truth(&l);
                let or = text_equal(op.as_str(), "||") || text_equal(op.as_str(), "or");
                let and = text_equal(op.as_str(), "&&") || text_equal(op.as_str(), "and");
                if or && truth_of_left == Some(true) {
                    return Ok(Value::Bool(true));
                }
                if and && truth_of_left == Some(false) {
                    proof {
                        reveal_strlit("||");
                        reveal_strlit("or");
                        reveal_strlit("&&");
                        reveal_strlit("and");
                    }
                    return Ok(Value::Bool(false));
                }
                let r = match self.eval(right, scope) {
                    Ok(v) => v,
                    Err(e) => {
                        return Err(e);
                    },
                };
                match self.ops.get_binary(op.as_str()) {
                    Some(spec) => spec.func.call(&l, &r),
                    None => fail_named("unknown operator '", op.as_str(), "'"),
                }
            },
            Expr::Call { name, args } => {
                assert(decreases_to!(*expr => *args));
                self.eval_call(name, args, scope)
            },
            Expr::Member { target, member } => {
                let t = match self.eval(target, scope) {
                    Ok(v) => v,
                    Err(e) => {
                        return Err(e);
                    },
                };
                match &t {
                    Value::Struct(map) => match map.get(member.as_str()) {
                        Some(v) => Ok(v.duplicate()),
                        None => fail_named("unknown field '", member.as_str(), "'"),
                    },
                    _ => fail("member access expects a struct"),
                }
            },
            Expr::Index { target, index } => {
                let t = match self.eval(target, scope) {
                    Ok(v) => v,
                    Err(e) => {
                        return Err(e);
                    },
                };
                let i = match self.eval(index, scope) {
                    Ok(v) => v,
                    Err(e) => {
                        return Err(e);
                    },
                };
                index_into(&t, &i)
            },
            Expr::StructLiteral(fields) => {
                assert(decreases_to!(*expr => *fields));
                match self.eval_struct(fields, scope) {
                    Ok(map) => Ok(Value::Struct(map)),
                    Err(e) => Err(e),
                }
            },
            Expr::ListLiteral(items) => {
                assert(decreases_to!(*expr => *items));
                match self.eval_all(items, scope) {
                    Ok(values) => Ok(Value::List(values)),
                    Err(e) => Err(e),
                }
            },
            Expr::EnumVariant { name, payload } => match payload {
                Some(p) => match self.eval(p, scope) {
                    Ok(v) => Ok(Value::Enum { name: name.clone(), payload: Some(Box::new(v)) }),
                    Err(e) => Err(e),
                },
                None => Ok(Value::Enum { name: name.clone(), payload: None }),
            },
        }
    }

    fn eval_call(&self, name: &String, args: &Vec<Expr>, scope: &Scope) -> (r: Result<Value, EngineError>)
        ensures
            outcome(r) == eval_expr(
                ExprView::Call { name: name@, args: exprs_view(args@) },
                scope@,
                *self.funcs,
                *self.ops,
            ),
        decreases args, 2nat,
    {
        proof {
            lemma_exprs_view(args@);
        }
        match classify(name.as_str(), args) {
            Some(c) => {
                assert(decreases_to!(*args => args@[0]));
                let list = match self.eval(&args[0], scope) {
                    Ok(v) => v,
                    Err(e) => {
                        return Err(e);
                    },
                };
                let items = match list {
                    Value::List(items) => items,
                    _ => {
                        return fail(list_message(c));
                    },
                };
                match c {
                    Combinator::Sum | Combinator::Count => fold_plain(c, &items),
                    _ => match &args[1] {
                        Expr::Lambda { param, body } => {
                            assert(decreases_to!(*args => args@[1]));
                            assert(decreases_to!(args@[1] => **body));
                            self.eval_each(c, &items, param, body, scope)
                        },
                        _ => Err(mismatch()),
                    },
                }
            },
            None => {
                let handler = match self.funcs.get(name.as_str()) {
                    Some(h) => h,
                    None => {
                        return fail_named("unknown function '", name.as_str(), "'");
                    },
                };
                let values = match self.eval_all(args, scope) {
                    Ok(values) => values,
                    Err(e) => {
                        return Err(e);
                    },
                };
                handler.call(values.as_slice())
            },
        }
    }

    fn eval_all(&self, items: &Vec<Expr>, scope: &Scope) -> (r: Result<Vec<Value>, EngineError>)
        ensures
            values_match(
                r,
                eval_list(exprs_view(items@), 0, Seq::empty(), scope@, *self.funcs, *self.ops),
            ),
        decreases items, 1nat,
    {
        proof {
            lemma_exprs_view(items@);
        }
        let mut out: Vec<Value> = Vec::new();
        proof {
            assert(values_view(out@) =~= Seq::<ValueView>::empty());
        }
        let mut i: usize = 0;
        while i < items.len()
            invariant
                i <= items.len(),
                exprs_view(items@).len() == items@.len(),
                forall|k: int| 0 <= k < items@.len() ==> #[trigger] exprs_view(items@)[k] == items@[k]@,
                eval_list(exprs_view(items@), 0, Seq::empty(), scope@, *self.funcs, *self.ops)
                    == eval_list(
                    exprs_view(items@),
                    i as int,
                    values_view(out@),
                    scope@,
                    *self.funcs,
                    *self.ops,
                ),
            decreases items.len() - i,
        {
            assert(decreases_to!(*items => items@[i as int]));
            assert(exprs_view(items@)[i as int] == items@[i as int]@);
            match self.eval(&items[i], scope) {
                Ok(v) => {
                    let ghost before = values_view(out@);
                    out.push(v);
                    proof {
                        lemma_values_view(out@);
                        assert(values_view(out@) =~= before.push(v@));
                    }
                },
                Err(e) => {
                    return Err(e);
                },
            }
            i += 1;
        }
        Ok(out)
    }

    fn eval_struct(&self, fields: &Vec<(String, Expr)>, scope: &Scope) -> (r: Result<StructMap, EngineError>)
        ensures
            struct_matches(
                r,
                eval_fields(
                    field_exprs_view(fields@),
                    0,
                    Seq::empty(),
                    scope@,
                    *self.funcs,
                    *self.ops,
                ),
            ),
        decreases fields, 1nat,
    {
        proof {
            lemma_field_exprs_view(fields@);
        }
        let mut out = StructMap::new();
        let mut i: usize = 0;
        while i < fields.len()
            invariant
                i <= fields.len(),
                field_exprs_view(fields@).len() == fields@.len(),
                forall|k: int|
                    0 <= k < fields@.len() ==> #[trigger] field_exprs_view(fields@)[k] == (
                        fields@[k].0@,
                        fields@[k].1@,
                    ),
                eval_fields(
                    field_exprs_view(fields@),
                    0,
                    Seq::empty(),
                    scope@,
                    *self.funcs,
                    *self.ops,
                ) == eval_fields(
                    field_exprs_view(fields@),
                    i as int,
                    out@,
                    scope@,
                    *self.funcs,
                    *self.ops,
                ),
            decreases fields.len() - i,
        {
            assert(decreases_to!(*fields => fields@[i as int]));
            assert(decreases_to!(fields@[i as int] => fields@[i as int].1));
            assert(field_exprs_view(fields@)[i as int] == (fields@[i as int].0@, fields@[i as int].1@));
            match self.eval(&fields[i].1, scope) {
                Ok(v) => {
                    out.insert(fields[i].0.clone(), v);
                },
                Err(e) => {
                    return Err(e);
                },
            }
            i += 1;
        }
        Ok(out)
    }

    fn eval_each(&self, c: Combinator, items: &Vec<Value>, param: &String, body: &Expr, scope: &Scope) -> (r:
        Result<Value, EngineError>)
        requires
            takes_lambda(c),
        ensures
            outcome(r) == eval_each(
                c,
                values_view(items@),
                0,
                param@,
                body@,
                scope@,
                gather_start(c),
                *self.funcs,
                *self.ops,
            ),
        decreases body, 1nat,
    {
        proof {
            lemma_values_view(items@);
        }
        let mut state = start_fold(c);
        let mut i: usize = 0;
        while i < items.len()
            invariant
                i <= items.len(),
                values_view(items@).len() == items@.len(),
                forall|k: int| 0 <= k < items@.len() ==> #[trigger] values_view(items@)[k] == items@[k]@,
                state matches Fold::Count(n) ==> n <= i,
                eval_each(
                    c,
                    values_view(items@),
                    0,
                    param@,
                    body@,
                    scope@,
                    gather_start(c),
                    *self.funcs,
                    *self.ops,
                ) == eval_each(
                    c,
                    values_view(items@),
                    i as int,
                    param@,
                    body@,
                    scope@,
                    state@,
                    *self.funcs,
                    *self.ops,
                ),
            decreases items.len() - i,
        {
            assert(values_view(items@)[i as int] == items@[i as int]@);
            let inner = scope.clone().with_var(param.as_str(), items[i].duplicate());
            let v = match self.eval(body, &inner) {
                Ok(v) => v,
                Err(e) => {
                    return Err(e);
                },
            };
            match fold_step(c, state, items[i].duplicate(), v, items.len()) {
                Ok(Step::More(next)) => {
                    state = next;
                },
                Ok(Step::Stop(r)) => {
                    return Ok(r);
                },
                Err(e) => {
                    return Err(e);
                },
            }
            i += 1;
        }
        fold_end(c, state, items.len())
    }
}

/// Indexes a list by an integer or a struct by a string.
pub fn index_into(target: &Value, index: &Value) -> (r: Result<Value, EngineError>)
    ensures
        outcome(r) == index_result(target@, index@),
{
    match (target, index) {
        (Value::List(items), Value::Int(i)) => {
            proof {
                lemma_values_view(items@);
            }
            if *i >= 0 && (*i as u64) < (items.len() as u64) {
                Ok(items[*i as usize].duplicate())
            } else {
                fail("index out of range")
            }
        },
        (Value::Struct(map), Value::String(k)) => match map.get(k.as_str()) {
            Some(v) => Ok(v.duplicate()),
            None => fail("missing key"),
        },
        _ => fail("indexing mismatch"),
    }
}

} // verus!
