//! Operators of the expression language: their handlers, the built-in ones,
//! and the registry that the parser and the evaluator consult.

use vstd::prelude::*;
use crate::error::{EngineError, ErrorView, EvalError};
use crate::float::{
    add_model, compare, div_model, float_add, float_compare, float_div, float_from_int,
    float_is_zero, float_mul, float_negate, float_sub, from_int, is_zero, mul_model, negate,
    sub_model, Order,
};
use crate::text::{
    append_chars, chars_of, find_name, lemma_found_name, lemma_same_names, lex_less, occurs_in,
    string_of, text_contains, text_equal, text_less,
};
use crate::value::{kind_name_of, lemma_values_view, values_equal, values_view, Value, ValueView};

verus! {

/// What a handler gave: a value or an error, as mathematical content.
pub open spec fn outcome(r: Result<Value, EngineError>) -> Result<ValueView, ErrorView> {
    match r {
        Ok(v) => Ok(v@),
        Err(e) => Err(e@),
    }
}

/// The failed evaluation with the message `message`.
pub open spec fn eval_error(message: Seq<char>) -> Result<ValueView, ErrorView> {
    Err(ErrorView::Eval(message))
}

/// Fails with the message `message`.
pub fn fail(message: &str) -> (r: Result<Value, EngineError>)
    ensures
        outcome(r) == eval_error(message@),
{
    Err(EngineError::Eval(EvalError::new(message)))
}

/// Fails with the message `head` followed by `tail`.
pub fn fail_with(head: &str, tail: &str) -> (r: Result<Value, EngineError>)
    ensures
        outcome(r) == eval_error(head@ + tail@),
{
    let mut message = chars_of(head);
    let rest = chars_of(tail);
    append_chars(&mut message, &rest);
    Err(EngineError::Eval(EvalError { message: string_of(&message) }))
}

/// A unary operator's handler: a pure function of its operand.
pub trait UnaryFn {
    /// What the handler gives for an operand with this content.
    spec fn result(&self, v: ValueView) -> Result<ValueView, ErrorView>;

    fn call(&self, v: &Value) -> (r: Result<Value, EngineError>)
        ensures
            outcome(r) == self.result(v@),
    ;
}

/// A binary operator's handler: a pure function of its two operands.
pub trait BinaryFn {
    /// What the handler gives for operands with these contents.
    spec fn result(&self, a: ValueView, b: ValueView) -> Result<ValueView, ErrorView>;

    fn call(&self, a: &Value, b: &Value) -> (r: Result<Value, EngineError>)
        ensures
            outcome(r) == self.result(a@, b@),
    ;
}

/// Whether `f` can be called on every operand and what it gives depends on
/// the operand's content alone.
pub open spec fn unary_pure<F: Fn(&Value) -> Result<Value, EngineError>>(f: F) -> bool {
    &&& forall|v: &Value| call_requires(f, (v,))
    &&& forall|v1: &Value, r1: Result<Value, EngineError>, v2: &Value, r2: Result<Value, EngineError>|
        v1@ == v2@ && #[trigger] call_ensures(f, (v1,), r1) && #[trigger] call_ensures(f, (v2,), r2)
            ==> outcome(r1) == outcome(r2)
}

/// What the pure closure `f` gives for an operand with this content.
pub open spec fn unary_closure_result<F: Fn(&Value) -> Result<Value, EngineError>>(
    f: F,
    v: ValueView,
) -> Result<ValueView, ErrorView> {
    let t = choose|t: (&Value, Result<Value, EngineError>)|
        t.0@ == v && #[trigger] call_ensures(f, (t.0,), t.1);
    outcome(t.1)
}

/// Whether `f` can be called on every pair of operands and what it gives
/// depends on their contents alone.
pub open spec fn binary_pure<F: Fn(&Value, &Value) -> Result<Value, EngineError>>(f: F) -> bool {
    &&& forall|a: &Value, b: &Value| call_requires(f, (a, b))
    &&& forall|
        a1: &Value,
        b1: &Value,
        r1: Result<Value, EngineError>,
        a2: &Value,
        b2: &Value,
        r2: Result<Value, EngineError>,
    |
        a1@ == a2@ && b1@ == b2@ && #[trigger] call_ensures(f, (a1, b1), r1)
            && #[trigger] call_ensures(f, (a2, b2), r2) ==> outcome(r1) == outcome(r2)
}

/// What the pure closure `f` gives for operands with these contents.
pub open spec fn binary_closure_result<F: Fn(&Value, &Value) -> Result<Value, EngineError>>(
    f: F,
    a: ValueView,
    b: ValueView,
) -> Result<ValueView, ErrorView> {
    let t = choose|t: (&Value, &Value, Result<Value, EngineError>)|
        t.0@ == a && t.1@ == b && #[trigger] call_ensures(f, (t.0, t.1), t.2);
    outcome(t.2)
}

/// A pure closure as a unary operator's handler.
pub struct UnaryClosure<F: Fn(&Value) -> Result<Value, EngineError>> {
    f: F,
}

impl<F: Fn(&Value) -> Result<Value, EngineError>> UnaryClosure<F> {
    #[verifier::type_invariant]
    spec fn pure(self) -> bool {
        unary_pure(self.f)
    }

    pub closed spec fn closure(self) -> F {
        self.f
    }

    pub fn new(f: F) -> (h: UnaryClosure<F>)
        requires
            unary_pure(f),
        ensures
            h.closure() == f,
    {
        UnaryClosure { f }
    }
}

impl<F: Fn(&Value) -> Result<Value, EngineError>> UnaryFn for UnaryClosure<F> {
    open spec fn result(&self, v: ValueView) -> Result<ValueView, ErrorView> {
        unary_closure_result(self.closure(), v)
    }

    fn call(&self, v: &Value) -> (r: Result<Value, EngineError>) {
        proof {
            use_type_invariant(self);
        }
        let r = (self.f)(v);
        let ghost t = (v, r);
        assert(t.0@ == v@ && call_ensures(self.f, (t.0,), t.1));
        r
    }
}

/// A pure closure as a binary operator's handler.
pub struct BinaryClosure<F: Fn(&Value, &Value) -> Result<Value, EngineError>> {
    f: F,
}

impl<F: Fn(&Value, &Value) -> Result<Value, EngineError>> BinaryClosure<F> {
    #[verifier::type_invariant]
    spec fn pure(self) -> bool {
        binary_pure(self.f)
    }

    pub closed spec fn closure(self) -> F {
        self.f
    }

    pub fn new(f: F) -> (h: BinaryClosure<F>)
        requires
            binary_pure(f),
        ensures
            h.closure() == f,
    {
        BinaryClosure { f }
    }
}

impl<F: Fn(&Value, &Value) -> Result<Value, EngineError>> BinaryFn for BinaryClosure<F> {
    open spec fn result(&self, a: ValueView, b: ValueView) -> Result<ValueView, ErrorView> {
        binary_closure_result(self.closure(), a, b)
    }

    fn call(&self, a: &Value, b: &Value) -> (r: Result<Value, EngineError>) {
        proof {
            use_type_invariant(self);
        }
        let r = (self.f)(a, b);
        let ghost t = (a, b, r);
        assert(t.0@ == a@ && t.1@ == b@ && call_ensures(self.f, (t.0, t.1), t.2));
        r
    }
}

/// The built-in unary operators.
#[derive(Debug, Clone, Copy, PartialEq, Eq, Structural)]
pub enum UnaryBuiltin {
    /// `!`
    Not,
    /// `not`
    WordNot,
    /// Unary `-`
    Neg,
    /// Unary `+`
    Pos,
}

/// The built-in binary operators.
#[derive(Debug, Clone, Copy, PartialEq, Eq, Structural)]
pub enum BinaryBuiltin {
    /// `||`
    Or,
    /// `or`
    WordOr,
    /// `&&`
    And,
    /// `and`
    WordAnd,
    /// `==`
    Eq,
    /// `!=`
    Ne,
    /// `<`
    Lt,
    /// `<=`
    Le,
    /// `>`
    Gt,
    /// `>=`
    Ge,
    /// `+`
    Add,
    /// `-`
    Sub,
    /// `*`
    Mul,
    /// `/`
    Div,
    /// `%`
    Rem,
    /// `contains`
    Contains,
}

/// What a built-in unary operator gives. `!` and `not` negate a Bool; unary
/// `-` negates an Int or a Float and unary `+` returns it; an Int whose
/// negation does not fit is refused.
pub open spec fn unary_builtin(op: UnaryBuiltin, v: ValueView) -> Result<ValueView, ErrorView> {
    match op {
        UnaryBuiltin::Not => match v {
            ValueView::Bool(b) => Ok(ValueView::Bool(!b)),
            _ => eval_error("operator '!' expects bool, got "@ + kind_name_of(v)),
        },
        UnaryBuiltin::WordNot => match v {
            ValueView::Bool(b) => Ok(ValueView::Bool(!b)),
            _ => eval_error("operator 'not' expects bool, got "@ + kind_name_of(v)),
        },
        UnaryBuiltin::Neg => match v {
            ValueView::Int(n) => if n == i64::MIN {
                eval_error("integer overflow"@)
            } else {
                Ok(ValueView::Int((-n) as i64))
            },
            ValueView::Float(x) => Ok(ValueView::Float(negate(x))),
            _ => eval_error("unary '-' expects number, got "@ + kind_name_of(v)),
        },
        UnaryBuiltin::Pos => match v {
            ValueView::Int(n) => Ok(ValueView::Int(n)),
            ValueView::Float(x) => Ok(ValueView::Float(x)),
            _ => eval_error("unary '+' expects number, got "@ + kind_name_of(v)),
        },
    }
}

/// The two operands as Floats, an Int converted, or `None` unless both are
/// numbers.
pub open spec fn number_pair(a: ValueView, b: ValueView) -> Option<(u64, u64)> {
    match (a, b) {
        (ValueView::Int(x), ValueView::Int(y)) => Some((from_int(x), from_int(y))),
        (ValueView::Int(x), ValueView::Float(y)) => Some((from_int(x), y)),
        (ValueView::Float(x), ValueView::Int(y)) => Some((x, from_int(y))),
        (ValueView::Float(x), ValueView::Float(y)) => Some((x, y)),
        _ => None,
    }
}

/// The order of two Floats, refused when either is NaN.
pub open spec fn float_order(c: Option<Order>) -> Result<Order, ErrorView> {
    match c {
        Some(o) => Ok(o),
        None => Err(ErrorView::Eval("invalid float comparison"@)),
    }
}

/// The order of two integers.
pub open spec fn int_order(x: int, y: int) -> Order {
    if x < y {
        Order::Less
    } else if x == y {
        Order::Equal
    } else {
        Order::Greater
    }
}

/// The order of two strings.
pub open spec fn text_order(x: Seq<char>, y: Seq<char>) -> Order {
    if x == y {
        Order::Equal
    } else if lex_less(x, y) {
        Order::Less
    } else {
        Order::Greater
    }
}

/// The order of two values: of two numbers (an Int beside a Float
/// converted), of two strings, or of two Bools, `false` first. Any other
/// pair has no order.
pub open spec fn order_of(a: ValueView, b: ValueView) -> Result<Order, ErrorView> {
    match (a, b) {
        (ValueView::Int(x), ValueView::Int(y)) => Ok(int_order(x as int, y as int)),
        (ValueView::Float(x), ValueView::Float(y)) => float_order(compare(x, y)),
        (ValueView::Int(x), ValueView::Float(y)) => float_order(compare(from_int(x), y)),
        (ValueView::Float(x), ValueView::Int(y)) => float_order(compare(x, from_int(y))),
        (ValueView::Str(x), ValueView::Str(y)) => Ok(text_order(x, y)),
        (ValueView::Bool(x), ValueView::Bool(y)) => Ok(
            if x == y {
                Order::Equal
            } else if !x {
                Order::Less
            } else {
                Order::Greater
            },
        ),
        _ => Err(ErrorView::Eval("incompatible types for comparison"@)),
    }
}

/// A comparison's result from the order of its operands.
pub open spec fn ordered(
    o: Result<Order, ErrorView>,
    accept: spec_fn(Order) -> bool,
) -> Result<ValueView, ErrorView> {
    match o {
        Ok(r) => Ok(ValueView::Bool(accept(r))),
        Err(e) => Err(e),
    }
}

/// Whether the list `items` holds a value equal to `v`, from position `i` on.
pub open spec fn list_has_from(items: Seq<ValueView>, v: ValueView, i: int) -> bool
    decreases items.len() - i,
{
    if i < 0 || i >= items.len() {
        false
    } else {
        values_equal(items[i], v) || list_has_from(items, v, i + 1)
    }
}

/// The sum of two values: of two Ints an Int, refused when it does not fit;
/// of two numbers otherwise a Float; of two strings their concatenation.
pub open spec fn add_values(a: ValueView, b: ValueView) -> Result<ValueView, ErrorView> {
    match (a, b) {
        (ValueView::Int(x), ValueView::Int(y)) => if i64::MIN <= x + y <= i64::MAX {
            Ok(ValueView::Int((x + y) as i64))
        } else {
            eval_error("integer overflow"@)
        },
        (ValueView::Str(x), ValueView::Str(y)) => Ok(ValueView::Str(x + y)),
        _ => match number_pair(a, b) {
            Some((x, y)) => Ok(ValueView::Float(add_model(x, y))),
            None => eval_error("'+' expects numbers or strings"@),
        },
    }
}

/// The remainder of two Ints, with the sign of the dividend; refused for a
/// zero divisor and where the quotient does not fit.
pub open spec fn rem_values(a: ValueView, b: ValueView) -> Result<ValueView, ErrorView> {
    match (a, b) {
        (ValueView::Int(x), ValueView::Int(y)) => match x.checked_rem(y) {
            Some(r) => Ok(ValueView::Int(r)),
            None => eval_error("'%' expects non-zero integer rhs"@),
        },
        _ => eval_error("'%' expects non-zero integer rhs"@),
    }
}

/// What a built-in binary operator gives.
pub open spec fn binary_builtin(op: BinaryBuiltin, a: ValueView, b: ValueView) -> Result<
    ValueView,
    ErrorView,
> {
    match op {
        BinaryBuiltin::Or => match (a, b) {
            (ValueView::Bool(x), ValueView::Bool(y)) => Ok(ValueView::Bool(x || y)),
            _ => eval_error("operator '||' expects bool operands"@),
        },
        BinaryBuiltin::WordOr => match (a, b) {
            (ValueView::Bool(x), ValueView::Bool(y)) => Ok(ValueView::Bool(x || y)),
            _ => eval_error("operator 'or' expects bool operands"@),
        },
        BinaryBuiltin::And => match (a, b) {
            (ValueView::Bool(x), ValueView::Bool(y)) => Ok(ValueView::Bool(x && y)),
            _ => eval_error("operator '&&' expects bool operands"@),
        },
        BinaryBuiltin::WordAnd => match (a, b) {
            (ValueView::Bool(x), ValueView::Bool(y)) => Ok(ValueView::Bool(x && y)),
            _ => eval_error("operator 'and' expects bool operands"@),
        },
        BinaryBuiltin::Eq => Ok(ValueView::Bool(values_equal(a, b))),
        BinaryBuiltin::Ne => Ok(ValueView::Bool(!values_equal(a, b))),
        BinaryBuiltin::Lt => ordered(order_of(a, b), |o: Order| o == Order::Less),
        BinaryBuiltin::Le => ordered(order_of(a, b), |o: Order| o != Order::Greater),
        BinaryBuiltin::Gt => ordered(order_of(a, b), |o: Order| o == Order::Greater),
        BinaryBuiltin::Ge => ordered(order_of(a, b), |o: Order| o != Order::Less),
        BinaryBuiltin::Add => add_values(a, b),
        BinaryBuiltin::Sub => match number_pair(a, b) {
            Some((x, y)) => Ok(ValueView::Float(sub_model(x, y))),
            None => eval_error("operator expects numbers"@),
        },
        BinaryBuiltin::Mul => match number_pair(a, b) {
            Some((x, y)) => Ok(ValueView::Float(mul_model(x, y))),
            None => eval_error("operator expects numbers"@),
        },
        BinaryBuiltin::Div => match number_pair(a, b) {
            Some((x, y)) => if is_zero(y) {
                eval_error("division by zero"@)
            } else {
                Ok(ValueView::Float(div_model(x, y)))
            },
            None => eval_error("operator expects numbers"@),
        },
        BinaryBuiltin::Rem => rem_values(a, b),
        BinaryBuiltin::Contains => match (a, b) {
            (ValueView::Str(s), ValueView::Str(sub)) => Ok(ValueView::Bool(occurs_in(s, sub))),
            (ValueView::List(items), v) => Ok(ValueView::Bool(list_has_from(items, v, 0))),
            _ => eval_error("'contains' expects string or list on left"@),
        },
    }
}

fn apply_not(v: &Value, head: &str) -> (r: Result<Value, EngineError>)
    ensures
        outcome(r) == (match v@ {
            ValueView::Bool(b) => Ok(ValueView::Bool(!b)),
            _ => eval_error(head@ + kind_name_of(v@)),
        }),
{
    match v {
        Value::Bool(b) => Ok(Value::Bool(!*b)),
        _ => fail_with(head, v.kind_name()),
    }
}

fn apply_unary(op: UnaryBuiltin, v: &Value) -> (r: Result<Value, EngineError>)
    ensures
        outcome(r) == unary_builtin(op, v@),
{
    match op {
        UnaryBuiltin::Not => apply_not(v, "operator '!' expects bool, got "),
        UnaryBuiltin::WordNot => apply_not(v, "operator 'not' expects bool, got "),
        UnaryBuiltin::Neg => match v {
            Value::Int(n) => {
                if *n == i64::MIN {
                    fail("integer overflow")
                } else {
                    Ok(Value::Int(-*n))
                }
            },
            Value::Float(x) => Ok(Value::Float(float_negate(*x))),
            _ => fail_with("unary '-' expects number, got ", v.kind_name()),
        },
        UnaryBuiltin::Pos => match v {
            Value::Int(n) => Ok(Value::Int(*n)),
            Value::Float(x) => Ok(Value::Float(*x)),
            _ => fail_with("unary '+' expects number, got ", v.kind_name()),
        },
    }
}

/// The two operands as Floats, if both are numbers.
pub fn number_pair_of(a: &Value, b: &Value) -> (r: Option<(u64, u64)>)
    ensures
        r == number_pair(a@, b@),
{
    match (a, b) {
        (Value::Int(x), Value::Int(y)) => Some((float_from_int(*x), float_from_int(*y))),
        (Value::Int(x), Value::Float(y)) => Some((float_from_int(*x), *y)),
        (Value::Float(x), Value::Int(y)) => Some((*x, float_from_int(*y))),
        (Value::Float(x), Value::Float(y)) => Some((*x, *y)),
        _ => None,
    }
}

/// What comparing gave, as mathematical content.
pub open spec fn order_outcome(r: Result<Order, EngineError>) -> Result<Order, ErrorView> {
    match r {
        Ok(o) => Ok(o),
        Err(e) => Err(e@),
    }
}

fn order_floats(x: u64, y: u64) -> (r: Result<Order, EngineError>)
    ensures
        order_outcome(r) == float_order(compare(x, y)),
{
    match float_compare(x, y) {
        Some(o) => Ok(o),
        None => Err(EngineError::Eval(EvalError::new("invalid float comparison"))),
    }
}

/// The order of two values.
pub fn order_values(a: &Value, b: &Value) -> (r: Result<Order, EngineError>)
    ensures
        order_outcome(r) == order_of(a@, b@),
{
    match (a, b) {
        (Value::Int(x), Value::Int(y)) => {
            let p: i64 = *x;
            let q: i64 = *y;
            if p < q {
                Ok(Order::Less)
            } else if p == q {
                Ok(Order::Equal)
            } else {
                Ok(Order::Greater)
            }
        },
        (Value::Float(x), Value::Float(y)) => order_floats(*x, *y),
        (Value::Int(x), Value::Float(y)) => order_floats(float_from_int(*x), *y),
        (Value::Float(x), Value::Int(y)) => order_floats(*x, float_from_int(*y)),
        (Value::String(x), Value::String(y)) => {
            if text_equal(x.as_str(), y.as_str()) {
                Ok(Order::Equal)
            } else if text_less(x.as_str(), y.as_str()) {
                Ok(Order::Less)
            } else {
                Ok(Order::Greater)
            }
        },
        (Value::Bool(x), Value::Bool(y)) => {
            let p: bool = *x;
            let q: bool = *y;
            if p == q {
                Ok(Order::Equal)
            } else if !p {
                Ok(Order::Less)
            } else {
                Ok(Order::Greater)
            }
        },
        _ => Err(EngineError::Eval(EvalError::new("incompatible types for comparison"))),
    }
}

fn list_has(items: &Vec<Value>, v: &Value) -> (r: bool)
    ensures
        r == list_has_from(values_view(items@), v@, 0),
{
    proof {
        lemma_values_view(items@);
    }
    let mut i: usize = 0;
    while i < items.len()
        invariant
            i <= items.len(),
            values_view(items@).len() == items@.len(),
            forall|k: int| 0 <= k < items@.len() ==> #[trigger] values_view(items@)[k] == items@[k]@,
            list_has_from(values_view(items@), v@, 0) == list_has_from(
                values_view(items@),
                v@,
                i as int,
            ),
        decreases items.len() - i,
    {
        assert(values_view(items@)[i as int] == items@[i as int]@);
        if items[i].equals(v) {
            return true;
        }
        i += 1;
    }
    false
}

fn apply_add(a: &Value, b: &Value) -> (r: Result<Value, EngineError>)
    ensures
        outcome(r) == add_values(a@, b@),
{
    match (a, b) {
        (Value::Int(x), Value::Int(y)) => match x.checked_add(*y) {
            Some(n) => Ok(Value::Int(n)),
            None => fail("integer overflow"),
        },
        (Value::String(x), Value::String(y)) => {
            let mut out = chars_of(x.as_str());
            let tail = chars_of(y.as_str());
            append_chars(&mut out, &tail);
            Ok(Value::String(string_of(&out)))
        },
        _ => match number_pair_of(a, b) {
            Some((x, y)) => Ok(Value::Float(float_add(x, y))),
            None => fail("'+' expects numbers or strings"),
        },
    }
}

fn apply_rem(a: &Value, b: &Value) -> (r: Result<Value, EngineError>)
    ensures
        outcome(r) == rem_values(a@, b@),
{
    match (a, b) {
        (Value::Int(x), Value::Int(y)) => match x.checked_rem(*y) {
            Some(n) => Ok(Value::Int(n)),
            None => fail("'%' expects non-zero integer rhs"),
        },
        _ => fail("'%' expects non-zero integer rhs"),
    }
}

fn apply_bool(a: &Value, b: &Value, or: bool, message: &str) -> (r: Result<Value, EngineError>)
    ensures
        outcome(r) == (match (a@, b@) {
            (ValueView::Bool(x), ValueView::Bool(y)) => Ok(
                ValueView::Bool(
                    if or {
                        x || y
                    } else {
                        x && y
                    },
                ),
            ),
            _ => eval_error(message@),
        }),
{
    match (a, b) {
        (Value::Bool(x), Value::Bool(y)) => {
            let p: bool = *x;
            let q: bool = *y;
            Ok(
                Value::Bool(
                    if or {
                        p || q
                    } else {
                        p && q
                    },
                ),
            )
        },
        _ => fail(message),
    }
}

fn apply_binary(op: BinaryBuiltin, a: &Value, b: &Value) -> (r: Result<Value, EngineError>)
    ensures
        outcome(r) == binary_builtin(op, a@, b@),
{
    match op {
        BinaryBuiltin::Or => apply_bool(a, b, true, "operator '||' expects bool operands"),
        BinaryBuiltin::WordOr => apply_bool(a, b, true, "operator 'or' expects bool operands"),
        BinaryBuiltin::And => apply_bool(a, b, false, "operator '&&' expects bool operands"),
        BinaryBuiltin::WordAnd => apply_bool(a, b, false, "operator 'and' expects bool operands"),
        BinaryBuiltin::Eq => Ok(Value::Bool(a.equals(b))),
        BinaryBuiltin::Ne => Ok(Value::Bool(!a.equals(b))),
        BinaryBuiltin::Lt => match order_values(a, b) {
            Ok(o) => Ok(Value::Bool(o == Order::Less)),
            Err(e) => Err(e),
        },
        BinaryBuiltin::Le => match order_values(a, b) {
            Ok(o) => Ok(Value::Bool(o != Order::Greater)),
            Err(e) => Err(e),
        },
        BinaryBuiltin::Gt => match order_values(a, b) {
            Ok(o) => Ok(Value::Bool(o == Order::Greater)),
            Err(e) => Err(e),
        },
        BinaryBuiltin::Ge => match order_values(a, b) {
            Ok(o) => Ok(Value::Bool(o != Order::Less)),
            Err(e) => Err(e),
        },
        BinaryBuiltin::Add => apply_add(a, b),
        BinaryBuiltin::Sub => match number_pair_of(a, b) {
            Some((x, y)) => Ok(Value::Float(float_sub(x, y))),
            None => fail("operator expects numbers"),
        },
        BinaryBuiltin::Mul => match number_pair_of(a, b) {
            Some((x, y)) => Ok(Value::Float(float_mul(x, y))),
            None => fail("operator expects numbers"),
        },
        BinaryBuiltin::Div => match number_pair_of(a, b) {
            Some((x, y)) => {
                if float_is_zero(y) {
                    fail("division by zero")
                } else {
                    Ok(Value::Float(float_div(x, y)))
                }
            },
            None => fail("operator expects numbers"),
        },
        BinaryBuiltin::Rem => apply_rem(a, b),
        BinaryBuiltin::Contains => match (a, b) {
            (Value::String(s), Value::String(sub)) => Ok(
                Value::Bool(text_contains(s.as_str(), sub.as_str())),
            ),
            (Value::List(items), v) => Ok(Value::Bool(list_has(items, v))),
            _ => fail("'contains' expects string or list on left"),
        },
    }
}

impl UnaryFn for UnaryBuiltin {
    open spec fn result(&self, v: ValueView) -> Result<ValueView, ErrorView> {
        unary_builtin(*self, v)
    }

    fn call(&self, v: &Value) -> (r: Result<Value, EngineError>) {
        apply_unary(*self, v)
    }
}

impl BinaryFn for BinaryBuiltin {
    open spec fn result(&self, a: ValueView, b: ValueView) -> Result<ValueView, ErrorView> {
        binary_builtin(*self, a, b)
    }

    fn call(&self, a: &Value, b: &Value) -> (r: Result<Value, EngineError>) {
        apply_binary(*self, a, b)
    }
}

/// A unary operator's handler, built-in or supplied.
pub struct UnaryHandler {
    pub func: Box<dyn UnaryFn>,
}

/// A binary operator's handler, built-in or supplied.
pub struct BinaryHandler {
    pub func: Box<dyn BinaryFn>,
}

impl UnaryHandler {
    /// What the handler gives for an operand with this content.
    pub open spec fn result(&self, v: ValueView) -> Result<ValueView, ErrorView> {
        self.func.result(v)
    }

    /// The handler of a built-in operator.
    pub fn builtin(op: UnaryBuiltin) -> (h: UnaryHandler)
        ensures
            forall|v: ValueView| #[trigger] h.result(v) == unary_builtin(op, v),
    {
        UnaryHandler { func: Box::new(op) }
    }

    /// The handler that calls the pure closure `f`.
    pub fn closure<F>(f: F) -> (h: UnaryHandler) where
        F: Fn(&Value) -> Result<Value, EngineError> + Send + Sync + 'static,

        requires
            unary_pure(f),
        ensures
            forall|v: ValueView| #[trigger] h.result(v) == unary_closure_result(f, v),
    {
        Self::of_closure(UnaryClosure::new(f))
    }

    fn of_closure<F>(c: UnaryClosure<F>) -> (h: UnaryHandler) where
        F: Fn(&Value) -> Result<Value, EngineError> + Send + Sync + 'static,

        ensures
            forall|v: ValueView| #[trigger] h.result(v) == c.result(v),
    {
        UnaryHandler { func: Box::new(c) }
    }

    /// Applies the handler.
    pub fn call(&self, v: &Value) -> (r: Result<Value, EngineError>)
        ensures
            outcome(r) == self.result(v@),
    {
        self.func.call(v)
    }
}

impl BinaryHandler {
    /// What the handler gives for operands with these contents.
    pub open spec fn result(&self, a: ValueView, b: ValueView) -> Result<ValueView, ErrorView> {
        self.func.result(a, b)
    }

    /// The handler of a built-in operator.
    pub fn builtin(op: BinaryBuiltin) -> (h: BinaryHandler)
        ensures
            forall|a: ValueView, b: ValueView| #[trigger] h.result(a, b) == binary_builtin(op, a, b),
    {
        BinaryHandler { func: Box::new(op) }
    }

    /// The handler that calls the pure closure `f`.
    pub fn closure<F>(f: F) -> (h: BinaryHandler) where
        F: Fn(&Value, &Value) -> Result<Value, EngineError> + Send + Sync + 'static,

        requires
            binary_pure(f),
        ensures
            forall|a: ValueView, b: ValueView| #[trigger]
                h.result(a, b) == binary_closure_result(f, a, b),
    {
        Self::of_closure(BinaryClosure::new(f))
    }

    fn of_closure<F>(c: BinaryClosure<F>) -> (h: BinaryHandler) where
        F: Fn(&Value, &Value) -> Result<Value, EngineError> + Send + Sync + 'static,

        ensures
            forall|a: ValueView, b: ValueView| #[trigger] h.result(a, b) == c.result(a, b),
    {
        BinaryHandler { func: Box::new(c) }
    }

    /// Applies the handler.
    pub fn call(&self, a: &Value, b: &Value) -> (r: Result<Value, EngineError>)
        ensures
            outcome(r) == self.result(a@, b@),
    {
        self.func.call(a, b)
    }
}

/// How operators of equal precedence group.
#[derive(Debug, Clone, Copy, PartialEq, Eq, Structural)]
pub enum Assoc {
    Left,
    Right,
}

/// A binary operator: how tightly it binds, how it groups, what it computes.
pub struct BinaryOpSpec {
    pub precedence: u8,
    pub associativity: Assoc,
    pub func: BinaryHandler,
}

/// A registered unary operator.
pub struct UnaryEntry {
    pub name: String,
    pub func: UnaryHandler,
}

/// A registered binary operator.
pub struct BinaryEntry {
    pub name: String,
    pub spec: BinaryOpSpec,
}

/// The operators known to an engine, by name; one entry per name.
pub struct OperatorRegistry {
    pub unary: Vec<UnaryEntry>,
    pub binary: Vec<BinaryEntry>,
}

/// The names of the unary `entries`, in order.
pub open spec fn unary_names(entries: Seq<UnaryEntry>) -> Seq<Seq<char>> {
    Seq::new(entries.len(), |j: int| entries[j].name@)
}

/// The names of the binary `entries`, in order.
pub open spec fn binary_names(entries: Seq<BinaryEntry>) -> Seq<Seq<char>> {
    Seq::new(entries.len(), |j: int| entries[j].name@)
}

/// The position of the first unary entry called `name`, from `i` on.
pub open spec fn find_unary(entries: Seq<UnaryEntry>, name: Seq<char>, i: int) -> Option<int> {
    find_name(unary_names(entries), name, i)
}

/// The position of the first binary entry called `name`, from `i` on.
pub open spec fn find_binary(entries: Seq<BinaryEntry>, name: Seq<char>, i: int) -> Option<int> {
    find_name(binary_names(entries), name, i)
}

impl OperatorRegistry {
    /// The unary operator called `name`.
    pub open spec fn unary_at(&self, name: Seq<char>) -> Option<UnaryEntry> {
        match find_unary(self.unary@, name, 0) {
            Some(k) => Some(self.unary@[k]),
            None => None,
        }
    }

    /// The binary operator called `name`.
    pub open spec fn binary_at(&self, name: Seq<char>) -> Option<BinaryEntry> {
        match find_binary(self.binary@, name, 0) {
            Some(k) => Some(self.binary@[k]),
            None => None,
        }
    }

    /// Precedence and associativity of the binary operator called `name`.
    pub open spec fn binary_info(&self, name: Seq<char>) -> Option<(u8, Assoc)> {
        match self.binary_at(name) {
            Some(e) => Some((e.spec.precedence, e.spec.associativity)),
            None => None,
        }
    }

    /// What the unary operator called `name` gives for `v`.
    pub open spec fn unary_result(&self, name: Seq<char>, v: ValueView) -> Option<
        Result<ValueView, ErrorView>,
    > {
        match self.unary_at(name) {
            Some(e) => Some(e.func.result(v)),
            None => None,
        }
    }

    /// What the binary operator called `name` gives for `a` and `b`.
    pub open spec fn binary_result(&self, name: Seq<char>, a: ValueView, b: ValueView) -> Option<
        Result<ValueView, ErrorView>,
    > {
        match self.binary_at(name) {
            Some(e) => Some(e.spec.func.result(a, b)),
            None => None,
        }
    }

    /// A registry without operators.
    pub fn new() -> (r: OperatorRegistry)
        ensures
            r.unary@.len() == 0,
            r.binary@.len() == 0,
    {
        OperatorRegistry { unary: Vec::new(), binary: Vec::new() }
    }

    /// The handler of the unary operator called `name`.
    pub fn get_unary(&self, name: &str) -> (r: Option<&UnaryHandler>)
        ensures
            match r {
                Some(h) => self.unary_at(name@) is Some && self.unary_at(name@)->0.func == *h,
                None => self.unary_at(name@) is None,
            },
    {
        let mut i: usize = 0;
        while i < self.unary.len()
            invariant
                i <= self.unary.len(),
                find_unary(self.unary@, name@, 0) == find_unary(self.unary@, name@, i as int),
            decreases self.unary.len() - i,
        {
            if text_equal(self.unary[i].name.as_str(), name) {
                return Some(&self.unary[i].func);
            }
            i += 1;
        }
        None
    }

    /// The binary operator called `name`.
    pub fn get_binary(&self, name: &str) -> (r: Option<&BinaryOpSpec>)
        ensures
            match r {
                Some(s) => self.binary_at(name@) is Some && self.binary_at(name@)->0.spec == *s,
                None => self.binary_at(name@) is None,
            },
    {
        let mut i: usize = 0;
        while i < self.binary.len()
            invariant
                i <= self.binary.len(),
                find_binary(self.binary@, name@, 0) == find_binary(self.binary@, name@, i as int),
            decreases self.binary.len() - i,
        {
            if text_equal(self.binary[i].name.as_str(), name) {
                return Some(&self.binary[i].spec);
            }
            i += 1;
        }
        None
    }

    /// Registers `handler` as the unary operator `name`, in place of an
    /// earlier one of that name.
    pub fn set_unary(&mut self, name: &str, handler: UnaryHandler)
        ensures
            final(self).binary@ == old(self).binary@,
            final(self).unary_at(name@) is Some,
            final(self).unary_at(name@)->0.func == handler,
            forall|other: Seq<char>|
                other != name@ ==> #[trigger] final(self).unary_at(other) == old(self).unary_at(
                    other,
                ),
    {
        let ghost before = self.unary@;
        let mut i: usize = 0;
        while i < self.unary.len()
            invariant
                i <= self.unary.len(),
                self.unary@ == before,
                before == old(self).unary@,
                self.binary@ == old(self).binary@,
                forall|j: int| 0 <= j < i ==> before[j].name@ != name@,
            decreases self.unary.len() - i,
        {
            if text_equal(self.unary[i].name.as_str(), name) {
                self.unary[i] = UnaryEntry { name: name.to_owned(), func: handler };
                proof {
                    let after = self.unary@;
                    lemma_found_name(unary_names(after), name@, 0, i as int);
                    assert forall|other: Seq<char>| other != name@ implies find_unary(
                        after,
                        other,
                        0,
                    ) == find_unary(before, other, 0) && (find_unary(before, other, 0) matches Some(
                        k,
                    ) ==> after[k] == before[k]) by {
                        lemma_same_names(unary_names(before), unary_names(after), other, 0);
                    }
                }
                return ;
            }
            i += 1;
        }
        self.unary.push(UnaryEntry { name: name.to_owned(), func: handler });
        proof {
            let after = self.unary@;
            lemma_found_name(unary_names(after), name@, 0, before.len() as int);
            assert forall|other: Seq<char>| other != name@ implies find_unary(after, other, 0)
                == find_unary(before, other, 0) && (find_unary(before, other, 0) matches Some(k)
                ==> after[k] == before[k]) by {
                lemma_same_names(unary_names(before), unary_names(after), other, 0);
            }
        }
    }

    /// Registers `handler` as the binary operator `name`, in place of an
    /// earlier one of that name.
    pub fn set_binary(&mut self, name: &str, precedence: u8, associativity: Assoc, handler: BinaryHandler)
        ensures
            final(self).unary@ == old(self).unary@,
            final(self).binary_at(name@) is Some,
            final(self).binary_at(name@)->0.spec == (BinaryOpSpec {
                precedence,
                associativity,
                func: handler,
            }),
            forall|other: Seq<char>|
                other != name@ ==> #[trigger] final(self).binary_at(other) == old(self).binary_at(
                    other,
                ),
    {
        let ghost before = self.binary@;
        let mut i: usize = 0;
        while i < self.binary.len()
            invariant
                i <= self.binary.len(),
                self.binary@ == before,
                before == old(self).binary@,
                self.unary@ == old(self).unary@,
                forall|j: int| 0 <= j < i ==> before[j].name@ != name@,
            decreases self.binary.len() - i,
        {
            if text_equal(self.binary[i].name.as_str(), name) {
                self.binary[i] = BinaryEntry {
                    name: name.to_owned(),
                    spec: BinaryOpSpec { precedence, associativity, func: handler },
                };
                proof {
                    let after = self.binary@;
                    lemma_found_name(binary_names(after), name@, 0, i as int);
                    assert forall|other: Seq<char>| other != name@ implies find_binary(
                        after,
                        other,
                        0,
                    ) == find_binary(before, other, 0) && (find_binary(before, other, 0) matches Some(
                        k,
                    ) ==> after[k] == before[k]) by {
                        lemma_same_names(binary_names(before), binary_names(after), other, 0);
                    }
                }
                return ;
            }
            i += 1;
        }
        self.binary.push(
            BinaryEntry {
                name: name.to_owned(),
                spec: BinaryOpSpec { precedence, associativity, func: handler },
            },
        );
        proof {
            let after = self.binary@;
            lemma_found_name(binary_names(after), name@, 0, before.len() as int);
            assert forall|other: Seq<char>| other != name@ implies find_binary(after, other, 0)
                == find_binary(before, other, 0) && (find_binary(before, other, 0) matches Some(k)
                ==> after[k] == before[k]) by {
                lemma_same_names(binary_names(before), binary_names(after), other, 0);
            }
        }
    }

    /// Registers the pure closure `f` as the unary operator `name`.
    pub fn register_unary<F>(&mut self, name: &str, f: F) where
        F: Fn(&Value) -> Result<Value, EngineError> + Send + Sync + 'static,

        requires
            unary_pure(f),
        ensures
            final(self).binary@ == old(self).binary@,
            forall|v: ValueView| #[trigger]
                final(self).unary_result(name@, v) == Some(unary_closure_result(f, v)),
            forall|other: Seq<char>|
                other != name@ ==> #[trigger] final(self).unary_at(other) == old(self).unary_at(
                    other,
                ),
    {
        self.set_unary(name, UnaryHandler::closure(f));
    }

    /// Registers the pure closure `f` as the binary operator `name`.
    pub fn register_binary<F>(&mut self, name: &str, precedence: u8, associativity: Assoc, f: F) where
        F: Fn(&Value, &Value) -> Result<Value, EngineError> + Send + Sync + 'static,

        requires
            binary_pure(f),
        ensures
            final(self).unary@ == old(self).unary@,
            final(self).binary_info(name@) == Some((precedence, associativity)),
            forall|a: ValueView, b: ValueView| #[trigger]
                final(self).binary_result(name@, a, b) == Some(binary_closure_result(f, a, b)),
            forall|other: Seq<char>|
                other != name@ ==> #[trigger] final(self).binary_at(other) == old(self).binary_at(
                    other,
                ),
    {
        self.set_binary(name, precedence, associativity, BinaryHandler::closure(f));
    }
}

} // verus!
