//! The syntax tree of an expression.

use vstd::prelude::*;
use crate::value::{Value, ValueView};

verus! {

/// A prefix operator.
#[derive(Debug, Clone, Copy, PartialEq, Eq, Structural)]
pub enum UnaryOp {
    /// `!`
    Not,
    /// `-`
    Neg,
    /// `+`
    Pos,
    /// `not`
    WordNot,
}

/// An expression.
#[derive(Debug, PartialEq)]
pub enum Expr {
    Literal(Value),
    Ident(String),
    Unary { op: UnaryOp, expr: Box<Expr> },
    Binary { left: Box<Expr>, op: String, right: Box<Expr> },
    Call { name: String, args: Vec<Expr> },
    Lambda { param: String, body: Box<Expr> },
    Member { target: Box<Expr>, member: String },
    Index { target: Box<Expr>, index: Box<Expr> },
    /// The fields in source order.
    StructLiteral(Vec<(String, Expr)>),
    ListLiteral(Vec<Expr>),
    EnumVariant { name: String, payload: Option<Box<Expr>> },
}

/// The mathematical content of an [`Expr`].
pub ghost enum ExprView {
    Literal(ValueView),
    Ident(Seq<char>),
    Unary { op: UnaryOp, expr: Box<ExprView> },
    Binary { left: Box<ExprView>, op: Seq<char>, right: Box<ExprView> },
    Call { name: Seq<char>, args: Seq<ExprView> },
    Lambda { param: Seq<char>, body: Box<ExprView> },
    Member { target: Box<ExprView>, member: Seq<char> },
    Index { target: Box<ExprView>, index: Box<ExprView> },
    StructLiteral(Seq<(Seq<char>, ExprView)>),
    ListLiteral(Seq<ExprView>),
    EnumVariant { name: Seq<char>, payload: Option<Box<ExprView>> },
}

impl Expr {
    /// The mathematical content of this expression.
    pub open spec fn model(&self) -> ExprView
        decreases self, 0nat,
    {
        match self {
            Expr::Literal(v) => ExprView::Literal(v@),
            Expr::Ident(name) => ExprView::Ident(name@),
            Expr::Unary { op, expr } => ExprView::Unary { op: *op, expr: Box::new(expr.model()) },
            Expr::Binary { left, op, right } => ExprView::Binary {
                left: Box::new(left.model()),
                op: op@,
                right: Box::new(right.model()),
            },
            Expr::Call { name, args } => ExprView::Call { name: name@, args: exprs_view(args@) },
            Expr::Lambda { param, body } => ExprView::Lambda {
                param: param@,
                body: Box::new(body.model()),
            },
            Expr::Member { target, member } => ExprView::Member {
                target: Box::new(target.model()),
                member: member@,
            },
            Expr::Index { target, index } => ExprView::Index {
                target: Box::new(target.model()),
                index: Box::new(index.model()),
            },
            Expr::StructLiteral(fields) => ExprView::StructLiteral(field_exprs_view(fields@)),
            Expr::ListLiteral(items) => ExprView::ListLiteral(exprs_view(items@)),
            Expr::EnumVariant { name, payload } => ExprView::EnumVariant {
                name: name@,
                payload: match payload {
                    Some(p) => Some(Box::new(p.model())),
                    None => None,
                },
            },
        }
    }
}

impl View for Expr {
    type V = ExprView;

    open spec fn view(&self) -> ExprView {
        self.model()
    }
}

/// The contents of each expression of `items`, in order.
pub open spec fn exprs_view(items: Seq<Expr>) -> Seq<ExprView>
    decreases items, 1nat,
{
    Seq::new(
        items.len(),
        |i: int|
            if 0 <= i < items.len() {
                items[i].model()
            } else {
                ExprView::Ident(Seq::empty())
            },
    )
}

/// The contents of each field of `fields`, in order.
pub open spec fn field_exprs_view(fields: Seq<(String, Expr)>) -> Seq<(Seq<char>, ExprView)>
    decreases fields, 1nat,
{
    Seq::new(
        fields.len(),
        |i: int|
            if 0 <= i < fields.len() {
                (fields[i].0@, fields[i].1.model())
            } else {
                (Seq::empty(), ExprView::Ident(Seq::empty()))
            },
    )
}

/// Element `i` of the content of a list of expressions is the content of
/// expression `i`.
pub proof fn lemma_exprs_view(items: Seq<Expr>)
    ensures
        exprs_view(items).len() == items.len(),
        forall|i: int| 0 <= i < items.len() ==> #[trigger] exprs_view(items)[i] == items[i]@,
{
}

/// Field `i` of the content of a struct literal is the key and content of
/// field `i`.
pub proof fn lemma_field_exprs_view(fields: Seq<(String, Expr)>)
    ensures
        field_exprs_view(fields).len() == fields.len(),
        forall|i: int|
            0 <= i < fields.len() ==> #[trigger] field_exprs_view(fields)[i] == (
                fields[i].0@,
                fields[i].1@,
            ),
{
}

fn duplicate_exprs(items: &Vec<Expr>) -> (out: Vec<Expr>)
    ensures
        exprs_view(out@) == exprs_view(items@),
    decreases items,
{
    let mut out: Vec<Expr> = Vec::new();
    let mut i: usize = 0;
    while i < items.len()
        invariant
            i <= items.len(),
            out@.len() == i,
            forall|k: int| 0 <= k < i ==> out@[k]@ == items@[k]@,
        decreases items.len() - i,
    {
        assert(decreases_to!(*items => items@[i as int]));
        out.push(items[i].duplicate());
        i += 1;
    }
    proof {
        lemma_exprs_view(out@);
        lemma_exprs_view(items@);
        assert(exprs_view(out@) =~= exprs_view(items@));
    }
    out
}

fn duplicate_field_exprs(fields: &Vec<(String, Expr)>) -> (out: Vec<(String, Expr)>)
    ensures
        field_exprs_view(out@) == field_exprs_view(fields@),
    decreases fields,
{
    let mut out: Vec<(String, Expr)> = Vec::new();
    let mut i: usize = 0;
    while i < fields.len()
        invariant
            i <= fields.len(),
            out@.len() == i,
            forall|k: int| 0 <= k < i ==> out@[k].0@ == fields@[k].0@ && out@[k].1@ == fields@[k].1@,
        decreases fields.len() - i,
    {
        assert(decreases_to!(*fields => fields@[i as int]));
        assert(decreases_to!(fields@[i as int] => fields@[i as int].1));
        out.push((fields[i].0.clone(), fields[i].1.duplicate()));
        i += 1;
    }
    proof {
        lemma_field_exprs_view(out@);
        lemma_field_exprs_view(fields@);
        assert(field_exprs_view(out@) =~= field_exprs_view(fields@));
    }
    out
}

impl Expr {
    /// A deep copy of this expression.
    pub fn duplicate(&self) -> (r: Expr)
        ensures
            r@ == self@,
        decreases self,
    {
        match self {
            Expr::Literal(v) => Expr::Literal(v.duplicate()),
            Expr::Ident(name) => Expr::Ident(name.clone()),
            Expr::Unary { op, expr } => Expr::Unary {
                op: *op,
                expr: Box::new((&**expr).duplicate()),
            },
            Expr::Binary { left, op, right } => Expr::Binary {
                left: Box::new((&**left).duplicate()),
                op: op.clone(),
                right: Box::new((&**right).duplicate()),
            },
            Expr::Call { name, args } => {
                assert(decreases_to!(*self => *args));
                Expr::Call { name: name.clone(), args: duplicate_exprs(args) }
            },
            Expr::Lambda { param, body } => Expr::Lambda {
                param: param.clone(),
                body: Box::new((&**body).duplicate()),
            },
            Expr::Member { target, member } => Expr::Member {
                target: Box::new((&**target).duplicate()),
                member: member.clone(),
            },
            Expr::Index { target, index } => Expr::Index {
                target: Box::new((&**target).duplicate()),
                index: Box::new((&**index).duplicate()),
            },
            Expr::StructLiteral(fields) => {
                assert(decreases_to!(*self => *fields));
                Expr::StructLiteral(duplicate_field_exprs(fields))
            },
            Expr::ListLiteral(items) => {
                assert(decreases_to!(*self => *items));
                Expr::ListLiteral(duplicate_exprs(items))
            },
            Expr::EnumVariant { name, payload } => Expr::EnumVariant {
                name: name.clone(),
                payload: match payload {
                    Some(p) => Some(Box::new((&**p).duplicate())),
                    None => None,
                },
            },
        }
    }
}

impl Clone for Expr {
    fn clone(&self) -> (r: Expr)
        ensures
            r@ == self@,
    {
        self.duplicate()
    }
}

} // verus!
