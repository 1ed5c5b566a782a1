//! The parser: tokens to a syntax tree, by binding powers.

use vstd::prelude::*;
use crate::ast::{
    exprs_view, field_exprs_view, lemma_exprs_view, lemma_field_exprs_view, Expr, ExprView,
    UnaryOp,
};
use crate::error::{EngineError, ErrorView, ParseError, ParseErrorView};
use crate::float::{float_from_int, float_magnitude, from_int, magnitude};
use crate::number::{
    float_literal, float_text, int_literal, is_least_magnitude, least_magnitude, parse_float,
    parse_int, render_float,
};
use crate::operators::{Assoc, OperatorRegistry};
use crate::text::{append_chars, chars_of, string_of, text_equal};
use crate::token::{
    byte_offset, char_is_alpha, is_alpha, lex, lex_from, scan_token, skip_space, tokens_view,
    Lexer, Token, TokenKind, TokenKindView, TokenView,
};
use crate::value::{Value, ValueView};

verus! {

/// An expression and the position of the token after it, or an error.
pub type Parsed = Result<(ExprView, int), ParseErrorView>;

/// A list of expressions and the position of the token after it, or an error.
pub type ParsedList = Result<(Seq<ExprView>, int), ParseErrorView>;

/// The fields of a struct literal and the position of the token after it, or
/// an error.
pub type ParsedFields = Result<(Seq<(Seq<char>, ExprView)>, int), ParseErrorView>;

/// Whether `t` ends with the end marker and holds it nowhere else.
pub open spec fn tokens_wf(t: Seq<TokenView>) -> bool {
    t.len() > 0 && forall|i: int| 0 <= i < t.len() ==> ((#[trigger] t[i]).kind is Eof <==> i == t.len() - 1)
}

/// The kind of the token at `p`; the end marker outside the tokens.
pub open spec fn kind_at(t: Seq<TokenView>, p: int) -> TokenKindView {
    if 0 <= p < t.len() {
        t[p].kind
    } else {
        TokenKindView::Eof
    }
}

/// The byte offset of the token at `p`; zero outside the tokens.
pub open spec fn pos_at(t: Seq<TokenView>, p: int) -> nat {
    if 0 <= p < t.len() {
        t[p].position
    } else {
        0
    }
}

/// The error `message` at the token at `p`.
pub open spec fn error_here(t: Seq<TokenView>, p: int, message: Seq<char>) -> ParseErrorView {
    ParseErrorView { message, position: pos_at(t, p) }
}

/// How a token kind is named in messages.
pub open spec fn kind_text(k: TokenKindView) -> Seq<char> {
    match k {
        TokenKindView::Ident(s) => "Ident(\""@ + s + "\")"@,
        TokenKindView::Number(s) => "Number(\""@ + s + "\")"@,
        TokenKindView::Str(s) => "String(\""@ + s + "\")"@,
        TokenKindView::True => "True"@,
        TokenKindView::False => "False"@,
        TokenKindView::Null => "Null"@,
        TokenKindView::LParen => "LParen"@,
        TokenKindView::RParen => "RParen"@,
        TokenKindView::LBracket => "LBracket"@,
        TokenKindView::RBracket => "RBracket"@,
        TokenKindView::LBrace => "LBrace"@,
        TokenKindView::RBrace => "RBrace"@,
        TokenKindView::Comma => "Comma"@,
        TokenKindView::Colon => "Colon"@,
        TokenKindView::Dot => "Dot"@,
        TokenKindView::Arrow => "Arrow"@,
        TokenKindView::Plus => "Plus"@,
        TokenKindView::Minus => "Minus"@,
        TokenKindView::Star => "Star"@,
        TokenKindView::Slash => "Slash"@,
        TokenKindView::Percent => "Percent"@,
        TokenKindView::Bang => "Bang"@,
        TokenKindView::AndAnd => "AndAnd"@,
        TokenKindView::OrOr => "OrOr"@,
        TokenKindView::EqEq => "EqEq"@,
        TokenKindView::NotEq => "NotEq"@,
        TokenKindView::Lt => "Lt"@,
        TokenKindView::Le => "Le"@,
        TokenKindView::Gt => "Gt"@,
        TokenKindView::Ge => "Ge"@,
        TokenKindView::Eof => "Eof"@,
    }
}

/// Whether `name` starts with an ASCII capital.
pub open spec fn is_capitalized(name: Seq<char>) -> bool {
    name.len() > 0 && 'A' <= name[0] <= 'Z'
}

/// Whether `name` consists of ASCII letters and underscores.
pub open spec fn is_word(name: Seq<char>) -> bool {
    forall|i: int| 0 <= i < name.len() ==> is_alpha(#[trigger] name[i]) || name[i] == '_'
}

/// The literal that the number token `s` writes: a Float where it holds a
/// point or an exponent mark, an Int otherwise.
pub open spec fn number_expr(s: Seq<char>, at: nat) -> Result<ExprView, ParseErrorView> {
    if s.contains('.') || s.contains('e') || s.contains('E') {
        match float_literal(s) {
            Some(bits) => Ok(ExprView::Literal(ValueView::Float(bits))),
            None => Err(ParseErrorView { message: "invalid number literal"@, position: at }),
        }
    } else {
        match int_literal(s) {
            Some(n) => Ok(ExprView::Literal(ValueView::Int(n))),
            None => Err(ParseErrorView { message: "integer literal out of range"@, position: at }),
        }
    }
}

/// The Float that the number text `c` writes: that of a literal with a
/// point, and for an Int literal the Float made of the Int.
pub open spec fn number_of(c: Seq<char>) -> Option<u64> {
    match number_expr(c, 0) {
        Ok(ExprView::Literal(ValueView::Float(b))) => Some(b),
        Ok(ExprView::Literal(ValueView::Int(n))) => Some(from_int(n)),
        _ => None,
    }
}

/// The infix operator that the token at `p` starts: its name, its left and
/// its right binding power. Symbols have fixed precedences and group to the
/// left; a word is an operator where the registry knows it as one.
pub open spec fn peek_infix(t: Seq<TokenView>, ops: OperatorRegistry, p: int) -> Option<
    (Seq<char>, int, int),
> {
    match kind_at(t, p) {
        TokenKindView::OrOr => Some(("||"@, 1, 2)),
        TokenKindView::AndAnd => Some(("&&"@, 2, 3)),
        TokenKindView::EqEq => Some(("=="@, 3, 4)),
        TokenKindView::NotEq => Some(("!="@, 3, 4)),
        TokenKindView::Lt => Some(("<"@, 4, 5)),
        TokenKindView::Le => Some(("<="@, 4, 5)),
        TokenKindView::Gt => Some((">"@, 4, 5)),
        TokenKindView::Ge => Some((">="@, 4, 5)),
        TokenKindView::Plus => Some(("+"@, 5, 6)),
        TokenKindView::Minus => Some(("-"@, 5, 6)),
        TokenKindView::Star => Some(("*"@, 6, 7)),
        TokenKindView::Slash => Some(("/"@, 6, 7)),
        TokenKindView::Percent => Some(("%"@, 6, 7)),
        TokenKindView::Ident(s) => if is_word(s) {
            match ops.binary_info(s) {
                Some((precedence, Assoc::Left)) => Some((s, precedence as int, precedence + 1)),
                Some((precedence, Assoc::Right)) => Some((s, precedence as int, precedence as int)),
                None => None,
            }
        } else {
            None
        },
        _ => None,
    }
}

/// The function that the method `name`, called with `args`, stands for:
/// `where` is `filter`, `select` is `map`, `sum` with one lambda is `sum_by`,
/// every other method the function of its own name.
pub open spec fn method_function(name: Seq<char>, args: Seq<ExprView>) -> Seq<char> {
    if name == "where"@ {
        "filter"@
    } else if name == "select"@ {
        "map"@
    } else if name == "sum"@ && args.len() == 2 && args[1] is Lambda {
        "sum_by"@
    } else {
        name
    }
}

/// The call that `target.name(rest..)` stands for, where `args` is `target`
/// followed by `rest`.
pub open spec fn method_call(name: Seq<char>, args: Seq<ExprView>) -> ExprView {
    ExprView::Call { name: method_function(name, args), args }
}

/// The error of a parse that did not move forward; no parse ends so.
pub open spec fn stuck() -> ParseErrorView {
    ParseErrorView { message: Seq::empty(), position: 0 }
}

/// The arguments of a call whose opening parenthesis is the token at `p`,
/// after the expressions `first`.
pub open spec fn parse_args(t: Seq<TokenView>, ops: OperatorRegistry, p: int, first: Seq<ExprView>) -> ParsedList
    decreases t.len() - p, 0nat,
{
    if p < 0 || p >= t.len() {
        Err(stuck())
    } else if kind_at(t, p + 1) is RParen {
        Ok((first, p + 2))
    } else {
        parse_items(t, ops, p + 1, first, TokenKindView::RParen, "expected ',' or ')' in call"@)
    }
}

/// Whether the token at `p` is the number two to the sixty-third, which a
/// minus sign before it makes the least Int.
pub open spec fn least_ahead(t: Seq<TokenView>, p: int) -> bool {
    match kind_at(t, p) {
        TokenKindView::Number(s) => least_magnitude(s),
        _ => false,
    }
}

/// A prefix form at the token at `p`: a literal, a name, a lambda, an enum
/// variant, a parenthesized expression, a list or struct literal, or a unary
/// operator with its operand. A minus sign before the number two to the
/// sixty-third is the literal of the least Int.
pub open spec fn parse_prefix(t: Seq<TokenView>, ops: OperatorRegistry, p: int) -> Parsed
    decreases t.len() - p, 1nat,
{
    if p < 0 || p >= t.len() {
        Err(stuck())
    } else {
        match t[p].kind {
            TokenKindView::True => Ok((ExprView::Literal(ValueView::Bool(true)), p + 1)),
            TokenKindView::False => Ok((ExprView::Literal(ValueView::Bool(false)), p + 1)),
            TokenKindView::Null => Ok((ExprView::Literal(ValueView::Null), p + 1)),
            TokenKindView::Number(s) => match number_expr(s, pos_at(t, p)) {
                Ok(e) => Ok((e, p + 1)),
                Err(e) => Err(e),
            },
            TokenKindView::Str(s) => Ok((ExprView::Literal(ValueView::Str(s)), p + 1)),
            TokenKindView::Ident(name) => if name == "not"@ {
                unary_of(UnaryOp::WordNot, parse_bp(t, ops, p + 1, 7))
            } else if kind_at(t, p + 1) is Arrow {
                match parse_bp(t, ops, p + 2, 0) {
                    Ok((body, q)) => Ok((ExprView::Lambda { param: name, body: Box::new(body) }, q)),
                    Err(e) => Err(e),
                }
            } else if is_capitalized(name) {
                if kind_at(t, p + 1) is LParen {
                    match parse_args(t, ops, p + 1, Seq::empty()) {
                        Ok((args, q)) => if args.len() != 1 {
                            Err(error_here(t, p, "enum variant expects 0 or 1 argument"@))
                        } else {
                            Ok((ExprView::EnumVariant { name, payload: Some(Box::new(args[0])) }, q))
                        },
                        Err(e) => Err(e),
                    }
                } else {
                    Ok((ExprView::EnumVariant { name, payload: None }, p + 1))
                }
            } else {
                Ok((ExprView::Ident(name), p + 1))
            },
            TokenKindView::LParen => match parse_bp(t, ops, p + 1, 0) {
                Ok((e, q)) => if kind_at(t, q) is RParen {
                    Ok((e, q + 1))
                } else {
                    Err(error_here(t, q, "expected ')'"@))
                },
                Err(e) => Err(e),
            },
            TokenKindView::LBracket => if kind_at(t, p + 1) is RBracket {
                Ok((ExprView::ListLiteral(Seq::empty()), p + 2))
            } else {
                match parse_items(
                    t,
                    ops,
                    p + 1,
                    Seq::empty(),
                    TokenKindView::RBracket,
                    "expected ',' or ']' in list"@,
                ) {
                    Ok((items, q)) => Ok((ExprView::ListLiteral(items), q)),
                    Err(e) => Err(e),
                }
            },
            TokenKindView::LBrace => if kind_at(t, p + 1) is RBrace {
                Ok((ExprView::StructLiteral(Seq::empty()), p + 2))
            } else {
                match parse_fields(t, ops, p + 1, Seq::empty()) {
                    Ok((fields, q)) => Ok((ExprView::StructLiteral(fields), q)),
                    Err(e) => Err(e),
                }
            },
            TokenKindView::Bang => unary_of(UnaryOp::Not, parse_bp(t, ops, p + 1, 7)),
            TokenKindView::Minus => if least_ahead(t, p + 1) {
                Ok((ExprView::Literal(ValueView::Int(i64::MIN)), p + 2))
            } else {
                unary_of(UnaryOp::Neg, parse_bp(t, ops, p + 1, 7))
            },
            TokenKindView::Plus => unary_of(UnaryOp::Pos, parse_bp(t, ops, p + 1, 7)),
            other => Err(error_here(t, p, "unexpected token: "@ + kind_text(other))),
        }
    }
}

/// The unary expression of `op` over a parsed operand.
pub open spec fn unary_of(op: UnaryOp, operand: Parsed) -> Parsed {
    match operand {
        Ok((e, q)) => Ok((ExprView::Unary { op, expr: Box::new(e) }, q)),
        Err(e) => Err(e),
    }
}

/// An expression at the token at `p` whose infix operators all bind at least
/// as tightly as `min_bp`.
pub open spec fn parse_bp(t: Seq<TokenView>, ops: OperatorRegistry, p: int, min_bp: int) -> Parsed
    decreases t.len() - p, 2nat,
{
    if p < 0 || p >= t.len() {
        Err(stuck())
    } else {
        match parse_prefix(t, ops, p) {
            Ok((lhs, q)) => if q <= p || q > t.len() {
                Err(stuck())
            } else {
                parse_rest(t, ops, lhs, q, min_bp)
            },
            Err(e) => Err(e),
        }
    }
}

/// What follows the expression `lhs` from the token at `p` on: member
/// accesses, method calls, indexings, a call where `lhs` is a name, and
/// infix operators that bind at least as tightly as `min_bp`.
pub open spec fn parse_rest(t: Seq<TokenView>, ops: OperatorRegistry, lhs: ExprView, p: int, min_bp: int) -> Parsed
    decreases t.len() - p, 3nat,
{
    if p < 0 || p >= t.len() {
        Ok((lhs, p))
    } else if kind_at(t, p) is Dot {
        match kind_at(t, p + 1) {
            TokenKindView::Ident(name) => if kind_at(t, p + 2) is LParen {
                match parse_args(t, ops, p + 2, seq![lhs]) {
                    Ok((args, q)) => if q <= p || q > t.len() {
                        Err(stuck())
                    } else {
                        parse_rest(t, ops, method_call(name, args), q, min_bp)
                    },
                    Err(e) => Err(e),
                }
            } else {
                parse_rest(
                    t,
                    ops,
                    ExprView::Member { target: Box::new(lhs), member: name },
                    p + 2,
                    min_bp,
                )
            },
            _ => Err(error_here(t, p + 1, "expected identifier after '.'"@)),
        }
    } else if kind_at(t, p) is LBracket {
        match parse_bp(t, ops, p + 1, 0) {
            Ok((index, q)) => if q <= p || q >= t.len() {
                Err(stuck())
            } else if kind_at(t, q) is RBracket {
                parse_rest(
                    t,
                    ops,
                    ExprView::Index { target: Box::new(lhs), index: Box::new(index) },
                    q + 1,
                    min_bp,
                )
            } else {
                Err(error_here(t, q, "expected ']'"@))
            },
            Err(e) => Err(e),
        }
    } else if kind_at(t, p) is LParen && lhs is Ident {
        match parse_args(t, ops, p, Seq::empty()) {
            Ok((args, q)) => if q <= p || q > t.len() {
                Err(stuck())
            } else {
                parse_rest(t, ops, ExprView::Call { name: lhs->Ident_0, args }, q, min_bp)
            },
            Err(e) => Err(e),
        }
    } else {
        match peek_infix(t, ops, p) {
            Some((op, lbp, rbp)) => if lbp >= min_bp {
                match parse_bp(t, ops, p + 1, rbp) {
                    Ok((rhs, q)) => if q <= p || q > t.len() {
                        Err(stuck())
                    } else {
                        parse_rest(
                            t,
                            ops,
                            ExprView::Binary { left: Box::new(lhs), op, right: Box::new(rhs) },
                            q,
                            min_bp,
                        )
                    },
                    Err(e) => Err(e),
                }
            } else {
                Ok((lhs, p))
            },
            None => Ok((lhs, p)),
        }
    }
}

/// Expressions separated by commas from the token at `p` on, closed by a
/// token of the kind `close`; after the expressions `acc`.
pub open spec fn parse_items(
    t: Seq<TokenView>,
    ops: OperatorRegistry,
    p: int,
    acc: Seq<ExprView>,
    close: TokenKindView,
    message: Seq<char>,
) -> ParsedList
    decreases t.len() - p, 4nat,
{
    if p < 0 || p >= t.len() {
        Err(stuck())
    } else {
        match parse_bp(t, ops, p, 0) {
            Ok((e, q)) => if q <= p || q >= t.len() {
                Err(stuck())
            } else if kind_at(t, q) is Comma {
                parse_items(t, ops, q + 1, acc.push(e), close, message)
            } else if kind_at(t, q) == close {
                Ok((acc.push(e), q + 1))
            } else {
                Err(error_here(t, q, message))
            },
            Err(e) => Err(e),
        }
    }
}

/// The fields of a struct literal from the token at `p` on, closed by a
/// brace; after the fields `acc`.
pub open spec fn parse_fields(
    t: Seq<TokenView>,
    ops: OperatorRegistry,
    p: int,
    acc: Seq<(Seq<char>, ExprView)>,
) -> ParsedFields
    decreases t.len() - p, 4nat,
{
    if p < 0 || p >= t.len() {
        Err(stuck())
    } else {
        match kind_at(t, p) {
            TokenKindView::Ident(key) => if !(kind_at(t, p + 1) is Colon) {
                Err(error_here(t, p + 1, "expected ':' after key"@))
            } else {
                match parse_bp(t, ops, p + 2, 0) {
                    Ok((value, q)) => if q <= p || q >= t.len() {
                        Err(stuck())
                    } else if kind_at(t, q) is Comma {
                        parse_fields(t, ops, q + 1, acc.push((key, value)))
                    } else if kind_at(t, q) is RBrace {
                        Ok((acc.push((key, value)), q + 1))
                    } else {
                        Err(error_here(t, q, "expected ',' or '}' in struct literal"@))
                    },
                    Err(e) => Err(e),
                }
            },
            _ => Err(error_here(t, p, "expected identifier key in struct literal"@)),
        }
    }
}

/// The expression that starts at the token at `p`.
pub open spec fn parse_at(t: Seq<TokenView>, ops: OperatorRegistry, p: int) -> Result<ExprView, ErrorView> {
    match parse_bp(t, ops, p, 0) {
        Ok((e, _)) => Ok(e),
        Err(e) => Err(ErrorView::Parse(e)),
    }
}

/// The expression that the tokens `t` start with.
pub open spec fn parse_tokens(t: Seq<TokenView>, ops: OperatorRegistry) -> Result<ExprView, ErrorView> {
    parse_at(t, ops, 0)
}

/// The expression that the text `s` starts with.
pub open spec fn parse_text(s: Seq<char>, ops: OperatorRegistry) -> Result<ExprView, ErrorView> {
    match lex(s) {
        Ok(t) => parse_tokens(t, ops),
        Err(e) => Err(ErrorView::Parse(e)),
    }
}

/// No scanned token is the end marker.
proof fn lemma_scan_not_eof(s: Seq<char>, j: int)
    requires
        0 <= j < s.len(),
    ensures
        scan_token(s, j) matches Ok(k) ==> !(k.kind is Eof),
{
}

/// The tokens of a text from any index on end with the end marker and hold
/// it nowhere else.
proof fn lemma_lex_from_wf(s: Seq<char>, i: int)
    requires
        0 <= i <= s.len(),
    ensures
        lex_from(s, i) matches Ok(t) ==> tokens_wf(t),
    decreases s.len() - i,
{
    let j = skip_space(s, i);
    if !(i < 0 || i >= s.len() || j < 0 || j >= s.len()) {
        lemma_scan_not_eof(s, j);
        match scan_token(s, j) {
            Err(_) => {},
            Ok(k) => {
                if !(k.next <= i || k.next > s.len()) {
                    lemma_lex_from_wf(s, k.next);
                    match lex_from(s, k.next) {
                        Ok(rest) => {
                            let one = seq![TokenView { kind: k.kind, position: byte_offset(s, j) }];
                            let all = one + rest;
                            assert forall|x: int| 0 <= x < all.len() implies ((#[trigger] all[x]).kind is Eof
                                <==> x == all.len() - 1) by {
                                if x > 0 {
                                    assert(all[x] == rest[x - 1]);
                                }
                            }
                        },
                        Err(_) => {},
                    }
                }
            },
        }
    }
}

/// The tokens of a text end with the end marker and hold it nowhere else.
pub proof fn lemma_lex_wf(s: Seq<char>)
    ensures
        lex(s) matches Ok(t) ==> tokens_wf(t),
{
    lemma_lex_from_wf(s, 0);
}

/// Reads expressions from tokens, consulting a registry for word operators.
pub struct Parser<'a> {
    tokens: Vec<Token>,
    pos: usize,
    ops: &'a OperatorRegistry,
}

/// What parsing an expression gave.
pub open spec fn expr_matches(r: Result<Expr, ParseError>, next: int, expected: Parsed) -> bool {
    match r {
        Ok(e) => expected == Ok::<(ExprView, int), ParseErrorView>((e@, next)),
        Err(e) => expected == Err::<(ExprView, int), ParseErrorView>(e@),
    }
}

/// What parsing a list of expressions gave.
pub open spec fn list_matches(r: Result<Vec<Expr>, ParseError>, next: int, expected: ParsedList) -> bool {
    match r {
        Ok(items) => expected == Ok::<(Seq<ExprView>, int), ParseErrorView>(
            (exprs_view(items@), next),
        ),
        Err(e) => expected == Err::<(Seq<ExprView>, int), ParseErrorView>(e@),
    }
}

/// What parsing the fields of a struct literal gave.
pub open spec fn fields_match(
    r: Result<Vec<(String, Expr)>, ParseError>,
    next: int,
    expected: ParsedFields,
) -> bool {
    match r {
        Ok(fields) => expected == Ok::<(Seq<(Seq<char>, ExprView)>, int), ParseErrorView>(
            (field_exprs_view(fields@), next),
        ),
        Err(e) => expected == Err::<(Seq<(Seq<char>, ExprView)>, int), ParseErrorView>(e@),
    }
}

/// What parsing a text gave.
pub open spec fn parse_matches(r: Result<Expr, EngineError>, expected: Result<ExprView, ErrorView>) -> bool {
    match r {
        Ok(e) => expected == Ok::<ExprView, ErrorView>(e@),
        Err(e) => expected == Err::<ExprView, ErrorView>(e@),
    }
}

/// Which token closes a list of expressions.
#[derive(Clone, Copy)]
enum Closer {
    Paren,
    Bracket,
}

impl View for Closer {
    type V = TokenKindView;

    closed spec fn view(&self) -> TokenKindView {
        match self {
            Closer::Paren => TokenKindView::RParen,
            Closer::Bracket => TokenKindView::RBracket,
        }
    }
}

fn name_is_capitalized(name: &Vec<char>) -> (r: bool)
    ensures
        r == is_capitalized(name@),
{
    name.len() > 0 && 'A' <= name[0] && name[0] <= 'Z'
}

fn name_is_word(name: &Vec<char>) -> (r: bool)
    ensures
        r == is_word(name@),
{
    let mut i: usize = 0;
    while i < name.len()
        invariant
            i <= name.len(),
            forall|k: int| 0 <= k < i ==> is_alpha(#[trigger] name@[k]) || name@[k] == '_',
        decreases name.len() - i,
    {
        if !(char_is_alpha(name[i]) || name[i] == '_') {
            return false;
        }
        i += 1;
    }
    true
}

fn holds(chars: &Vec<char>, c: char) -> (r: bool)
    ensures
        r == chars@.contains(c),
{
    let mut i: usize = 0;
    while i < chars.len()
        invariant
            i <= chars.len(),
            forall|k: int| 0 <= k < i ==> chars@[k] != c,
        decreases chars.len() - i,
    {
        if chars[i] == c {
            return true;
        }
        i += 1;
    }
    false
}

fn wrap(head: &str, body: &str, tail: &str) -> (r: Vec<char>)
    ensures
        r@ == head@ + body@ + tail@,
{
    let mut out = chars_of(head);
    let b = chars_of(body);
    let t = chars_of(tail);
    append_chars(&mut out, &b);
    append_chars(&mut out, &t);
    out
}

fn describe(kind: &TokenKind) -> (r: Vec<char>)
    ensures
        r@ == kind_text(kind@),
{
    match kind {
        TokenKind::Ident(s) => wrap("Ident(\"", s.as_str(), "\")"),
        TokenKind::Number(s) => wrap("Number(\"", s.as_str(), "\")"),
        TokenKind::String(s) => wrap("String(\"", s.as_str(), "\")"),
        TokenKind::True => chars_of("True"),
        TokenKind::False => chars_of("False"),
        TokenKind::Null => chars_of("Null"),
        TokenKind::LParen => chars_of("LParen"),
        TokenKind::RParen => chars_of("RParen"),
        TokenKind::LBracket => chars_of("LBracket"),
        TokenKind::RBracket => chars_of("RBracket"),
        TokenKind::LBrace => chars_of("LBrace"),
        TokenKind::RBrace => chars_of("RBrace"),
        TokenKind::Comma => chars_of("Comma"),
        TokenKind::Colon => chars_of("Colon"),
        TokenKind::Dot => chars_of("Dot"),
        TokenKind::Arrow => chars_of("Arrow"),
        TokenKind::Plus => chars_of("Plus"),
        TokenKind::Minus => chars_of("Minus"),
        TokenKind::Star => chars_of("Star"),
        TokenKind::Slash => chars_of("Slash"),
        TokenKind::Percent => chars_of("Percent"),
        TokenKind::Bang => chars_of("Bang"),
        TokenKind::AndAnd => chars_of("AndAnd"),
        TokenKind::OrOr => chars_of("OrOr"),
        TokenKind::EqEq => chars_of("EqEq"),
        TokenKind::NotEq => chars_of("NotEq"),
        TokenKind::Lt => chars_of("Lt"),
        TokenKind::Le => chars_of("Le"),
        TokenKind::Gt => chars_of("Gt"),
        TokenKind::Ge => chars_of("Ge"),
        TokenKind::Eof => chars_of("Eof"),
    }
}

fn number_literal(text: &str, at: usize) -> (r: Result<Expr, ParseError>)
    ensures
        match r {
            Ok(e) => number_expr(text@, at as nat) == Ok::<ExprView, ParseErrorView>(e@),
            Err(e) => number_expr(text@, at as nat) == Err::<ExprView, ParseErrorView>(e@),
        },
{
    let chars = chars_of(text);
    if holds(&chars, '.') || holds(&chars, 'e') || holds(&chars, 'E') {
        match parse_float(&chars) {
            Some(bits) => Ok(Expr::Literal(Value::Float(bits))),
            None => Err(ParseError::new("invalid number literal", at)),
        }
    } else {
        match parse_int(&chars) {
            Some(n) => Ok(Expr::Literal(Value::Int(n))),
            None => Err(ParseError::new("integer literal out of range", at)),
        }
    }
}

/// The Float that a number text writes.
pub fn number_value(text: &str) -> (r: Option<u64>)
    ensures
        r == number_of(text@),
{
    match number_literal(text, 0) {
        Ok(Expr::Literal(Value::Float(bits))) => Some(bits),
        Ok(Expr::Literal(Value::Int(n))) => Some(float_from_int(n)),
        _ => None,
    }
}

/// Whether what is written for the size of the Float `x` reads, as a
/// number, as that size.
pub fn reads_back(x: u64) -> (r: bool)
    ensures
        r == (number_of(float_text(magnitude(x))) == Some(magnitude(x))),
{
    let size = float_magnitude(x);
    let chars = render_float(size);
    let text = string_of(&chars);
    match number_value(text.as_str()) {
        Some(bits) => bits == size,
        None => false,
    }
}

/// The function that a method stands for.
fn method_name(name: String, args: &Vec<Expr>) -> (r: String)
    ensures
        r@ == method_function(name@, exprs_view(args@)),
{
    proof {
        lemma_exprs_view(args@);
    }
    if text_equal(name.as_str(), "where") {
        "filter".to_owned()
    } else if text_equal(name.as_str(), "select") {
        "map".to_owned()
    } else if text_equal(name.as_str(), "sum") && args.len() == 2 {
        match &args[1] {
            Expr::Lambda { .. } => "sum_by".to_owned(),
            _ => name,
        }
    } else {
        name
    }
}

impl<'a> Parser<'a> {
    /// The tokens being read.
    pub closed spec fn tokens(&self) -> Seq<TokenView> {
        tokens_view(self.tokens@)
    }

    /// The position of the next token.
    pub closed spec fn position(&self) -> int {
        self.pos as int
    }

    /// The registry consulted for word operators.
    pub closed spec fn registry(&self) -> OperatorRegistry {
        *self.ops
    }

    /// Whether the tokens end with the end marker, hold it nowhere else, and
    /// the next token is one of them.
    pub closed spec fn wf(&self) -> bool {
        tokens_wf(self.tokens()) && self.pos < self.tokens@.len()
    }

    /// A parser over the tokens of `input`, or the lexer's error.
    pub fn new(input: &str, ops: &'a OperatorRegistry) -> (r: Result<Parser<'a>, EngineError>)
        ensures
            match r {
                Ok(parser) => lex(input@) == Ok::<Seq<TokenView>, ParseErrorView>(parser.tokens())
                    && parser.position() == 0 && parser.registry() == *ops && parser.wf(),
                Err(e) => lex(input@) is Err && e@ == ErrorView::Parse(lex(input@)->Err_0),
            },
    {
        match Lexer::new(input).tokenize() {
            Ok(tokens) => {
                proof {
                    lemma_lex_wf(input@);
                }
                Ok(Parser { tokens, pos: 0, ops })
            },
            Err(e) => Err(EngineError::Parse(e)),
        }
    }

    fn peek(&self) -> (k: &TokenKind)
        requires
            self.wf(),
        ensures
            k@ == kind_at(self.tokens(), self.position()),
            (k@ is Eof) <==> self.pos == self.tokens@.len() - 1,
    {
        &self.tokens[self.pos].kind
    }

    fn here(&self) -> (at: usize)
        requires
            self.wf(),
        ensures
            at == pos_at(self.tokens(), self.position()),
    {
        self.tokens[self.pos].position
    }

    fn kind_ahead(&self, ahead: usize) -> (r: Option<&TokenKind>)
        requires
            self.wf(),
            ahead <= 2,
        ensures
            match r {
                Some(k) => k@ == kind_at(self.tokens(), self.position() + ahead) && self.pos + ahead
                    < self.tokens@.len(),
                None => kind_at(self.tokens(), self.position() + ahead) is Eof && self.pos + ahead
                    >= self.tokens@.len(),
            },
    {
        if ahead < self.tokens.len() - self.pos {
            Some(&self.tokens[self.pos + ahead].kind)
        } else {
            None
        }
    }

    fn position_ahead(&self, ahead: usize) -> (at: usize)
        requires
            self.wf(),
            ahead <= 2,
        ensures
            at == pos_at(self.tokens(), self.position() + ahead),
    {
        if ahead < self.tokens.len() - self.pos {
            self.tokens[self.pos + ahead].position
        } else {
            0
        }
    }

    fn skip(&mut self, count: usize)
        requires
            old(self).wf(),
            1 <= count <= 3,
            !(kind_at(old(self).tokens(), old(self).position() + count - 1) is Eof),
        ensures
            final(self).wf(),
            final(self).tokens() == old(self).tokens(),
            final(self).registry() == old(self).registry(),
            final(self).tokens@.len() == old(self).tokens@.len(),
            final(self).position() == old(self).position() + count,
    {
        let total = self.tokens.len();
        assert(self.pos + count - 1 < total);
        assert(self.tokens()[self.pos + count - 1].kind == kind_at(
            self.tokens(),
            self.position() + count - 1,
        ));
        self.pos = self.pos + count;
    }

    /// The infix operator that the next token starts.
    fn peek_infix_op(&self) -> (r: Option<(String, u16, u16)>)
        requires
            self.wf(),
        ensures
            match r {
                Some((op, lbp, rbp)) => peek_infix(self.tokens(), self.registry(), self.position())
                    == Some((op@, lbp as int, rbp as int)),
                None => peek_infix(self.tokens(), self.registry(), self.position()) is None,
            },
            r is Some ==> !(kind_at(self.tokens(), self.position()) is Eof),
    {
        match self.peek() {
            TokenKind::OrOr => Some(("||".to_owned(), 1, 2)),
            TokenKind::AndAnd => Some(("&&".to_owned(), 2, 3)),
            TokenKind::EqEq => Some(("==".to_owned(), 3, 4)),
            TokenKind::NotEq => Some(("!=".to_owned(), 3, 4)),
            TokenKind::Lt => Some(("<".to_owned(), 4, 5)),
            TokenKind::Le => Some(("<=".to_owned(), 4, 5)),
            TokenKind::Gt => Some((">".to_owned(), 4, 5)),
            TokenKind::Ge => Some((">=".to_owned(), 4, 5)),
            TokenKind::Plus => Some(("+".to_owned(), 5, 6)),
            TokenKind::Minus => Some(("-".to_owned(), 5, 6)),
            TokenKind::Star => Some(("*".to_owned(), 6, 7)),
            TokenKind::Slash => Some(("/".to_owned(), 6, 7)),
            TokenKind::Percent => Some(("%".to_owned(), 6, 7)),
            TokenKind::Ident(s) => {
                let chars = chars_of(s.as_str());
                if !name_is_word(&chars) {
                    return None;
                }
                match self.ops.get_binary(s.as_str()) {
                    Some(spec) => {
                        let precedence: u16 = spec.precedence as u16;
                        match spec.associativity {
                            Assoc::Left => Some((s.clone(), precedence, precedence + 1)),
                            Assoc::Right => Some((s.clone(), precedence, precedence)),
                        }
                    },
                    None => None,
                }
            },
            _ => None,
        }
    }

    /// The expression that starts at the next token. After it the parser
    /// stands at the token that follows the expression.
    pub fn parse_expression(&mut self) -> (r: Result<Expr, EngineError>)
        requires
            old(self).wf(),
        ensures
            final(self).tokens() == old(self).tokens(),
            final(self).registry() == old(self).registry(),
            parse_matches(
                r,
                parse_at(old(self).tokens(), old(self).registry(), old(self).position()),
            ),
            r is Ok ==> final(self).wf(),
            r is Ok ==> parse_bp(
                old(self).tokens(),
                old(self).registry(),
                old(self).position(),
                0,
            ) is Ok,
            r is Ok ==> final(self).position() == parse_bp(
                old(self).tokens(),
                old(self).registry(),
                old(self).position(),
                0,
            )->Ok_0.1,
    {
        match self.parse_bp(0) {
            Ok(e) => Ok(e),
            Err(e) => Err(EngineError::Parse(e)),
        }
    }

    fn parse_args(&mut self, first: Vec<Expr>) -> (r: Result<Vec<Expr>, ParseError>)
        requires
            old(self).wf(),
            kind_at(old(self).tokens(), old(self).position()) is LParen,
        ensures
            final(self).tokens() == old(self).tokens(),
            final(self).registry() == old(self).registry(),
            final(self).tokens@.len() == old(self).tokens@.len(),
            list_matches(
                r,
                final(self).position(),
                parse_args(
                    old(self).tokens(),
                    old(self).registry(),
                    old(self).position(),
                    exprs_view(first@),
                ),
            ),
            r is Ok ==> final(self).wf() && final(self).position() > old(self).position(),
        decreases old(self).tokens@.len() - old(self).pos, 0nat,
    {
        let closed = match self.kind_ahead(1) {
            Some(TokenKind::RParen) => true,
            _ => false,
        };
        if closed {
            self.skip(2);
            Ok(first)
        } else {
            self.skip(1);
            self.parse_items(first, Closer::Paren, "expected ',' or ')' in call")
        }
    }

    fn parse_unary(&mut self, op: UnaryOp) -> (r: Result<Expr, ParseError>)
        requires
            old(self).wf(),
            !(kind_at(old(self).tokens(), old(self).position()) is Eof),
        ensures
            final(self).tokens() == old(self).tokens(),
            final(self).registry() == old(self).registry(),
            final(self).tokens@.len() == old(self).tokens@.len(),
            expr_matches(
                r,
                final(self).position(),
                unary_of(
                    op,
                    parse_bp(old(self).tokens(), old(self).registry(), old(self).position() + 1, 7),
                ),
            ),
            r is Ok ==> final(self).wf() && final(self).position() > old(self).position(),
        decreases old(self).tokens@.len() - old(self).pos, 0nat,
    {
        self.skip(1);
        match self.parse_bp(7) {
            Ok(e) => Ok(Expr::Unary { op, expr: Box::new(e) }),
            Err(e) => Err(e),
        }
    }

    /// Whether the token after the next one is the number two to the
    /// sixty-third.
    fn least_follows(&self) -> (r: bool)
        requires
            self.wf(),
        ensures
            r == least_ahead(self.tokens(), self.position() + 1),
    {
        match self.kind_ahead(1) {
            Some(TokenKind::Number(text)) => {
                let chars = chars_of(text.as_str());
                is_least_magnitude(&chars)
            },
            _ => false,
        }
    }

    #[verifier::rlimit(50)]
    fn parse_prefix(&mut self) -> (r: Result<Expr, ParseError>)
        requires
            old(self).wf(),
        ensures
            final(self).tokens() == old(self).tokens(),
            final(self).registry() == old(self).registry(),
            final(self).tokens@.len() == old(self).tokens@.len(),
            expr_matches(
                r,
                final(self).position(),
                parse_prefix(old(self).tokens(), old(self).registry(), old(self).position()),
            ),
            r is Ok ==> final(self).wf() && final(self).position() > old(self).position(),
        decreases old(self).tokens@.len() - old(self).pos, 1nat,
    {
        let at = self.here();
        let kind = clone_kind(self.peek());
        match kind {
            TokenKind::True => {
                self.skip(1);
                Ok(Expr::Literal(Value::Bool(true)))
            },
            TokenKind::False => {
                self.skip(1);
                Ok(Expr::Literal(Value::Bool(false)))
            },
            TokenKind::Null => {
                self.skip(1);
                Ok(Expr::Literal(Value::Null))
            },
            TokenKind::Number(s) => match number_literal(s.as_str(), at) {
                Ok(e) => {
                    self.skip(1);
                    Ok(e)
                },
                Err(e) => Err(e),
            },
            TokenKind::String(s) => {
                self.skip(1);
                Ok(Expr::Literal(Value::String(s)))
            },
            TokenKind::Ident(name) => {
                if text_equal(name.as_str(), "not") {
                    return self.parse_unary(UnaryOp::WordNot);
                }
                let arrow = match self.kind_ahead(1) {
                    Some(TokenKind::Arrow) => true,
                    _ => false,
                };
                if arrow {
                    self.skip(2);
                    return match self.parse_bp(0) {
                        Ok(body) => Ok(Expr::Lambda { param: name, body: Box::new(body) }),
                        Err(e) => Err(e),
                    };
                }
                let chars = chars_of(name.as_str());
                if name_is_capitalized(&chars) {
                    let call = match self.kind_ahead(1) {
                        Some(TokenKind::LParen) => true,
                        _ => false,
                    };
                    if call {
                        self.skip(1);
                        let first: Vec<Expr> = Vec::new();
                        proof {
                            assert(exprs_view(first@) =~= Seq::<ExprView>::empty());
                        }
                        match self.parse_args(first) {
                            Ok(args) => {
                                proof {
                                    lemma_exprs_view(args@);
                                }
                                if args.len() != 1 {
                                    Err(ParseError::new("enum variant expects 0 or 1 argument", at))
                                } else {
                                    let mut args = args;
                                    let only = args.remove(0);
                                    Ok(Expr::EnumVariant { name, payload: Some(Box::new(only)) })
                                }
                            },
                            Err(e) => Err(e),
                        }
                    } else {
                        self.skip(1);
                        Ok(Expr::EnumVariant { name, payload: None })
                    }
                } else {
                    self.skip(1);
                    Ok(Expr::Ident(name))
                }
            },
            TokenKind::LParen => {
                self.skip(1);
                match self.parse_bp(0) {
                    Ok(e) => {
                        let closed = match self.peek() {
                            TokenKind::RParen => true,
                            _ => false,
                        };
                        if closed {
                            self.skip(1);
                            Ok(e)
                        } else {
                            Err(ParseError::new("expected ')'", self.here()))
                        }
                    },
                    Err(e) => Err(e),
                }
            },
            TokenKind::LBracket => {
                let closed = match self.kind_ahead(1) {
                    Some(TokenKind::RBracket) => true,
                    _ => false,
                };
                if closed {
                    self.skip(2);
                    let items: Vec<Expr> = Vec::new();
                    proof {
                        assert(exprs_view(items@) =~= Seq::<ExprView>::empty());
                    }
                    Ok(Expr::ListLiteral(items))
                } else {
                    self.skip(1);
                    let first: Vec<Expr> = Vec::new();
                    proof {
                        assert(exprs_view(first@) =~= Seq::<ExprView>::empty());
                    }
                    match self.parse_items(first, Closer::Bracket, "expected ',' or ']' in list") {
                        Ok(items) => Ok(Expr::ListLiteral(items)),
                        Err(e) => Err(e),
                    }
                }
            },
            TokenKind::LBrace => {
                let closed = match self.kind_ahead(1) {
                    Some(TokenKind::RBrace) => true,
                    _ => false,
                };
                if closed {
                    self.skip(2);
                    let fields: Vec<(String, Expr)> = Vec::new();
                    proof {
                        assert(field_exprs_view(fields@) =~= Seq::<(Seq<char>, ExprView)>::empty());
                    }
                    Ok(Expr::StructLiteral(fields))
                } else {
                    self.skip(1);
                    match self.parse_fields() {
                        Ok(fields) => Ok(Expr::StructLiteral(fields)),
                        Err(e) => Err(e),
                    }
                }
            },
            TokenKind::Bang => self.parse_unary(UnaryOp::Not),
            TokenKind::Minus => {
                if self.least_follows() {
                    self.skip(2);
                    Ok(Expr::Literal(Value::Int(i64::MIN)))
                } else {
                    self.parse_unary(UnaryOp::Neg)
                }
            },
            TokenKind::Plus => self.parse_unary(UnaryOp::Pos),
            other => {
                let mut message = chars_of("unexpected token: ");
                let name = describe(&other);
                append_chars(&mut message, &name);
                let e = ParseError { message: string_of(&message), position: at };
                assert(e@ == error_here(
                    self.tokens(),
                    self.position(),
                    "unexpected token: "@ + kind_text(other@),
                ));
                assert(parse_prefix(self.tokens(), self.registry(), self.position()) == Err::<
                    (ExprView, int),
                    ParseErrorView,
                >(e@));
                Err(e)
            },
        }
    }

    #[verifier::rlimit(50)]
    fn parse_bp(&mut self, min_bp: u16) -> (r: Result<Expr, ParseError>)
        requires
            old(self).wf(),
        ensures
            final(self).tokens() == old(self).tokens(),
            final(self).registry() == old(self).registry(),
            final(self).tokens@.len() == old(self).tokens@.len(),
            expr_matches(
                r,
                final(self).position(),
                parse_bp(old(self).tokens(), old(self).registry(), old(self).position(), min_bp as int),
            ),
            r is Ok ==> final(self).wf() && final(self).position() > old(self).position(),
        decreases old(self).tokens@.len() - old(self).pos, 2nat,
    {
        let ghost t = self.tokens();
        let ghost ops = self.registry();
        let ghost start = self.position();
        let ghost goal = parse_bp(t, ops, start, min_bp as int);
        let mut lhs = match self.parse_prefix() {
            Ok(e) => e,
            Err(e) => {
                return Err(e);
            },
        };
        loop
            invariant
                self.wf(),
                self.tokens() == t,
                self.registry() == ops,
                t == old(self).tokens(),
                ops == old(self).registry(),
                self.tokens@.len() == old(self).tokens@.len(),
                self.position() > start,
                start == old(self).position(),
                goal == parse_bp(old(self).tokens(), old(self).registry(), old(self).position(), min_bp as int),
                goal == parse_rest(t, ops, lhs@, self.position(), min_bp as int),
            decreases self.tokens@.len() - self.pos,
        {
            let ghost before = lhs@;
            let kind = clone_kind(self.peek());
            match kind {
                TokenKind::Dot => {
                    let name = match self.kind_ahead(1) {
                        Some(TokenKind::Ident(name)) => name.clone(),
                        _ => {
                            return Err(
                                ParseError::new(
                                    "expected identifier after '.'",
                                    self.position_ahead(1),
                                ),
                            );
                        },
                    };
                    let call = match self.kind_ahead(2) {
                        Some(TokenKind::LParen) => true,
                        _ => false,
                    };
                    if call {
                        self.skip(2);
                        let mut first: Vec<Expr> = Vec::new();
                        first.push(lhs);
                        proof {
                            lemma_exprs_view(first@);
                            assert(exprs_view(first@) =~= seq![before]);
                        }
                        match self.parse_args(first) {
                            Ok(args) => {
                                let function = method_name(name, &args);
                                lhs = Expr::Call { name: function, args };
                            },
                            Err(e) => {
                                return Err(e);
                            },
                        }
                    } else {
                        self.skip(2);
                        lhs = Expr::Member { target: Box::new(lhs), member: name };
                    }
                },
                TokenKind::LBracket => {
                    self.skip(1);
                    match self.parse_bp(0) {
                        Ok(index) => {
                            let closed = match self.peek() {
                                TokenKind::RBracket => true,
                                _ => false,
                            };
                            if closed {
                                self.skip(1);
                                lhs = Expr::Index { target: Box::new(lhs), index: Box::new(index) };
                            } else {
                                return Err(ParseError::new("expected ']'", self.here()));
                            }
                        },
                        Err(e) => {
                            return Err(e);
                        },
                    }
                },
                other => {
                    let callee = match (&other, &lhs) {
                        (TokenKind::LParen, Expr::Ident(_)) => true,
                        _ => false,
                    };
                    if callee {
                        let name = match lhs {
                            Expr::Ident(name) => name,
                            _ => String::new(),
                        };
                        let first: Vec<Expr> = Vec::new();
                        proof {
                            assert(exprs_view(first@) =~= Seq::<ExprView>::empty());
                        }
                        match self.parse_args(first) {
                            Ok(args) => {
                                lhs = Expr::Call { name, args };
                            },
                            Err(e) => {
                                return Err(e);
                            },
                        }
                    } else {
                        match self.peek_infix_op() {
                            Some((op, lbp, rbp)) => {
                                if lbp >= min_bp {
                                    self.skip(1);
                                    match self.parse_bp(rbp) {
                                        Ok(rhs) => {
                                            lhs = Expr::Binary {
                                                left: Box::new(lhs),
                                                op,
                                                right: Box::new(rhs),
                                            };
                                        },
                                        Err(e) => {
                                            return Err(e);
                                        },
                                    }
                                } else {
                                    return Ok(lhs);
                                }
                            },
                            None => {
                                return Ok(lhs);
                            },
                        }
                    }
                },
            }
        }
    }

    fn parse_items(&mut self, first: Vec<Expr>, close: Closer, message: &str) -> (r: Result<
        Vec<Expr>,
        ParseError,
    >)
        requires
            old(self).wf(),
        ensures
            final(self).tokens() == old(self).tokens(),
            final(self).registry() == old(self).registry(),
            final(self).tokens@.len() == old(self).tokens@.len(),
            list_matches(
                r,
                final(self).position(),
                parse_items(
                    old(self).tokens(),
                    old(self).registry(),
                    old(self).position(),
                    exprs_view(first@),
                    close@,
                    message@,
                ),
            ),
            r is Ok ==> final(self).wf() && final(self).position() > old(self).position(),
        decreases old(self).tokens@.len() - old(self).pos, 4nat,
    {
        let ghost t = self.tokens();
        let ghost ops = self.registry();
        let ghost start = self.position();
        let ghost goal = parse_items(t, ops, start, exprs_view(first@), close@, message@);
        let mut acc = first;
        loop
            invariant
                self.wf(),
                self.tokens() == t,
                self.registry() == ops,
                t == old(self).tokens(),
                ops == old(self).registry(),
                self.tokens@.len() == old(self).tokens@.len(),
                self.position() >= start,
                start == old(self).position(),
                goal == parse_items(
                    old(self).tokens(),
                    old(self).registry(),
                    old(self).position(),
                    exprs_view(first@),
                    close@,
                    message@,
                ),
                goal == parse_items(t, ops, self.position(), exprs_view(acc@), close@, message@),
            decreases self.tokens@.len() - self.pos,
        {
            let ghost so_far = exprs_view(acc@);
            match self.parse_bp(0) {
                Ok(e) => {
                    let comma = match self.peek() {
                        TokenKind::Comma => true,
                        _ => false,
                    };
                    let closes = match (self.peek(), close) {
                        (TokenKind::RParen, Closer::Paren) => true,
                        (TokenKind::RBracket, Closer::Bracket) => true,
                        _ => false,
                    };
                    let ghost item = e@;
                    if comma {
                        acc.push(e);
                        proof {
                            lemma_exprs_view(acc@);
                            assert(exprs_view(acc@) =~= so_far.push(item));
                        }
                        self.skip(1);
                    } else if closes {
                        acc.push(e);
                        proof {
                            lemma_exprs_view(acc@);
                            assert(exprs_view(acc@) =~= so_far.push(item));
                        }
                        self.skip(1);
                        return Ok(acc);
                    } else {
                        return Err(ParseError::new(message, self.here()));
                    }
                },
                Err(e) => {
                    return Err(e);
                },
            }
        }
    }

    fn parse_fields(&mut self) -> (r: Result<Vec<(String, Expr)>, ParseError>)
        requires
            old(self).wf(),
        ensures
            final(self).tokens() == old(self).tokens(),
            final(self).registry() == old(self).registry(),
            final(self).tokens@.len() == old(self).tokens@.len(),
            fields_match(
                r,
                final(self).position(),
                parse_fields(
                    old(self).tokens(),
                    old(self).registry(),
                    old(self).position(),
                    Seq::empty(),
                ),
            ),
            r is Ok ==> final(self).wf() && final(self).position() > old(self).position(),
        decreases old(self).tokens@.len() - old(self).pos, 4nat,
    {
        let ghost t = self.tokens();
        let ghost ops = self.registry();
        let ghost start = self.position();
        let ghost goal = parse_fields(t, ops, start, Seq::empty());
        let mut acc: Vec<(String, Expr)> = Vec::new();
        proof {
            assert(field_exprs_view(acc@) =~= Seq::<(Seq<char>, ExprView)>::empty());
        }
        loop
            invariant
                self.wf(),
                self.tokens() == t,
                self.registry() == ops,
                t == old(self).tokens(),
                ops == old(self).registry(),
                self.tokens@.len() == old(self).tokens@.len(),
                self.position() >= start,
                start == old(self).position(),
                goal == parse_fields(
                    old(self).tokens(),
                    old(self).registry(),
                    old(self).position(),
                    Seq::empty(),
                ),
                goal == parse_fields(t, ops, self.position(), field_exprs_view(acc@)),
            decreases self.tokens@.len() - self.pos,
        {
            let ghost so_far = field_exprs_view(acc@);
            let key = match self.peek() {
                TokenKind::Ident(s) => s.clone(),
                _ => {
                    return Err(
                        ParseError::new("expected identifier key in struct literal", self.here()),
                    );
                },
            };
            let colon = match self.kind_ahead(1) {
                Some(TokenKind::Colon) => true,
                _ => false,
            };
            if !colon {
                return Err(ParseError::new("expected ':' after key", self.position_ahead(1)));
            }
            self.skip(2);
            match self.parse_bp(0) {
                Ok(value) => {
                    let comma = match self.peek() {
                        TokenKind::Comma => true,
                        _ => false,
                    };
                    let closes = match self.peek() {
                        TokenKind::RBrace => true,
                        _ => false,
                    };
                    let ghost item = (key@, value@);
                    if comma {
                        acc.push((key, value));
                        proof {
                            lemma_field_exprs_view(acc@);
                            assert(field_exprs_view(acc@) =~= so_far.push(item));
                        }
                        self.skip(1);
                    } else if closes {
                        acc.push((key, value));
                        proof {
                            lemma_field_exprs_view(acc@);
                            assert(field_exprs_view(acc@) =~= so_far.push(item));
                        }
                        self.skip(1);
                        return Ok(acc);
                    } else {
                        return Err(
                            ParseError::new("expected ',' or '}' in struct literal", self.here()),
                        );
                    }
                },
                Err(e) => {
                    return Err(e);
                },
            }
        }
    }
}

fn clone_kind(kind: &TokenKind) -> (r: TokenKind)
    ensures
        r@ == kind@,
{
    match kind {
        TokenKind::Ident(s) => TokenKind::Ident(s.clone()),
        TokenKind::Number(s) => TokenKind::Number(s.clone()),
        TokenKind::String(s) => TokenKind::String(s.clone()),
        TokenKind::True => TokenKind::True,
        TokenKind::False => TokenKind::False,
        TokenKind::Null => TokenKind::Null,
        TokenKind::LParen => TokenKind::LParen,
        TokenKind::RParen => TokenKind::RParen,
        TokenKind::LBracket => TokenKind::LBracket,
        TokenKind::RBracket => TokenKind::RBracket,
        TokenKind::LBrace => TokenKind::LBrace,
        TokenKind::RBrace => TokenKind::RBrace,
        TokenKind::Comma => TokenKind::Comma,
        TokenKind::Colon => TokenKind::Colon,
        TokenKind::Dot => TokenKind::Dot,
        TokenKind::Arrow => TokenKind::Arrow,
        TokenKind::Plus => TokenKind::Plus,
        TokenKind::Minus => TokenKind::Minus,
        TokenKind::Star => TokenKind::Star,
        TokenKind::Slash => TokenKind::Slash,
        TokenKind::Percent => TokenKind::Percent,
        TokenKind::Bang => TokenKind::Bang,
        TokenKind::AndAnd => TokenKind::AndAnd,
        TokenKind::OrOr => TokenKind::OrOr,
        TokenKind::EqEq => TokenKind::EqEq,
        TokenKind::NotEq => TokenKind::NotEq,
        TokenKind::Lt => TokenKind::Lt,
        TokenKind::Le => TokenKind::Le,
        TokenKind::Gt => TokenKind::Gt,
        TokenKind::Ge => TokenKind::Ge,
        TokenKind::Eof => TokenKind::Eof,
    }
}

} // verus!
