//! What holds of the library as a whole, stated over the contracts of its
//! functions and proved.

use vstd::prelude::*;
use crate::ast::{Expr, ExprView};
use crate::engine::eval_text;
use crate::error::{EngineError, ErrorView, ParseErrorView};
use crate::eval::{
    combinator_of, eval_each, eval_expr, short_circuit, Bindings, Combinator, Gathered,
};
use crate::functions::FunctionRegistry;
use crate::operators::{outcome, OperatorRegistry};
use crate::parser::{
    kind_at, method_call, number_expr, number_of, parse_bp, parse_matches, parse_prefix, parse_rest,
    parse_text, parse_tokens, peek_infix,
};
use crate::defaults::has_default_unary;
use crate::float::{
    equal, from_int, is_infinite, is_nan, is_negative, is_zero, magnitude, negate, scale,
    significand,
};
use crate::number::{
    all_digits, decimal_value, digit_value, float_text, int_literal, plain_number, whole_of,
};
use crate::text::{decimal_text, digit_char};
use crate::token::{
    byte_offset, is_alpha, is_digit, is_space, lex, lex_from, number_end, scan_digits, scan_ident,
    scan_string, scan_token, skip_space, unescape, utf8_width, word_kind, Scanned, StringScan,
    TokenKindView,
    TokenView,
};
use crate::rules::{
    find_chain, rule_run, rule_step, ActionView, ChainView, OutcomeView, Progress, RunState,
};
use crate::value::{escaped, render, with_field, Value, ValueView};

verus! {

/// Parsing is a function of the text and the operators: whatever two calls
/// of the parser give for the same text, they give the same tree or the
/// same error.
pub proof fn law_parse_deterministic(
    first: Result<Expr, EngineError>,
    second: Result<Expr, EngineError>,
    text: Seq<char>,
    ops: OperatorRegistry,
)
    requires
        parse_matches(first, parse_text(text, ops)),
        parse_matches(second, parse_text(text, ops)),
    ensures
        first is Ok <==> second is Ok,
        first matches Ok(a) ==> second matches Ok(b) && a@ == b@,
        first matches Err(a) ==> second matches Err(b) && a@ == b@,
{
}

/// Evaluation is a function of the tree, the scope and the registries:
/// whatever two calls of the evaluator give for the same tree in the same
/// scope, they give the same value or the same error.
pub proof fn law_eval_deterministic(
    first: Result<Value, EngineError>,
    second: Result<Value, EngineError>,
    expr: ExprView,
    scope: Bindings,
    funcs: FunctionRegistry,
    ops: OperatorRegistry,
)
    requires
        outcome(first) == eval_expr(expr, scope, funcs, ops),
        outcome(second) == eval_expr(expr, scope, funcs, ops),
    ensures
        first is Ok <==> second is Ok,
        first matches Ok(a) ==> second matches Ok(b) && a@ == b@,
        first matches Err(a) ==> second matches Err(b) && a@ == b@,
{
}

/// `&&` and `and` with a false left operand give `false`, and `||` and `or`
/// with a true left operand give `true`, whatever the right operand is: it
/// is not evaluated, so its errors do not show.
pub proof fn law_short_circuit(
    left: ExprView,
    right: ExprView,
    scope: Bindings,
    funcs: FunctionRegistry,
    ops: OperatorRegistry,
)
    ensures
        eval_expr(left, scope, funcs, ops) == Ok::<ValueView, ErrorView>(ValueView::Bool(false))
            ==> eval_expr(
            ExprView::Binary { left: Box::new(left), op: "&&"@, right: Box::new(right) },
            scope,
            funcs,
            ops,
        ) == Ok::<ValueView, ErrorView>(ValueView::Bool(false)) && eval_expr(
            ExprView::Binary { left: Box::new(left), op: "and"@, right: Box::new(right) },
            scope,
            funcs,
            ops,
        ) == Ok::<ValueView, ErrorView>(ValueView::Bool(false)),
        eval_expr(left, scope, funcs, ops) == Ok::<ValueView, ErrorView>(ValueView::Bool(true))
            ==> eval_expr(
            ExprView::Binary { left: Box::new(left), op: "||"@, right: Box::new(right) },
            scope,
            funcs,
            ops,
        ) == Ok::<ValueView, ErrorView>(ValueView::Bool(true)) && eval_expr(
            ExprView::Binary { left: Box::new(left), op: "or"@, right: Box::new(right) },
            scope,
            funcs,
            ops,
        ) == Ok::<ValueView, ErrorView>(ValueView::Bool(true)),
{
    reveal_strlit("&&");
    reveal_strlit("and");
    reveal_strlit("||");
    reveal_strlit("or");
    assert("&&"@[0] == '&' && "and"@[0] == 'a' && "||"@[0] == '|' && "or"@[0] == 'o');
    assert(short_circuit("&&"@, ValueView::Bool(false)) == Some(ValueView::Bool(false)));
    assert(short_circuit("and"@, ValueView::Bool(false)) == Some(ValueView::Bool(false)));
    assert(short_circuit("||"@, ValueView::Bool(true)) == Some(ValueView::Bool(true)));
    assert(short_circuit("or"@, ValueView::Bool(true)) == Some(ValueView::Bool(true)));
}

/// The method form is the call form: `l.where(p)` is `filter(l, p)` and
/// `x.select(f)` is `map(x, f)`, so `l.where(p).select(f)` is the same tree
/// as `map(filter(l, p), f)` and has the same value.
pub proof fn law_method_sugar(l: ExprView, p: ExprView, f: ExprView)
    ensures
        method_call("where"@, seq![l, p]) == (ExprView::Call { name: "filter"@, args: seq![l, p] }),
        method_call("select"@, seq![method_call("where"@, seq![l, p]), f]) == (ExprView::Call {
            name: "map"@,
            args: seq![ExprView::Call { name: "filter"@, args: seq![l, p] }, f],
        }),
{
    reveal_strlit("where");
    reveal_strlit("select");
    assert("where"@[0] == 'w' && "select"@[0] == 's');
}

/// Every step of a run that does not end it appends exactly one record, and
/// leaves the earlier records alone; an emission appends one record, whose
/// outcome holds the emitted value, and ends the run; a run that ends
/// without an emission appends nothing.
pub proof fn law_audit_complete(
    chains: Seq<ChainView>,
    funcs: FunctionRegistry,
    ops: OperatorRegistry,
    st: RunState,
)
    ensures
        match rule_step(chains, funcs, ops, st) {
            Progress::Next(next) => next.audit.len() == st.audit.len() + 1 && next.audit.drop_last()
                == st.audit,
            Progress::Done(Some(value), audit) => audit.len() == st.audit.len() + 1
                && audit.drop_last() == st.audit && audit.last().outcome == OutcomeView::Emit(value)
                && audit.last().result == value,
            Progress::Done(None, audit) => audit == st.audit,
            Progress::Failed(_) => true,
        },
{
    match rule_step(chains, funcs, ops, st) {
        Progress::Next(next) => {
            assert(next.audit.drop_last() =~= st.audit);
        },
        Progress::Done(Some(value), audit) => {
            assert(audit.drop_last() =~= st.audit);
        },
        _ => {},
    }
}

/// The records of a finished run start with the records that were there
/// before, and a run that emitted a value ends with the record of that
/// emission.
pub proof fn law_run_audit(
    chains: Seq<ChainView>,
    funcs: FunctionRegistry,
    ops: OperatorRegistry,
    st: RunState,
    fuel: nat,
)
    ensures
        rule_run(chains, funcs, ops, st, fuel) matches Ok((value, audit)) ==> st.audit.len()
            <= audit.len() && audit.subrange(0, st.audit.len() as int) == st.audit && (value matches Some(
            v,
        ) ==> audit.len() > st.audit.len() && audit.last().outcome == OutcomeView::Emit(v)),
    decreases fuel,
{
    law_audit_complete(chains, funcs, ops, st);
    match rule_step(chains, funcs, ops, st) {
        Progress::Next(next) => {
            if fuel > 0 {
                law_run_audit(chains, funcs, ops, next, (fuel - 1) as nat);
                match rule_run(chains, funcs, ops, next, (fuel - 1) as nat) {
                    Ok((value, audit)) => {
                        assert(audit.subrange(0, st.audit.len() as int) =~= audit.subrange(
                            0,
                            next.audit.len() as int,
                        ).drop_last());
                    },
                    Err(_) => {},
                }
            }
        },
        Progress::Done(value, audit) => {
            assert(audit.subrange(0, st.audit.len() as int) =~= st.audit);
        },
        Progress::Failed(_) => {},
    }
}

/// A condition that evaluates to `false` and names a chain for that case
/// sends the run to the first step of that chain: the record that comes
/// next, if any, is of that step.
pub proof fn law_branch_on_false(
    chains: Seq<ChainView>,
    funcs: FunctionRegistry,
    ops: OperatorRegistry,
    st: RunState,
    k: int,
    expr: Seq<char>,
    target: Seq<char>,
)
    requires
        find_chain(chains, st.chain, 0) == Some(k),
        0 <= k < chains.len(),
        st.pc < chains[k].steps.len(),
        chains[k].steps[st.pc as int].action == (ActionView::When { expr, on_false: Some(target) }),
        eval_text(expr, st.ctx, funcs, ops) == Ok::<ValueView, ErrorView>(ValueView::Bool(false)),
    ensures
        rule_step(chains, funcs, ops, st) is Next,
        rule_step(chains, funcs, ops, st)->Next_0.chain == target,
        rule_step(chains, funcs, ops, st)->Next_0.pc == 0,
        rule_step(chains, funcs, ops, st)->Next_0.ctx == st.ctx,
        rule_step(chains, funcs, ops, st)->Next_0.audit.last().outcome == OutcomeView::Branch(
            target,
        ),
        match rule_step(chains, funcs, ops, rule_step(chains, funcs, ops, st)->Next_0) {
            Progress::Next(after) => find_chain(chains, target, 0) is Some
                && after.audit.last().step_name == chains[find_chain(
                chains,
                target,
                0,
            )->0].steps[0].name,
            Progress::Done(Some(_), audit) => find_chain(chains, target, 0) is Some
                && audit.last().step_name == chains[find_chain(chains, target, 0)->0].steps[0].name,
            _ => true,
        },
{
}

/// A lambda: its parameter and its body.
pub ghost struct LambdaView {
    pub param: Seq<char>,
    pub body: ExprView,
}

impl LambdaView {
    /// The lambda as an expression.
    pub open spec fn expr(self) -> ExprView {
        ExprView::Lambda { param: self.param, body: Box::new(self.body) }
    }

    /// What the lambda gives for `item`: the value of its body with its
    /// parameter bound to `item` in a copy of `scope`.
    pub open spec fn apply(self, item: ValueView, scope: Bindings, funcs: FunctionRegistry, ops: OperatorRegistry) -> Result<
        ValueView,
        ErrorView,
    > {
        eval_expr(self.body, with_field(scope, self.param, item), funcs, ops)
    }
}

/// The values that `f` gives for those items of `items`, from position `i`
/// on, for which `p` gives `true`, in order. `None` where `p` gives something
/// other than a Bool for an item, or `f` fails for an item to keep.
pub open spec fn selected(
    items: Seq<ValueView>,
    i: int,
    p: LambdaView,
    f: LambdaView,
    scope: Bindings,
    funcs: FunctionRegistry,
    ops: OperatorRegistry,
) -> Option<Seq<ValueView>>
    decreases items.len() - i,
{
    if i < 0 || i >= items.len() {
        Some(Seq::empty())
    } else {
        match p.apply(items[i], scope, funcs, ops) {
            Ok(ValueView::Bool(true)) => match f.apply(items[i], scope, funcs, ops) {
                Ok(v) => match selected(items, i + 1, p, f, scope, funcs, ops) {
                    Some(rest) => Some(seq![v] + rest),
                    None => None,
                },
                Err(_) => None,
            },
            Ok(ValueView::Bool(false)) => selected(items, i + 1, p, f, scope, funcs, ops),
            _ => None,
        }
    }
}

/// The items of `items`, from position `i` on, for which `p` gives `true`.
spec fn kept(
    items: Seq<ValueView>,
    i: int,
    p: LambdaView,
    scope: Bindings,
    funcs: FunctionRegistry,
    ops: OperatorRegistry,
) -> Seq<ValueView>
    decreases items.len() - i,
{
    if i < 0 || i >= items.len() {
        Seq::empty()
    } else if p.apply(items[i], scope, funcs, ops) == Ok::<ValueView, ErrorView>(
        ValueView::Bool(true),
    ) {
        seq![items[i]] + kept(items, i + 1, p, scope, funcs, ops)
    } else {
        kept(items, i + 1, p, scope, funcs, ops)
    }
}

/// The values that `f` gives for the items of `items` from position `j` on;
/// `None` where it fails for one.
spec fn mapped(
    items: Seq<ValueView>,
    j: int,
    f: LambdaView,
    scope: Bindings,
    funcs: FunctionRegistry,
    ops: OperatorRegistry,
) -> Option<Seq<ValueView>>
    decreases items.len() - j,
{
    if j < 0 || j >= items.len() {
        Some(Seq::empty())
    } else {
        match f.apply(items[j], scope, funcs, ops) {
            Ok(v) => match mapped(items, j + 1, f, scope, funcs, ops) {
                Some(rest) => Some(seq![v] + rest),
                None => None,
            },
            Err(_) => None,
        }
    }
}

proof fn lemma_filter(
    items: Seq<ValueView>,
    i: int,
    acc: Seq<ValueView>,
    p: LambdaView,
    f: LambdaView,
    scope: Bindings,
    funcs: FunctionRegistry,
    ops: OperatorRegistry,
)
    requires
        0 <= i <= items.len(),
        selected(items, i, p, f, scope, funcs, ops) is Some,
    ensures
        eval_each(
            Combinator::Filter,
            items,
            i,
            p.param,
            p.body,
            scope,
            Gathered::Items(acc),
            funcs,
            ops,
        ) == Ok::<ValueView, ErrorView>(ValueView::List(acc + kept(items, i, p, scope, funcs, ops))),
    decreases items.len() - i,
{
    if i < items.len() {
        match p.apply(items[i], scope, funcs, ops) {
            Ok(ValueView::Bool(true)) => {
                lemma_filter(items, i + 1, acc.push(items[i]), p, f, scope, funcs, ops);
                assert(acc.push(items[i]) + kept(items, i + 1, p, scope, funcs, ops) =~= acc + (
                seq![items[i]] + kept(items, i + 1, p, scope, funcs, ops)));
            },
            Ok(ValueView::Bool(false)) => {
                lemma_filter(items, i + 1, acc, p, f, scope, funcs, ops);
            },
            _ => {},
        }
    } else {
        assert(acc + Seq::<ValueView>::empty() =~= acc);
    }
}

proof fn lemma_map(
    items: Seq<ValueView>,
    j: int,
    acc: Seq<ValueView>,
    f: LambdaView,
    scope: Bindings,
    funcs: FunctionRegistry,
    ops: OperatorRegistry,
)
    requires
        0 <= j <= items.len(),
        mapped(items, j, f, scope, funcs, ops) is Some,
    ensures
        eval_each(
            Combinator::MapEach,
            items,
            j,
            f.param,
            f.body,
            scope,
            Gathered::Items(acc),
            funcs,
            ops,
        ) == Ok::<ValueView, ErrorView>(
            ValueView::List(acc + mapped(items, j, f, scope, funcs, ops)->0),
        ),
    decreases items.len() - j,
{
    if j < items.len() {
        match f.apply(items[j], scope, funcs, ops) {
            Ok(v) => {
                lemma_map(items, j + 1, acc.push(v), f, scope, funcs, ops);
                assert(acc.push(v) + mapped(items, j + 1, f, scope, funcs, ops)->0 =~= acc + (
                seq![v] + mapped(items, j + 1, f, scope, funcs, ops)->0));
            },
            Err(_) => {},
        }
    } else {
        assert(acc + Seq::<ValueView>::empty() =~= acc);
    }
}

proof fn lemma_mapped_shift(
    first: ValueView,
    rest: Seq<ValueView>,
    j: int,
    f: LambdaView,
    scope: Bindings,
    funcs: FunctionRegistry,
    ops: OperatorRegistry,
)
    requires
        0 <= j <= rest.len(),
    ensures
        mapped(seq![first] + rest, j + 1, f, scope, funcs, ops) == mapped(
            rest,
            j,
            f,
            scope,
            funcs,
            ops,
        ),
    decreases rest.len() - j,
{
    let all = seq![first] + rest;
    if j < rest.len() {
        assert(all[j + 1] == rest[j]);
        lemma_mapped_shift(first, rest, j + 1, f, scope, funcs, ops);
    }
}

proof fn lemma_selected_is_mapped_kept(
    items: Seq<ValueView>,
    i: int,
    p: LambdaView,
    f: LambdaView,
    scope: Bindings,
    funcs: FunctionRegistry,
    ops: OperatorRegistry,
)
    requires
        0 <= i <= items.len(),
        selected(items, i, p, f, scope, funcs, ops) is Some,
    ensures
        mapped(kept(items, i, p, scope, funcs, ops), 0, f, scope, funcs, ops) == selected(
            items,
            i,
            p,
            f,
            scope,
            funcs,
            ops,
        ),
    decreases items.len() - i,
{
    if i < items.len() {
        let rest = kept(items, i + 1, p, scope, funcs, ops);
        match p.apply(items[i], scope, funcs, ops) {
            Ok(ValueView::Bool(true)) => {
                lemma_selected_is_mapped_kept(items, i + 1, p, f, scope, funcs, ops);
                lemma_mapped_shift(items[i], rest, 0, f, scope, funcs, ops);
                assert((seq![items[i]] + rest)[0] == items[i]);
            },
            Ok(ValueView::Bool(false)) => {
                lemma_selected_is_mapped_kept(items, i + 1, p, f, scope, funcs, ops);
            },
            _ => {},
        }
    }
}

/// Mapping over a filtered list gives the values of `f` for the items for
/// which `p` holds: where the list expression `list` evaluates to `items`
/// and `p` and `f` give what [`selected`] needs, `map(filter(list, p), f)`
/// evaluates to the list of those values.
pub proof fn law_map_after_filter(
    list: ExprView,
    items: Seq<ValueView>,
    p: LambdaView,
    f: LambdaView,
    out: Seq<ValueView>,
    scope: Bindings,
    funcs: FunctionRegistry,
    ops: OperatorRegistry,
)
    requires
        eval_expr(list, scope, funcs, ops) == Ok::<ValueView, ErrorView>(ValueView::List(items)),
        selected(items, 0, p, f, scope, funcs, ops) == Some(out),
    ensures
        eval_expr(
            ExprView::Call {
                name: "map"@,
                args: seq![ExprView::Call { name: "filter"@, args: seq![list, p.expr()] }, f.expr()],
            },
            scope,
            funcs,
            ops,
        ) == Ok::<ValueView, ErrorView>(ValueView::List(out)),
{
    reveal_strlit("map");
    reveal_strlit("filter");
    let inner_args = seq![list, p.expr()];
    let inner = ExprView::Call { name: "filter"@, args: inner_args };
    let outer_args = seq![inner, f.expr()];
    assert(combinator_of("filter"@, inner_args) == Some(Combinator::Filter));
    assert(combinator_of("map"@, outer_args) == Some(Combinator::MapEach));
    let middle = kept(items, 0, p, scope, funcs, ops);
    lemma_filter(items, 0, Seq::empty(), p, f, scope, funcs, ops);
    assert(Seq::<ValueView>::empty() + middle =~= middle);
    assert(eval_expr(inner, scope, funcs, ops) == Ok::<ValueView, ErrorView>(
        ValueView::List(middle),
    ));
    lemma_selected_is_mapped_kept(items, 0, p, f, scope, funcs, ops);
    lemma_map(middle, 0, Seq::empty(), f, scope, funcs, ops);
    assert(Seq::<ValueView>::empty() + out =~= out);
}

/// A literal token followed by the end marker parses as that literal.
proof fn lemma_literal_alone(first: TokenView, end: TokenView, ops: OperatorRegistry)
    requires
        end.kind is Eof,
        first.kind is Null || first.kind is True || first.kind is False || first.kind is Str,
    ensures
        parse_tokens(seq![first, end], ops) == Ok::<ExprView, ErrorView>(
            ExprView::Literal(
                match first.kind {
                    TokenKindView::True => ValueView::Bool(true),
                    TokenKindView::False => ValueView::Bool(false),
                    TokenKindView::Str(s) => ValueView::Str(s),
                    _ => ValueView::Null,
                },
            ),
        ),
{
    let t = seq![first, end];
    let lhs = parse_prefix(t, ops, 0)->Ok_0.0;
    assert(parse_prefix(t, ops, 0) is Ok);
    assert(parse_prefix(t, ops, 0)->Ok_0.1 == 1);
    assert(kind_at(t, 1) is Eof);
    assert(peek_infix(t, ops, 1) is None);
    assert(parse_rest(t, ops, lhs, 1, 0) == Ok::<(ExprView, int), ParseErrorView>((lhs, 1)));
}

/// A text of four or five ASCII letters lexes as one word and the end
/// marker.
proof fn lemma_word(s: Seq<char>, kind: TokenKindView)
    requires
        4 <= s.len() <= 5,
        forall|i: int| 0 <= i < s.len() ==> 'a' <= #[trigger] s[i] <= 'z',
        word_kind(s) == kind,
    ensures
        lex(s) == Ok::<Seq<TokenView>, ParseErrorView>(
            seq![
                TokenView { kind, position: 0 },
                TokenView { kind: TokenKindView::Eof, position: s.len() },
            ],
        ),
{
    let n = s.len() as int;
    assert(forall|i: int| 0 <= i < n ==> utf8_width(#[trigger] s[i]) == 1);
    reveal_with_fuel(byte_offset, 7);
    assert(byte_offset(s, 0) == 0);
    assert(byte_offset(s, 4) == 4);
    assert(byte_offset(s, n) == n);
    assert(!is_space(s[0]));
    assert(skip_space(s, 0) == 0);
    reveal_with_fuel(scan_ident, 7);
    assert(scan_ident(s, n) == n);
    assert(scan_ident(s, 1) == n);
    assert(s.subrange(0, n) =~= s);
    assert(scan_token(s, 0) == Ok::<Scanned, ParseErrorView>(Scanned { kind, next: n }));
    assert(skip_space(s, n) == n);
    assert(lex_from(s, n) == Ok::<Seq<TokenView>, ParseErrorView>(
        seq![TokenView { kind: TokenKindView::Eof, position: byte_offset(s, n) }],
    ));
    assert(seq![TokenView { kind, position: 0 }] + seq![
        TokenView { kind: TokenKindView::Eof, position: n as nat },
    ] =~= seq![
        TokenView { kind, position: 0 },
        TokenView { kind: TokenKindView::Eof, position: n as nat },
    ]);
}

/// What is written for `null`, `true` and `false` reads back as the same
/// value, in every scope and with every registry.
pub proof fn law_round_trip_constants(scope: Bindings, funcs: FunctionRegistry, ops: OperatorRegistry)
    ensures
        eval_text(render(ValueView::Null), scope, funcs, ops) == Ok::<ValueView, ErrorView>(
            ValueView::Null,
        ),
        eval_text(render(ValueView::Bool(true)), scope, funcs, ops) == Ok::<ValueView, ErrorView>(
            ValueView::Bool(true),
        ),
        eval_text(render(ValueView::Bool(false)), scope, funcs, ops) == Ok::<ValueView, ErrorView>(
            ValueView::Bool(false),
        ),
{
    reveal_strlit("null");
    reveal_strlit("true");
    reveal_strlit("false");
    let n = "null"@;
    let t = "true"@;
    let f = "false"@;
    assert(n.len() == 4 && n[0] == 'n' && n[1] == 'u' && n[2] == 'l' && n[3] == 'l');
    assert(t.len() == 4 && t[0] == 't' && t[1] == 'r' && t[2] == 'u' && t[3] == 'e');
    assert(f.len() == 5 && f[0] == 'f' && f[1] == 'a' && f[2] == 'l' && f[3] == 's' && f[4] == 'e');
    lemma_word(n, TokenKindView::Null);
    lemma_word(t, TokenKindView::True);
    lemma_word(f, TokenKindView::False);
    lemma_literal_alone(
        TokenView { kind: TokenKindView::Null, position: 0 },
        TokenView { kind: TokenKindView::Eof, position: 4 },
        ops,
    );
    lemma_literal_alone(
        TokenView { kind: TokenKindView::True, position: 0 },
        TokenView { kind: TokenKindView::Eof, position: 4 },
        ops,
    );
    lemma_literal_alone(
        TokenView { kind: TokenKindView::False, position: 0 },
        TokenView { kind: TokenKindView::Eof, position: 5 },
        ops,
    );
}

/// A digit character is a digit and has the value of its digit.
proof fn lemma_digit_char(d: int)
    requires
        0 <= d <= 9,
    ensures
        is_digit(digit_char(d)),
        digit_value(digit_char(d)) == d,
        utf8_width(digit_char(d)) == 1,
        !is_space(digit_char(d)),
        !is_alpha(digit_char(d)),
        digit_char(d) != '_',
        digit_char(d) != '.',
        digit_char(d) != '"',
{
    let c = digit_char(d);
    assert(c as u32 == 48 + d);
}

/// A longer text has the same value over a prefix.
proof fn lemma_value_of_prefix(s: Seq<char>, c: char, n: int)
    requires
        0 <= n <= s.len(),
    ensures
        decimal_value(s.push(c), n) == decimal_value(s, n),
    decreases n,
{
    if n > 0 {
        lemma_value_of_prefix(s, c, n - 1);
        assert(s.push(c)[n - 1] == s[n - 1]);
    }
}

/// The decimal notation of a number consists of digits and writes that
/// number.
proof fn lemma_decimal_text(n: nat)
    ensures
        all_digits(decimal_text(n)),
        decimal_value(decimal_text(n), decimal_text(n).len() as int) == n,
    decreases n,
{
    let s = decimal_text(n);
    if n < 10 {
        lemma_digit_char(n as int);
        assert(s.len() == 1 && s[0] == digit_char(n as int));
        assert(decimal_value(s, 0) == 0);
        assert(decimal_value(s, 1) == decimal_value(s, 0) * 10 + digit_value(s[0]));
    } else {
        let head = decimal_text(n / 10);
        let c = digit_char((n % 10) as int);
        lemma_decimal_text(n / 10);
        lemma_digit_char((n % 10) as int);
        assert(s == head.push(c));
        assert forall|i: int| 0 <= i < s.len() implies is_digit(#[trigger] s[i]) by {
            if i < head.len() {
                assert(s[i] == head[i]);
            }
        }
        lemma_value_of_prefix(head, c, head.len() as int);
        assert(decimal_value(s, s.len() as int) == decimal_value(s, head.len() as int) * 10
            + digit_value(s[head.len() as int]));
    }
}

/// A number below ten to the `k` is written with at most `k` digits.
proof fn lemma_text_length(n: nat, k: nat)
    requires
        k >= 1,
        n < vstd::arithmetic::power::pow(10, k),
    ensures
        decimal_text(n).len() <= k,
    decreases k,
{
    if n >= 10 {
        vstd::arithmetic::power::lemma_pow1(10);
        if k == 1 {
        } else {
            assert(vstd::arithmetic::power::pow(10, k) == 10 * vstd::arithmetic::power::pow(
                10,
                (k - 1) as nat,
            )) by {
                vstd::arithmetic::power::lemma_pow_adds(10, 1, (k - 1) as nat);
            }
            lemma_text_length(n / 10, (k - 1) as nat);
        }
    }
}

/// An Int is written with at most nineteen digits.
proof fn lemma_int_text_length(n: i64)
    requires
        n >= 0,
    ensures
        decimal_text(n as nat).len() <= 19,
{
    assert(vstd::arithmetic::power::pow(10, 19) == 10_000_000_000_000_000_000int) by {
        reveal_with_fuel(vstd::arithmetic::power::pow, 20);
    }
    lemma_text_length(n as nat, 19);
}

/// Digits from `from` to the end of a text are scanned to the end, and they
/// take one byte each.
proof fn lemma_scan_to_end(s: Seq<char>, from: int, i: int)
    requires
        0 <= from <= i <= s.len(),
        forall|k: int| from <= k < s.len() ==> is_digit(#[trigger] s[k]),
    ensures
        scan_digits(s, i) == s.len(),
        byte_offset(s, i) == byte_offset(s, from) + (i - from),
    decreases s.len() - i, i - from,
{
    if i < s.len() {
        lemma_scan_to_end(s, from, i + 1);
    }
    if i > from {
        lemma_scan_to_end_offset(s, from, i);
    }
}

proof fn lemma_scan_to_end_offset(s: Seq<char>, from: int, i: int)
    requires
        0 <= from <= i <= s.len(),
        forall|k: int| from <= k < s.len() ==> is_digit(#[trigger] s[k]),
    ensures
        byte_offset(s, i) == byte_offset(s, from) + (i - from),
    decreases i - from,
{
    if i > from {
        lemma_scan_to_end_offset(s, from, i - 1);
        assert(is_digit(s[i - 1]));
        assert(utf8_width(s[i - 1]) == 1);
    }
}

/// A number token followed by the end marker, from the position `p` on,
/// parses as the literal of the number.
proof fn lemma_number_alone(t: Seq<TokenView>, p: int, digits: Seq<char>, n: i64, ops: OperatorRegistry, min_bp: int)
    requires
        0 <= p,
        t.len() == p + 2,
        t[p].kind == TokenKindView::Number(digits),
        t[p + 1].kind is Eof,
        all_digits(digits),
        decimal_value(digits, digits.len() as int) == n,
        n >= 0,
    ensures
        parse_bp(t, ops, p, min_bp) == Ok::<(ExprView, int), ParseErrorView>(
            (ExprView::Literal(ValueView::Int(n)), p + 1),
        ),
{
    assert forall|c: char| c == '.' || c == 'e' || c == 'E' implies !digits.contains(c) by {
        if digits.contains(c) {
            let i = choose|i: int| 0 <= i < digits.len() && digits[i] == c;
            assert(is_digit(digits[i]));
        }
    }
    assert(int_literal(digits) == Some(n));
    let lhs = ExprView::Literal(ValueView::Int(n));
    assert(number_expr(digits, t[p].position) == Ok::<ExprView, ParseErrorView>(lhs));
    assert(parse_prefix(t, ops, p) == Ok::<(ExprView, int), ParseErrorView>((lhs, p + 1)));
    assert(kind_at(t, p + 1) is Eof);
    assert(peek_infix(t, ops, p + 1) is None);
    assert(parse_rest(t, ops, lhs, p + 1, min_bp) == Ok::<(ExprView, int), ParseErrorView>(
        (lhs, p + 1),
    ));
}

/// What is written for an Int that is not negative reads back as the same
/// Int, in every scope and with every registry.
pub proof fn law_round_trip_int(n: i64, scope: Bindings, funcs: FunctionRegistry, ops: OperatorRegistry)
    requires
        n >= 0,
    ensures
        eval_text(render(ValueView::Int(n)), scope, funcs, ops) == Ok::<ValueView, ErrorView>(
            ValueView::Int(n),
        ),
{
    let s = decimal_text(n as nat);
    let len = s.len() as int;
    lemma_decimal_text(n as nat);
    lemma_int_text_length(n);
    lemma_scan_to_end(s, 0, 0);
    lemma_scan_to_end(s, 0, len);
    if len > 1 {
        lemma_scan_to_end(s, 0, 1);
    }
    assert(is_digit(s[0]));
    assert(byte_offset(s, 0) == 0);
    assert(byte_offset(s, len) == len);
    assert(skip_space(s, 0) == 0);
    assert(scan_digits(s, 1) == len) by {
        if len == 1 {
        }
    }
    assert(number_end(s, 0) == len);
    assert(s.subrange(0, len) =~= s);
    assert(scan_token(s, 0) == Ok::<Scanned, ParseErrorView>(
        Scanned { kind: TokenKindView::Number(s), next: len },
    ));
    assert(skip_space(s, len) == len);
    let first = TokenView { kind: TokenKindView::Number(s), position: 0 };
    let end = TokenView { kind: TokenKindView::Eof, position: len as nat };
    assert(lex_from(s, len) == Ok::<Seq<TokenView>, ParseErrorView>(seq![end]));
    assert(seq![first] + seq![end] =~= seq![first, end]);
    assert(lex(s) == Ok::<Seq<TokenView>, ParseErrorView>(seq![first, end]));
    lemma_number_alone(seq![first, end], 0, s, n, ops, 0);
}

/// The tokens of a minus sign and the decimal notation of `m`: the sign,
/// the number, and the end marker.
proof fn lemma_lex_negative(m: nat)
    requires
        m <= 0x8000_0000_0000_0000,
    ensures
        lex("-"@ + decimal_text(m)) == Ok::<Seq<TokenView>, ParseErrorView>(
            seq![
                TokenView { kind: TokenKindView::Minus, position: 0 },
                TokenView { kind: TokenKindView::Number(decimal_text(m)), position: 1 },
                TokenView {
                    kind: TokenKindView::Eof,
                    position: ("-"@ + decimal_text(m)).len(),
                },
            ],
        ),
{
    let d = decimal_text(m);
    let s = "-"@ + d;
    let len = s.len() as int;
    reveal_strlit("-");
    lemma_decimal_text(m);
    assert(vstd::arithmetic::power::pow(10, 19) == 10_000_000_000_000_000_000int) by {
        reveal_with_fuel(vstd::arithmetic::power::pow, 20);
    }
    lemma_text_length(m, 19);
    assert(s[0] == '-');
    assert forall|k: int| 1 <= k < s.len() implies is_digit(#[trigger] s[k]) by {
        assert(s[k] == d[k - 1]);
    }
    lemma_scan_to_end(s, 1, 1);
    lemma_scan_to_end(s, 1, len);
    if len > 2 {
        lemma_scan_to_end(s, 1, 2);
    }
    assert(utf8_width(s[0]) == 1);
    assert(byte_offset(s, 0) == 0);
    assert(byte_offset(s, 1) == 1);
    assert(byte_offset(s, len) == len);
    assert(skip_space(s, 0) == 0);
    assert(scan_token(s, 0) == Ok::<Scanned, ParseErrorView>(
        Scanned { kind: TokenKindView::Minus, next: 1 },
    ));
    assert(is_digit(s[1]));
    assert(skip_space(s, 1) == 1);
    assert(scan_digits(s, 2) == len) by {
        if len == 2 {
        }
    }
    assert(number_end(s, 1) == len);
    assert(s.subrange(1, len) =~= d);
    assert(scan_token(s, 1) == Ok::<Scanned, ParseErrorView>(
        Scanned { kind: TokenKindView::Number(d), next: len },
    ));
    assert(skip_space(s, len) == len);
    let minus = TokenView { kind: TokenKindView::Minus, position: 0 };
    let number = TokenView { kind: TokenKindView::Number(d), position: 1 };
    let end = TokenView { kind: TokenKindView::Eof, position: len as nat };
    assert(lex_from(s, len) == Ok::<Seq<TokenView>, ParseErrorView>(seq![end]));
    assert(seq![number] + seq![end] =~= seq![number, end]);
    assert(lex_from(s, 1) == Ok::<Seq<TokenView>, ParseErrorView>(seq![number, end]));
    assert(seq![minus] + seq![number, end] =~= seq![minus, number, end]);
    let t = seq![minus, number, end];
    assert(lex(s) == Ok::<Seq<TokenView>, ParseErrorView>(t));
}

/// What is written for the least Int reads back as the least Int, in every
/// scope and with every registry.
pub proof fn law_round_trip_least_int(scope: Bindings, funcs: FunctionRegistry, ops: OperatorRegistry)
    ensures
        eval_text(render(ValueView::Int(i64::MIN)), scope, funcs, ops) == Ok::<ValueView, ErrorView>(
            ValueView::Int(i64::MIN),
        ),
{
    let m: nat = 0x8000_0000_0000_0000;
    let d = decimal_text(m);
    let s = "-"@ + d;
    let len = s.len() as int;
    lemma_decimal_text(m);
    lemma_lex_negative(m);
    let minus = TokenView { kind: TokenKindView::Minus, position: 0 };
    let number = TokenView { kind: TokenKindView::Number(d), position: 1 };
    let end = TokenView { kind: TokenKindView::Eof, position: len as nat };
    let t = seq![minus, number, end];
    assert(render(ValueView::Int(i64::MIN)) == s);
    assert(lex(s) == Ok::<Seq<TokenView>, ParseErrorView>(t));
    assert(crate::number::least_magnitude(d));
    assert(kind_at(t, 1) == TokenKindView::Number(d));
    assert(crate::parser::least_ahead(t, 1));
    let literal = ExprView::Literal(ValueView::Int(i64::MIN));
    assert(parse_prefix(t, ops, 0) == Ok::<(ExprView, int), ParseErrorView>((literal, 2)));
    assert(kind_at(t, 2) is Eof);
    assert(peek_infix(t, ops, 2) is None);
    assert(parse_rest(t, ops, literal, 2, 0) == Ok::<(ExprView, int), ParseErrorView>((literal, 2)));
    assert(parse_text(s, ops) == Ok::<ExprView, ErrorView>(literal));
}

/// What is written for a negative Int other than the least reads back as
/// the same Int, with the built-in unary operators.
pub proof fn law_round_trip_negative_int(n: i64, scope: Bindings, funcs: FunctionRegistry, ops: OperatorRegistry)
    requires
        i64::MIN < n < 0,
        has_default_unary(ops),
    ensures
        eval_text(render(ValueView::Int(n)), scope, funcs, ops) == Ok::<ValueView, ErrorView>(
            ValueView::Int(n),
        ),
{
    lemma_negative_text((-n) as i64, scope, funcs, ops);
}

/// A minus sign before the decimal notation of `m` reads as the opposite of
/// `m`, with the built-in unary operators.
proof fn lemma_negative_text(m: i64, scope: Bindings, funcs: FunctionRegistry, ops: OperatorRegistry)
    requires
        m >= 0,
        has_default_unary(ops),
    ensures
        eval_text("-"@ + decimal_text(m as nat), scope, funcs, ops) == Ok::<ValueView, ErrorView>(
            ValueView::Int((-m) as i64),
        ),
{
    let n: i64 = (-m) as i64;
    let d = decimal_text(m as nat);
    let s = "-"@ + d;
    let len = s.len() as int;
    reveal_strlit("-u");
    reveal_strlit("!");
    reveal_strlit("not");
    lemma_decimal_text(m as nat);
    lemma_lex_negative(m as nat);
    let minus = TokenView { kind: TokenKindView::Minus, position: 0 };
    let number = TokenView { kind: TokenKindView::Number(d), position: 1 };
    let end = TokenView { kind: TokenKindView::Eof, position: len as nat };
    let t = seq![minus, number, end];
    assert(!crate::parser::least_ahead(t, 1));
    lemma_number_alone(t, 1, d, m, ops, 7);
    let literal = ExprView::Literal(ValueView::Int(m));
    let whole = ExprView::Unary { op: crate::ast::UnaryOp::Neg, expr: Box::new(literal) };
    assert(parse_prefix(t, ops, 0) == Ok::<(ExprView, int), ParseErrorView>((whole, 2)));
    assert(kind_at(t, 2) is Eof);
    assert(peek_infix(t, ops, 2) is None);
    assert(parse_rest(t, ops, whole, 2, 0) == Ok::<(ExprView, int), ParseErrorView>((whole, 2)));
    assert(parse_text(s, ops) == Ok::<ExprView, ErrorView>(whole));
    assert(crate::defaults::default_unary("-u"@) == Some(crate::operators::UnaryBuiltin::Neg)) by {
        assert("-u"@.len() == 2 && "!"@.len() == 1 && "not"@.len() == 3);
    }
    assert(ops.unary_at("-u"@) is Some);
    assert(ops.unary_result("-u"@, ValueView::Int(m)) == Some(
        crate::operators::unary_builtin(crate::operators::UnaryBuiltin::Neg, ValueView::Int(m)),
    ));
    assert(eval_expr(literal, scope, funcs, ops) == Ok::<ValueView, ErrorView>(ValueView::Int(m)));
    assert(crate::eval::unary_name(crate::ast::UnaryOp::Neg) == "-u"@);
    assert(crate::operators::unary_builtin(crate::operators::UnaryBuiltin::Neg, ValueView::Int(m))
        == Ok::<ValueView, ErrorView>(ValueView::Int(n)));
    assert(eval_expr(whole, scope, funcs, ops) == Ok::<ValueView, ErrorView>(ValueView::Int(n)));
}

/// What is written for the Float made of a whole number of fewer than
/// fifty-four bits reads back as the Int of that number; a negative one with
/// the built-in unary operators.
pub proof fn law_round_trip_whole_float(n: i64, scope: Bindings, funcs: FunctionRegistry, ops: OperatorRegistry)
    requires
        -0x20_0000_0000_0000 < n < 0x20_0000_0000_0000,
        n < 0 ==> has_default_unary(ops),
    ensures
        eval_text(render(ValueView::Float(from_int(n))), scope, funcs, ops) == Ok::<
            ValueView,
            ErrorView,
        >(ValueView::Int(n)),
{
    let x = from_int(n);
    if n == 0 {
        reveal_strlit("0");
        crate::float::law_zeros();
        assert(float_text(x) =~= decimal_text(0));
        law_round_trip_int(0, scope, funcs, ops);
    } else {
        let m: i64 = if n < 0 {
            (-n) as i64
        } else {
            n
        };
        crate::float::law_whole_parts(n);
        assert(whole_of(magnitude(x)) == Some(m as u64));
        if n < 0 {
            assert(float_text(x) == "-"@ + decimal_text(m as nat));
            lemma_negative_text(m, scope, funcs, ops);
        } else {
            assert(float_text(x) == decimal_text(m as nat));
            law_round_trip_int(n, scope, funcs, ops);
        }
    }
}

/// What is written for the negative zero reads back as the Int zero, which
/// equals it as a number; with the built-in unary operators.
pub proof fn law_round_trip_negative_zero(scope: Bindings, funcs: FunctionRegistry, ops: OperatorRegistry)
    requires
        has_default_unary(ops),
    ensures
        eval_text(render(ValueView::Float(negate(0))), scope, funcs, ops) == Ok::<
            ValueView,
            ErrorView,
        >(ValueView::Int(0)),
        equal(negate(0), from_int(0)),
{
    reveal_strlit("-0");
    reveal_strlit("-");
    reveal_strlit("0");
    let x = negate(0);
    crate::float::law_zeros();
    assert(float_text(x) =~= "-"@ + decimal_text(0));
    lemma_negative_text(0, scope, funcs, ops);
}

/// In a text of characters of one byte each, the byte offset of a character
/// is its index.
proof fn lemma_narrow_offsets(s: Seq<char>, i: int)
    requires
        0 <= i <= s.len(),
        forall|k: int| 0 <= k < s.len() ==> utf8_width(#[trigger] s[k]) == 1,
    ensures
        byte_offset(s, i) == i,
    decreases i,
{
    if i > 0 {
        lemma_narrow_offsets(s, i - 1);
    }
}

/// A run of digits is scanned to its end.
proof fn lemma_scan_run(s: Seq<char>, i: int, stop: int)
    requires
        0 <= i <= stop <= s.len(),
        forall|k: int| i <= k < stop ==> is_digit(#[trigger] s[k]),
        stop < s.len() ==> !is_digit(s[stop]),
    ensures
        scan_digits(s, i) == stop,
    decreases stop - i,
{
    if i < stop {
        lemma_scan_run(s, i + 1, stop);
    }
}

/// The tokens of a plain number, with or without a minus sign before it.
proof fn lemma_lex_plain(c: Seq<char>, dot: int, negative: bool)
    requires
        plain_number(c, dot),
        c.len() < usize::MAX,
    ensures
        lex(
            if negative {
                "-"@ + c
            } else {
                c
            },
        ) == Ok::<Seq<TokenView>, ParseErrorView>(
            if negative {
                seq![
                    TokenView { kind: TokenKindView::Minus, position: 0 },
                    TokenView { kind: TokenKindView::Number(c), position: 1 },
                    TokenView { kind: TokenKindView::Eof, position: (c.len() + 1) as nat },
                ]
            } else {
                seq![
                    TokenView { kind: TokenKindView::Number(c), position: 0 },
                    TokenView { kind: TokenKindView::Eof, position: c.len() },
                ]
            },
        ),
{
    reveal_strlit("-");
    let s = if negative {
        "-"@ + c
    } else {
        c
    };
    let o: int = if negative {
        1
    } else {
        0
    };
    let len = s.len() as int;
    assert(len == c.len() + o);
    assert forall|k: int| o <= k < len implies #[trigger] s[k] == c[k - o] by {}
    assert forall|k: int| 0 <= k < len implies utf8_width(#[trigger] s[k]) == 1 by {
        if k >= o {
            assert(s[k] == c[k - o]);
            if k - o != dot {
                assert(is_digit(c[k - o]));
            }
        }
    }
    lemma_narrow_offsets(s, 0);
    lemma_narrow_offsets(s, o);
    lemma_narrow_offsets(s, len);
    assert forall|k: int| o <= k < o + dot implies is_digit(#[trigger] s[k]) by {
        assert(s[k] == c[k - o]);
        assert(is_digit(c[k - o]));
    }
    assert(is_digit(s[o])) by {
        assert(s[o] == c[0]);
        assert(is_digit(c[0]));
    }
    if dot < c.len() {
        assert(s[o + dot] == c[dot]);
        assert forall|k: int| o + dot + 1 <= k < len implies is_digit(#[trigger] s[k]) by {
            assert(s[k] == c[k - o]);
            assert(is_digit(c[k - o]));
        }
        lemma_scan_run(s, o + 1, o + dot);
        lemma_scan_run(s, o + dot + 1, len);
    } else {
        lemma_scan_run(s, o + 1, len);
    }
    assert(number_end(s, o) == len);
    assert(s.subrange(o, len) =~= c);
    assert(skip_space(s, o) == o);
    assert(scan_token(s, o) == Ok::<Scanned, ParseErrorView>(
        Scanned { kind: TokenKindView::Number(c), next: len },
    ));
    assert(skip_space(s, len) == len);
    let number = TokenView { kind: TokenKindView::Number(c), position: o as nat };
    let end = TokenView { kind: TokenKindView::Eof, position: len as nat };
    assert(lex_from(s, len) == Ok::<Seq<TokenView>, ParseErrorView>(seq![end]));
    assert(seq![number] + seq![end] =~= seq![number, end]);
    assert(lex_from(s, o) == Ok::<Seq<TokenView>, ParseErrorView>(seq![number, end]));
    if negative {
        let minus = TokenView { kind: TokenKindView::Minus, position: 0 };
        assert(s[0] == '-');
        assert(skip_space(s, 0) == 0);
        assert(scan_token(s, 0) == Ok::<Scanned, ParseErrorView>(
            Scanned { kind: TokenKindView::Minus, next: 1 },
        ));
        assert(seq![minus] + seq![number, end] =~= seq![minus, number, end]);
        assert(lex_from(s, 0) == Ok::<Seq<TokenView>, ParseErrorView>(seq![minus, number, end]));
    }
}

/// A plain number reads as the literal that it writes, and with a minus
/// sign before it as the opposite of that literal, with the built-in unary
/// operators; in every scope, where the text fits a machine word.
pub proof fn law_number_reads(
    c: Seq<char>,
    dot: int,
    v: ValueView,
    negative: bool,
    scope: Bindings,
    funcs: FunctionRegistry,
    ops: OperatorRegistry,
)
    requires
        plain_number(c, dot),
        c.len() < usize::MAX,
        number_expr(c, 0) == Ok::<ExprView, ParseErrorView>(ExprView::Literal(v)),
        negative ==> has_default_unary(ops),
    ensures
        eval_text(
            if negative {
                "-"@ + c
            } else {
                c
            },
            scope,
            funcs,
            ops,
        ) == (if negative {
            crate::operators::unary_builtin(crate::operators::UnaryBuiltin::Neg, v)
        } else {
            Ok::<ValueView, ErrorView>(v)
        }),
{
    reveal_strlit("-u");
    reveal_strlit("!");
    reveal_strlit("not");
    lemma_lex_plain(c, dot, negative);
    let o: int = if negative {
        1
    } else {
        0
    };
    let s = if negative {
        "-"@ + c
    } else {
        c
    };
    let t = lex(s)->Ok_0;
    let literal = ExprView::Literal(v);
    assert(t[o].kind == TokenKindView::Number(c));
    assert(number_expr(c, t[o].position) == Ok::<ExprView, ParseErrorView>(literal));
    assert(parse_prefix(t, ops, o) == Ok::<(ExprView, int), ParseErrorView>((literal, o + 1)));
    assert(kind_at(t, o + 1) is Eof);
    assert(peek_infix(t, ops, o + 1) is None);
    assert(eval_expr(literal, scope, funcs, ops) == Ok::<ValueView, ErrorView>(v));
    if negative {
        assert(parse_rest(t, ops, literal, 2, 7) == Ok::<(ExprView, int), ParseErrorView>(
            (literal, 2),
        ));
        assert(parse_bp(t, ops, 1, 7) == Ok::<(ExprView, int), ParseErrorView>((literal, 2)));
        assert(!crate::number::least_magnitude(c)) by {
            if crate::number::least_magnitude(c) {
                assert forall|ch: char| ch == '.' || ch == 'e' || ch == 'E' implies !c.contains(
                    ch,
                ) by {
                    if c.contains(ch) {
                        let i = choose|i: int| 0 <= i < c.len() && c[i] == ch;
                        assert(is_digit(c[i]));
                    }
                }
                assert(int_literal(c) is None);
            }
        }
        assert(!crate::parser::least_ahead(t, 1));
        let whole = ExprView::Unary { op: crate::ast::UnaryOp::Neg, expr: Box::new(literal) };
        assert(parse_prefix(t, ops, 0) == Ok::<(ExprView, int), ParseErrorView>((whole, 2)));
        assert(parse_rest(t, ops, whole, 2, 0) == Ok::<(ExprView, int), ParseErrorView>((whole, 2)));
        assert(parse_text(s, ops) == Ok::<ExprView, ErrorView>(whole));
        assert(crate::defaults::default_unary("-u"@) == Some(crate::operators::UnaryBuiltin::Neg))
            by {
            assert("-u"@.len() == 2 && "!"@.len() == 1 && "not"@.len() == 3);
        }
        assert(ops.unary_at("-u"@) is Some);
        assert(ops.unary_result("-u"@, v) == Some(
            crate::operators::unary_builtin(crate::operators::UnaryBuiltin::Neg, v),
        ));
        assert(crate::eval::unary_name(crate::ast::UnaryOp::Neg) == "-u"@);
        assert(eval_expr(whole, scope, funcs, ops) == crate::operators::unary_builtin(
            crate::operators::UnaryBuiltin::Neg,
            v,
        ));
    } else {
        assert(parse_rest(t, ops, literal, 1, 0) == Ok::<(ExprView, int), ParseErrorView>(
            (literal, 1),
        ));
        assert(parse_text(s, ops) == Ok::<ExprView, ErrorView>(literal));
    }
}

/// What is written for a finite Float reads back as the same Float, or as
/// the Int of the same size and sign, provided that the digits written for
/// its size read, as a number, as its size; a negative one with the built-in
/// unary operators.
pub proof fn law_round_trip_float(x: u64, scope: Bindings, funcs: FunctionRegistry, ops: OperatorRegistry)
    requires
        !is_nan(x),
        !is_infinite(x),
        number_of(float_text(magnitude(x))) == Some(magnitude(x)),
        is_negative(x) ==> has_default_unary(ops),
    ensures
        match eval_text(render(ValueView::Float(x)), scope, funcs, ops) {
            Ok(ValueView::Float(y)) => y == x,
            Ok(ValueView::Int(n)) => from_int(
                if n < 0 {
                    (-n) as i64
                } else {
                    n
                },
            ) == magnitude(x) && (n < 0 ==> is_negative(x)) && (n > 0 ==> !is_negative(x)),
            _ => false,
        },
{
    crate::float::law_magnitude_parts(x);
    crate::float::law_magnitude_parts(magnitude(x));
    let size = magnitude(x);
    let negative = is_negative(x);
    if is_zero(x) {
        if negative {
            law_round_trip_negative_zero(scope, funcs, ops);
        } else {
            law_round_trip_whole_float(0, scope, funcs, ops);
        }
    } else {
        let body = float_text(size);
        assert(float_text(x) == (if negative {
            "-"@ + body
        } else {
            body
        }));
        let dot = match whole_of(size) {
            Some(n) => decimal_text(n as nat).len() as int,
            None => crate::number::notation_dot(
                crate::number::shortest_digits(
                    significand(x),
                    scale(x),
                    crate::float::exponent_field(x),
                ).0,
                crate::number::shortest_digits(
                    significand(x),
                    scale(x),
                    crate::float::exponent_field(x),
                ).1,
            ),
        };
        match whole_of(size) {
            Some(n) => {
                lemma_decimal_text(n as nat);
                lemma_int_text_length(n as i64);
            },
            None => {
                crate::number::lemma_shortest_plain(
                    significand(x),
                    scale(x),
                    crate::float::exponent_field(x),
                );
                crate::number::lemma_shortest_len(
                    significand(x),
                    scale(x),
                    crate::float::exponent_field(x),
                );
            },
        }
        assert(body.len() < 5000);
        assert(plain_number(body, dot));
        match number_expr(body, 0) {
            Ok(ExprView::Literal(ValueView::Float(b))) => {
                law_number_reads(body, dot, ValueView::Float(b), negative, scope, funcs, ops);
            },
            Ok(ExprView::Literal(ValueView::Int(n))) => {
                assert(n >= 0);
                law_number_reads(body, dot, ValueView::Int(n), negative, scope, funcs, ops);
            },
            _ => {},
        }
    }
}

/// What is written for a string reads back as the same string, in every
/// scope and with every registry, where the written text fits a machine
/// word.
pub proof fn law_round_trip_string(text: Seq<char>, scope: Bindings, funcs: FunctionRegistry, ops: OperatorRegistry)
    requires
        byte_offset(render(ValueView::Str(text)), render(ValueView::Str(text)).len() as int)
            <= usize::MAX,
    ensures
        eval_text(render(ValueView::Str(text)), scope, funcs, ops) == Ok::<ValueView, ErrorView>(
            ValueView::Str(text),
        ),
{
    reveal_strlit("\"");
    let inner = escaped(text, 0);
    let s = "\""@ + inner + "\""@;
    let len = s.len() as int;
    assert(len == inner.len() + 2);
    assert(s[0] == '"');
    assert(s.subrange(1, len) =~= inner + seq!['"']);
    assert(text.take(0) =~= Seq::<char>::empty());
    lemma_scan_escaped(s, text, 0, 1);
    assert(skip_space(s, 0) == 0);
    assert(scan_token(s, 0) == Ok::<Scanned, ParseErrorView>(
        Scanned { kind: TokenKindView::Str(text), next: len },
    ));
    assert(skip_space(s, len) == len);
    let first = TokenView { kind: TokenKindView::Str(text), position: 0 };
    let end = TokenView { kind: TokenKindView::Eof, position: byte_offset(s, len) };
    assert(byte_offset(s, 0) == 0);
    assert(lex_from(s, len) == Ok::<Seq<TokenView>, ParseErrorView>(seq![end]));
    assert(seq![first] + seq![end] =~= seq![first, end]);
    assert(lex(s) == Ok::<Seq<TokenView>, ParseErrorView>(seq![first, end]));
    lemma_literal_alone(first, end, ops);
}

/// Scanning what is written for the characters of `text` from `k` on, with
/// the closing quote behind them, adds those characters to what was read
/// and ends after the quote.
proof fn lemma_scan_escaped(s: Seq<char>, text: Seq<char>, k: int, p: int)
    requires
        0 <= k <= text.len(),
        0 <= p <= s.len(),
        s.subrange(p, s.len() as int) == escaped(text, k) + seq!['"'],
    ensures
        scan_string(s, p, text.take(k)) == StringScan::Closed(text, s.len() as int),
    decreases text.len() - k,
{
    let rest = s.subrange(p, s.len() as int);
    let len = s.len() as int;
    if k < text.len() {
        let c = text[k];
        let tail = escaped(text, k + 1) + seq!['"'];
        assert(text.take(k).push(c) =~= text.take(k + 1));
        if c == '"' || c == '\\' {
            assert(rest =~= seq!['\\', c] + tail);
            assert(rest.len() >= 3);
            assert(s[p] == rest[0] && s[p + 1] == rest[1]);
            assert(s.subrange(p + 2, len) =~= rest.subrange(2, rest.len() as int));
            assert(rest.subrange(2, rest.len() as int) =~= tail);
            assert(unescape(c) == c);
            lemma_scan_escaped(s, text, k + 1, p + 2);
        } else {
            assert(rest =~= seq![c] + tail);
            assert(rest.len() >= 2);
            assert(s[p] == rest[0]);
            assert(s.subrange(p + 1, len) =~= rest.subrange(1, rest.len() as int));
            assert(rest.subrange(1, rest.len() as int) =~= tail);
            lemma_scan_escaped(s, text, k + 1, p + 1);
        }
    } else {
        assert(escaped(text, k) =~= Seq::<char>::empty());
        assert(rest =~= seq!['"']);
        assert(rest.len() == 1);
        assert(s[p] == rest[0]);
        assert(text.take(k) =~= text);
    }
}

} // verus!
