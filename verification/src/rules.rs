//! Rule chains: named sequences of steps over expressions.

use vstd::prelude::*;
use crate::engine::{eval_text, Context, Engine};
use crate::error::{EngineError, ErrorView, EvalError};
use crate::eval::{Bindings, Scope};
use crate::functions::FunctionRegistry;
use crate::operators::OperatorRegistry;
use crate::text::{append_chars, chars_of, string_of, text_equal};
use crate::value::{with_field, StructMap, Value, ValueView};

verus! {

/// What a step does.
#[derive(Debug, Clone)]
pub enum RuleAction {
    /// Evaluate a condition; on `false` branch to `on_false`, if there is one.
    When { expr: String, on_false: Option<String> },
    /// Evaluate an expression and store the result under `key`.
    Let { key: String, expr: String },
    /// Evaluate an expression and end the run with its value.
    Emit { expr: String },
    /// Continue with the first step of another chain.
    Call { chain: String },
}

/// A named step of a chain.
#[derive(Debug, Clone)]
pub struct RuleStep {
    pub name: String,
    pub action: RuleAction,
}

/// A named, ordered sequence of steps.
#[derive(Debug, Clone)]
pub struct RuleChain {
    pub name: String,
    pub steps: Vec<RuleStep>,
}

/// Composes a chain step by step.
pub struct RuleChainBuilder {
    name: String,
    steps: Vec<RuleStep>,
}

/// The mathematical content of a [`RuleAction`].
pub ghost enum ActionView {
    When { expr: Seq<char>, on_false: Option<Seq<char>> },
    Let { key: Seq<char>, expr: Seq<char> },
    Emit { expr: Seq<char> },
    Call { chain: Seq<char> },
}

/// The mathematical content of a [`RuleStep`].
pub ghost struct StepView {
    pub name: Seq<char>,
    pub action: ActionView,
}

/// The mathematical content of a [`RuleChain`].
pub ghost struct ChainView {
    pub name: Seq<char>,
    pub steps: Seq<StepView>,
}

impl View for RuleAction {
    type V = ActionView;

    open spec fn view(&self) -> ActionView {
        match self {
            RuleAction::When { expr, on_false } => ActionView::When {
                expr: expr@,
                on_false: match on_false {
                    Some(t) => Some(t@),
                    None => None,
                },
            },
            RuleAction::Let { key, expr } => ActionView::Let { key: key@, expr: expr@ },
            RuleAction::Emit { expr } => ActionView::Emit { expr: expr@ },
            RuleAction::Call { chain } => ActionView::Call { chain: chain@ },
        }
    }
}

impl View for RuleStep {
    type V = StepView;

    open spec fn view(&self) -> StepView {
        StepView { name: self.name@, action: self.action@ }
    }
}

/// The contents of each step of `steps`, in order.
pub open spec fn steps_view(steps: Seq<RuleStep>) -> Seq<StepView> {
    Seq::new(steps.len(), |i: int| steps[i]@)
}

impl View for RuleChain {
    type V = ChainView;

    open spec fn view(&self) -> ChainView {
        ChainView { name: self.name@, steps: steps_view(self.steps@) }
    }
}

impl View for RuleChainBuilder {
    type V = ChainView;

    closed spec fn view(&self) -> ChainView {
        ChainView { name: self.name@, steps: steps_view(self.steps@) }
    }
}

impl ChainView {
    /// This chain with `step` added at its end.
    pub open spec fn with_step(self, name: Seq<char>, action: ActionView) -> ChainView {
        ChainView { name: self.name, steps: self.steps.push(StepView { name, action }) }
    }
}

impl RuleChainBuilder {
    /// Starts a chain called `name`, without steps.
    pub fn new(name: &str) -> (b: RuleChainBuilder)
        ensures
            b@ == (ChainView { name: name@, steps: Seq::empty() }),
    {
        let b = RuleChainBuilder { name: name.to_owned(), steps: Vec::new() };
        assert(steps_view(b.steps@) =~= Seq::empty());
        b
    }

    fn push_step(self, name: &str, action: RuleAction) -> (b: RuleChainBuilder)
        ensures
            b@ == self@.with_step(name@, action@),
    {
        let mut b = self;
        b.steps.push(RuleStep { name: name.to_owned(), action });
        assert(steps_view(b.steps@) =~= steps_view(self.steps@).push(
            StepView { name: name@, action: action@ },
        ));
        b
    }

    /// Adds a condition without a branch, named `when`.
    pub fn when(self, expr: &str) -> (b: RuleChainBuilder)
        ensures
            b@ == self@.with_step("when"@, ActionView::When { expr: expr@, on_false: None }),
    {
        self.push_step("when", RuleAction::When { expr: expr.to_owned(), on_false: None })
    }

    /// Adds a condition that branches to `on_false_chain` on `false`, named `when`.
    pub fn when_else(self, expr: &str, on_false_chain: &str) -> (b: RuleChainBuilder)
        ensures
            b@ == self@.with_step(
                "when"@,
                ActionView::When { expr: expr@, on_false: Some(on_false_chain@) },
            ),
    {
        self.push_step(
            "when",
            RuleAction::When { expr: expr.to_owned(), on_false: Some(on_false_chain.to_owned()) },
        )
    }

    /// Adds an assignment of `expr` to `key`, named `let`.
    pub fn let_(self, key: &str, expr: &str) -> (b: RuleChainBuilder)
        ensures
            b@ == self@.with_step("let"@, ActionView::Let { key: key@, expr: expr@ }),
    {
        self.push_step("let", RuleAction::Let { key: key.to_owned(), expr: expr.to_owned() })
    }

    /// Adds a final step that emits `expr`, named `emit`.
    pub fn emit(self, expr: &str) -> (b: RuleChainBuilder)
        ensures
            b@ == self@.with_step("emit"@, ActionView::Emit { expr: expr@ }),
    {
        self.push_step("emit", RuleAction::Emit { expr: expr.to_owned() })
    }

    /// Adds a jump to `chain`, named `call`.
    pub fn call(self, chain: &str) -> (b: RuleChainBuilder)
        ensures
            b@ == self@.with_step("call"@, ActionView::Call { chain: chain@ }),
    {
        self.push_step("call", RuleAction::Call { chain: chain.to_owned() })
    }

    /// The chain composed so far.
    pub fn build(self) -> (c: RuleChain)
        ensures
            c@ == self@,
    {
        RuleChain { name: self.name, steps: self.steps }
    }
}


/// The named values that the steps of a run read and write.
#[derive(Debug, Clone)]
pub struct RuleContext {
    pub data: StructMap,
}

impl View for RuleContext {
    type V = Bindings;

    open spec fn view(&self) -> Bindings {
        self.data@
    }
}

impl RuleContext {
    /// A context without values.
    pub fn new() -> (c: RuleContext)
        ensures
            c@ == Seq::<(Seq<char>, ValueView)>::empty(),
    {
        RuleContext { data: StructMap::new() }
    }

    /// This context with `value` stored under `key`.
    pub fn with(self, key: &str, value: Value) -> (c: RuleContext)
        ensures
            c@ == with_field(self@, key@, value@),
    {
        let mut c = self;
        c.data.insert(key.to_owned(), value);
        c
    }
}

/// What a step decided.
#[derive(Debug, Clone)]
pub enum RuleOutcome {
    Continue,
    Branch(String),
    Emit(Value),
}

/// The record of one executed step.
#[derive(Debug, Clone)]
pub struct AuditEvent {
    pub step_name: String,
    pub expression: String,
    pub result: Value,
    pub outcome: RuleOutcome,
}

/// The records of a run, in the order of execution.
#[derive(Debug, Clone)]
pub struct AuditLog(pub Vec<AuditEvent>);

/// The mathematical content of a [`RuleOutcome`].
pub ghost enum OutcomeView {
    Continue,
    Branch(Seq<char>),
    Emit(ValueView),
}

/// The mathematical content of an [`AuditEvent`].
pub ghost struct EventView {
    pub step_name: Seq<char>,
    pub expression: Seq<char>,
    pub result: ValueView,
    pub outcome: OutcomeView,
}

impl View for RuleOutcome {
    type V = OutcomeView;

    open spec fn view(&self) -> OutcomeView {
        match self {
            RuleOutcome::Continue => OutcomeView::Continue,
            RuleOutcome::Branch(t) => OutcomeView::Branch(t@),
            RuleOutcome::Emit(v) => OutcomeView::Emit(v@),
        }
    }
}

impl View for AuditEvent {
    type V = EventView;

    open spec fn view(&self) -> EventView {
        EventView {
            step_name: self.step_name@,
            expression: self.expression@,
            result: self.result@,
            outcome: self.outcome@,
        }
    }
}

/// The contents of each event of `events`, in order.
pub open spec fn events_view(events: Seq<AuditEvent>) -> Seq<EventView> {
    Seq::new(events.len(), |i: int| events[i]@)
}

impl View for AuditLog {
    type V = Seq<EventView>;

    open spec fn view(&self) -> Seq<EventView> {
        events_view(self.0@)
    }
}

impl AuditLog {
    /// A log without records.
    pub fn new() -> (log: AuditLog)
        ensures
            log@ == Seq::<EventView>::empty(),
    {
        let log = AuditLog(Vec::new());
        assert(log@ =~= Seq::<EventView>::empty());
        log
    }

    /// Appends `event`.
    pub fn record(&mut self, event: AuditEvent)
        ensures
            final(self)@ == old(self)@.push(event@),
    {
        self.0.push(event);
        assert(self@ =~= old(self)@.push(event@));
    }
}

/// Runs rule chains over an expression engine.
pub struct RuleEngine {
    pub expr: Engine,
    pub chains: Vec<RuleChain>,
}

/// The contents of each chain of `chains`, in order.
pub open spec fn chains_view(chains: Seq<RuleChain>) -> Seq<ChainView> {
    Seq::new(chains.len(), |i: int| chains[i]@)
}

/// The position of the first chain called `name`, from `i` on.
pub open spec fn find_chain(chains: Seq<ChainView>, name: Seq<char>, i: int) -> Option<int>
    decreases chains.len() - i,
{
    if i < 0 || i >= chains.len() {
        None
    } else if chains[i].name == name {
        Some(i)
    } else {
        find_chain(chains, name, i + 1)
    }
}

/// `chains` with `chain` added: in place of the chain of its name, or else at
/// the end.
pub open spec fn with_chain(chains: Seq<ChainView>, chain: ChainView) -> Seq<ChainView> {
    match find_chain(chains, chain.name, 0) {
        Some(k) => chains.update(k, chain),
        None => chains.push(chain),
    }
}

/// Where a run stands: the chain and the step that come next, the values,
/// and the records so far.
pub ghost struct RunState {
    pub chain: Seq<char>,
    pub pc: nat,
    pub ctx: Bindings,
    pub audit: Seq<EventView>,
}

/// What one step of a run leads to.
pub ghost enum Progress {
    /// The run goes on.
    Next(RunState),
    /// The run ends with a value, or without one, and these records.
    Done(Option<ValueView>, Seq<EventView>),
    /// The run fails.
    Failed(ErrorView),
}

/// What a condition that evaluated to `value` decides: a branch on `false`
/// where there is one, to continue otherwise.
pub open spec fn verdict(value: ValueView, on_false: Option<Seq<char>>) -> OutcomeView {
    if value == ValueView::Bool(false) && on_false is Some {
        OutcomeView::Branch(on_false->0)
    } else {
        OutcomeView::Continue
    }
}

/// One step of a run. A missing chain or the end of a chain ends the run
/// without a value. Otherwise the step's expression is evaluated with the
/// values as variables: a condition continues or branches, an assignment
/// stores the value, an emission ends the run with the value, and a call
/// jumps to the start of another chain. Every executed step leaves one
/// record; an error ends the run.
pub open spec fn rule_step(chains: Seq<ChainView>, funcs: FunctionRegistry, ops: OperatorRegistry, st: RunState) -> Progress {
    match find_chain(chains, st.chain, 0) {
        None => Progress::Done(None, st.audit),
        Some(k) => if st.pc >= chains[k].steps.len() {
            Progress::Done(None, st.audit)
        } else {
            let step = chains[k].steps[st.pc as int];
            match step.action {
                ActionView::When { expr, on_false } => match eval_text(expr, st.ctx, funcs, ops) {
                    Err(e) => Progress::Failed(e),
                    Ok(value) => {
                        let event = EventView {
                            step_name: step.name,
                            expression: expr,
                            result: value,
                            outcome: verdict(value, on_false),
                        };
                        match verdict(value, on_false) {
                            OutcomeView::Branch(target) => Progress::Next(
                                RunState {
                                    chain: target,
                                    pc: 0,
                                    ctx: st.ctx,
                                    audit: st.audit.push(event),
                                },
                            ),
                            _ => Progress::Next(
                                RunState {
                                    chain: st.chain,
                                    pc: st.pc + 1,
                                    ctx: st.ctx,
                                    audit: st.audit.push(event),
                                },
                            ),
                        }
                    },
                },
                ActionView::Let { key, expr } => match eval_text(expr, st.ctx, funcs, ops) {
                    Err(e) => Progress::Failed(e),
                    Ok(value) => Progress::Next(
                        RunState {
                            chain: st.chain,
                            pc: st.pc + 1,
                            ctx: with_field(st.ctx, key, value),
                            audit: st.audit.push(
                                EventView {
                                    step_name: step.name,
                                    expression: expr,
                                    result: value,
                                    outcome: OutcomeView::Continue,
                                },
                            ),
                        },
                    ),
                },
                ActionView::Emit { expr } => match eval_text(expr, st.ctx, funcs, ops) {
                    Err(e) => Progress::Failed(e),
                    Ok(value) => Progress::Done(
                        Some(value),
                        st.audit.push(
                            EventView {
                                step_name: step.name,
                                expression: expr,
                                result: value,
                                outcome: OutcomeView::Emit(value),
                            },
                        ),
                    ),
                },
                ActionView::Call { chain } => Progress::Next(
                    RunState {
                        chain,
                        pc: 0,
                        ctx: st.ctx,
                        audit: st.audit.push(
                            EventView {
                                step_name: step.name,
                                expression: "call "@ + chain,
                                result: ValueView::Null,
                                outcome: OutcomeView::Branch(chain),
                            },
                        ),
                    },
                ),
            }
        },
    }
}

/// What a run gives: the emitted value, if any, and the records.
pub type RunResult = Result<(Option<ValueView>, Seq<EventView>), ErrorView>;

/// A run from the state `st` on, of at most `fuel` steps; a run that takes
/// more is refused.
pub open spec fn rule_run(chains: Seq<ChainView>, funcs: FunctionRegistry, ops: OperatorRegistry, st: RunState, fuel: nat) -> RunResult
    decreases fuel,
{
    match rule_step(chains, funcs, ops, st) {
        Progress::Done(value, audit) => Ok((value, audit)),
        Progress::Failed(e) => Err(e),
        Progress::Next(next) => if fuel == 0 {
            Err(ErrorView::Eval("step limit exceeded"@))
        } else {
            rule_run(chains, funcs, ops, next, (fuel - 1) as nat)
        },
    }
}

/// What running gave.
pub open spec fn run_matches(r: Result<(Option<Value>, AuditLog), EngineError>, expected: RunResult) -> bool {
    match r {
        Ok((value, log)) => expected == Ok::<(Option<ValueView>, Seq<EventView>), ErrorView>(
            (
                match value {
                    Some(v) => Some(v@),
                    None => None,
                },
                log@,
            ),
        ),
        Err(e) => expected == Err::<(Option<ValueView>, Seq<EventView>), ErrorView>(e@),
    }
}

impl RuleEngine {
    /// A rule engine over `expr`, without chains.
    pub fn new(expr: Engine) -> (r: RuleEngine)
        ensures
            r.expr == expr,
            chains_view(r.chains@) == Seq::<ChainView>::empty(),
    {
        let r = RuleEngine { expr, chains: Vec::new() };
        assert(chains_view(r.chains@) =~= Seq::<ChainView>::empty());
        r
    }

    /// Adds `chain`, in place of an earlier chain of its name.
    pub fn add_chain(&mut self, chain: RuleChain)
        ensures
            final(self).expr == old(self).expr,
            chains_view(final(self).chains@) == with_chain(chains_view(old(self).chains@), chain@),
    {
        let ghost before = chains_view(self.chains@);
        let mut i: usize = 0;
        while i < self.chains.len()
            invariant
                i <= self.chains.len(),
                self.expr == old(self).expr,
                self.chains@ == old(self).chains@,
                before == chains_view(self.chains@),
                find_chain(before, chain@.name, 0) == find_chain(before, chain@.name, i as int),
            decreases self.chains.len() - i,
        {
            if text_equal(self.chains[i].name.as_str(), chain.name.as_str()) {
                self.chains[i] = chain;
                assert(chains_view(self.chains@) =~= before.update(i as int, chain@));
                return ;
            }
            i += 1;
        }
        self.chains.push(chain);
        assert(chains_view(self.chains@) =~= before.push(chain@));
    }

    /// This engine with `chain` added.
    pub fn with_chain(self, chain: RuleChain) -> (r: RuleEngine)
        ensures
            r.expr == self.expr,
            chains_view(r.chains@) == with_chain(chains_view(self.chains@), chain@),
    {
        let mut r = self;
        r.add_chain(chain);
        r
    }

    fn chain_index(&self, name: &str) -> (r: Option<usize>)
        ensures
            match r {
                Some(k) => find_chain(chains_view(self.chains@), name@, 0) == Some(k as int) && k
                    < self.chains@.len(),
                None => find_chain(chains_view(self.chains@), name@, 0) is None,
            },
    {
        let mut i: usize = 0;
        while i < self.chains.len()
            invariant
                i <= self.chains.len(),
                find_chain(chains_view(self.chains@), name@, 0) == find_chain(
                    chains_view(self.chains@),
                    name@,
                    i as int,
                ),
            decreases self.chains.len() - i,
        {
            if text_equal(self.chains[i].name.as_str(), name) {
                return Some(i);
            }
            i += 1;
        }
        None
    }

    /// Takes the step `pc` of the chain `chain`.
    #[verifier::rlimit(50)]
    fn step(&self, chain: &str, pc: usize, ctx: &mut RuleContext, audit: &mut AuditLog) -> (r: Result<
        Advance,
        EngineError,
    >)
        ensures
            match rule_step(
                chains_view(self.chains@),
                self.expr.funcs,
                self.expr.ops,
                RunState { chain: chain@, pc: pc as nat, ctx: old(ctx)@, audit: old(audit)@ },
            ) {
                Progress::Next(s) => r matches Ok(Advance::Next(c, p)) && s == (RunState {
                    chain: c@,
                    pc: p as nat,
                    ctx: final(ctx)@,
                    audit: final(audit)@,
                }),
                Progress::Done(v, a) => r matches Ok(Advance::Done(x)) && v == (match x {
                    Some(y) => Some(y@),
                    None => None,
                }) && a == final(audit)@,
                Progress::Failed(e) => r matches Err(x) && x@ == e,
            },
    {
        let ghost chains = chains_view(self.chains@);
        let k = match self.chain_index(chain) {
            Some(k) => k,
            None => {
                return Ok(Advance::Done(None));
            },
        };
        let found = &self.chains[k];
        assert(chains[k as int] == found@);
        if pc >= found.steps.len() {
            return Ok(Advance::Done(None));
        }
        let step = &found.steps[pc];
        assert(chains[k as int].steps[pc as int] == step@);
        let expr_ctx = Context { scope: Scope { vars: ctx.data.duplicate() } };
        match &step.action {
            RuleAction::When { expr, on_false } => {
                let val = match self.expr.parse_and_eval(expr.as_str(), &expr_ctx) {
                    Ok(v) => v,
                    Err(e) => {
                        return Err(e);
                    },
                };
                let branch: Option<String> = match (&val, on_false) {
                    (Value::Bool(false), Some(target)) => Some(target.clone()),
                    _ => None,
                };
                let outcome = match &branch {
                    Some(target) => RuleOutcome::Branch(target.clone()),
                    None => RuleOutcome::Continue,
                };
                assert(outcome@ == verdict(val@, step@.action->When_on_false));
                audit.record(
                    AuditEvent {
                        step_name: step.name.clone(),
                        expression: expr.clone(),
                        result: val,
                        outcome,
                    },
                );
                match branch {
                    Some(target) => Ok(Advance::Next(target, 0)),
                    None => Ok(Advance::Next(chain.to_owned(), pc + 1)),
                }
            },
            RuleAction::Let { key, expr } => {
                let val = match self.expr.parse_and_eval(expr.as_str(), &expr_ctx) {
                    Ok(v) => v,
                    Err(e) => {
                        return Err(e);
                    },
                };
                ctx.data.insert(key.clone(), val.duplicate());
                audit.record(
                    AuditEvent {
                        step_name: step.name.clone(),
                        expression: expr.clone(),
                        result: val,
                        outcome: RuleOutcome::Continue,
                    },
                );
                Ok(Advance::Next(chain.to_owned(), pc + 1))
            },
            RuleAction::Emit { expr } => {
                let val = match self.expr.parse_and_eval(expr.as_str(), &expr_ctx) {
                    Ok(v) => v,
                    Err(e) => {
                        return Err(e);
                    },
                };
                audit.record(
                    AuditEvent {
                        step_name: step.name.clone(),
                        expression: expr.clone(),
                        result: val.duplicate(),
                        outcome: RuleOutcome::Emit(val.duplicate()),
                    },
                );
                Ok(Advance::Done(Some(val)))
            },
            RuleAction::Call { chain: target } => {
                let mut text = chars_of("call ");
                let name = chars_of(target.as_str());
                append_chars(&mut text, &name);
                audit.record(
                    AuditEvent {
                        step_name: step.name.clone(),
                        expression: string_of(&text),
                        result: Value::Null,
                        outcome: RuleOutcome::Branch(target.clone()),
                    },
                );
                Ok(Advance::Next(target.clone(), 0))
            },
        }
    }

    /// Runs the chain `chain_name` with the values `rule_ctx`: the emitted
    /// value, if the run reached an emission, and the records of the steps
    /// taken. A run of more steps than a machine word counts is refused.
    pub fn run(&self, chain_name: &str, rule_ctx: RuleContext) -> (r: Result<
        (Option<Value>, AuditLog),
        EngineError,
    >)
        ensures
            run_matches(
                r,
                rule_run(
                    chains_view(self.chains@),
                    self.expr.funcs,
                    self.expr.ops,
                    RunState { chain: chain_name@, pc: 0, ctx: rule_ctx@, audit: Seq::empty() },
                    usize::MAX as nat,
                ),
            ),
    {
        let ghost goal = rule_run(
            chains_view(self.chains@),
            self.expr.funcs,
            self.expr.ops,
            RunState { chain: chain_name@, pc: 0, ctx: rule_ctx@, audit: Seq::empty() },
            usize::MAX as nat,
        );
        let mut ctx = rule_ctx;
        let mut audit = AuditLog::new();
        let mut current_chain: String = chain_name.to_owned();
        let mut pc: usize = 0;
        let mut fuel: usize = usize::MAX;
        loop
            invariant
                goal == rule_run(
                    chains_view(self.chains@),
                    self.expr.funcs,
                    self.expr.ops,
                    RunState { chain: chain_name@, pc: 0, ctx: rule_ctx@, audit: Seq::empty() },
                    usize::MAX as nat,
                ),
                goal == rule_run(
                    chains_view(self.chains@),
                    self.expr.funcs,
                    self.expr.ops,
                    RunState { chain: current_chain@, pc: pc as nat, ctx: ctx@, audit: audit@ },
                    fuel as nat,
                ),
            decreases fuel,
        {
            match self.step(current_chain.as_str(), pc, &mut ctx, &mut audit) {
                Err(e) => {
                    return Err(e);
                },
                Ok(Advance::Done(value)) => {
                    return Ok((value, audit));
                },
                Ok(Advance::Next(chain, next)) => {
                    if fuel == 0 {
                        return Err(EngineError::Eval(EvalError::new("step limit exceeded")));
                    }
                    current_chain = chain;
                    pc = next;
                    fuel = fuel - 1;
                },
            }
        }
    }
}

/// Where a run goes after a step.
enum Advance {
    Next(String, usize),
    Done(Option<Value>),
}

} // verus!
