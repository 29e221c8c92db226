//! The tree-walking interpreter.
//!
//! A run is modelled as a pure function from an execution tree and a run
//! state (variable store plus cancellation flag) to an outcome: the sequence
//! of requested side effects (delays, notifications) together with the final
//! state, or the error that killed the run, or the mark that the source
//! semantics never returns.  The executable interpreter carries its state in
//! `&mut` parameters and appends the effects it would perform to a vector;
//! its contract says it computes exactly the modelled outcome.
//!
//! Cancellation is cooperative: a `stop` node sets the flag, and every list
//! of siblings checks the flag before each node, so the whole call stack of
//! the run unwinds without touching any other run.
//!
//! A `whileloop` re-evaluates its condition before every iteration, and a
//! condition is currently a literal, so a loop whose condition holds never
//! ends unless its body dies with an error.  The model marks such trees as
//! diverging and the executable interpreter excludes them by contract; every
//! other tree terminates, counted loops by the iteration ceiling.

use vstd::prelude::*;
use crate::model::{
    Condition, ConditionKind, Execution, ExecutionKind, ExecutionView, VariableDecl, VariableKind,
    execution_seq_view, execution_view, lemma_execution_seq_view, opt_body_view, ExecutionWrapper,
};
use crate::render::{render, rendered_text};
use crate::store::{Variable, VariableStore, VariableValue};

verus! {

/// The iteration ceiling of a counted loop: whatever its bounds say, it
/// stops after this many iterations.
pub const MAX_LOOP_ITERATIONS: u64 = 100;

/// Why a run died.
#[derive(PartialEq, Eq, Structural, Clone, Copy, Debug)]
pub enum RunError {
    /// A node's kind needs a field that its payload does not hold.
    MissingField,
    /// A node or condition kind the interpreter does not implement.
    Unimplemented,
}

/// A side effect a run asks its embedder to perform, in order.
#[derive(PartialEq, Eq, Debug)]
pub enum Effect {
    /// Suspend this run (and only this run) for the given time.
    Wait { time_ms: u64 },
    /// Show a notification with the given rendered title and body.
    Notification { title: String, message: String },
}

impl Clone for Effect {
    fn clone(&self) -> (r: Self)
        ensures
            r == *self,
    {
        match self {
            Effect::Wait { time_ms } => Effect::Wait { time_ms: *time_ms },
            Effect::Notification { title, message } => Effect::Notification {
                title: title.clone(),
                message: message.clone(),
            },
        }
    }
}

/// Mathematical form of an effect.
pub ghost enum EffectView {
    Wait { time_ms: u64 },
    Notification { title: Seq<char>, message: Seq<char> },
}

impl View for Effect {
    type V = EffectView;

    open spec fn view(&self) -> EffectView {
        match *self {
            Effect::Wait { time_ms } => EffectView::Wait { time_ms },
            Effect::Notification { title, message } => EffectView::Notification {
                title: title@,
                message: message@,
            },
        }
    }
}

impl DeepView for Effect {
    type V = EffectView;

    open spec fn deep_view(&self) -> EffectView {
        self.view()
    }
}

/// The state a run carries: its variable store and its cancellation flag.
pub ghost struct RunState {
    pub vars: Map<Seq<char>, Variable>,
    pub cancelled: bool,
}

pub open spec fn state_of(vars: Map<Seq<char>, Variable>, cancelled: bool) -> RunState {
    RunState { vars, cancelled }
}

/// What interpreting a tree does: finishes with effects and a final state,
/// dies with an error after some effects, or never returns.
pub ghost enum RunOutcome {
    Done { effects: Seq<EffectView>, state: RunState },
    Failed { error: RunError, effects: Seq<EffectView> },
    Diverges,
}

/// The value of a condition: a literal, absent meaning `false`; any other
/// condition kind is unimplemented.
pub open spec fn eval_condition_spec(c: Condition) -> Result<bool, RunError> {
    match c.kind {
        ConditionKind::Value => Ok(match c.value {
            Some(b) => b,
            None => false,
        }),
        ConditionKind::Unknown => Err(RunError::Unimplemented),
    }
}

/// The name a counted loop binds: that of the last declaration of kind
/// `Value`, if any.
pub open spec fn value_variable(decls: Seq<VariableDecl>) -> Option<Seq<char>>
    decreases decls.len(),
{
    if decls.len() == 0 {
        None
    } else if decls.last().kind is Value {
        Some(decls.last().name@)
    } else {
        value_variable(decls.drop_last())
    }
}

proof fn lemma_value_variable_none(decls: Seq<VariableDecl>)
    requires
        forall|j: int| 0 <= j < decls.len() ==> !((#[trigger] decls[j]).kind is Value),
    ensures
        value_variable(decls) is None,
    decreases decls.len(),
{
    if decls.len() > 0 {
        assert(forall|j: int|
            0 <= j < decls.drop_last().len() ==> #[trigger] decls.drop_last()[j] == decls[j]);
        lemma_value_variable_none(decls.drop_last());
    }
}

proof fn lemma_value_variable_last(decls: Seq<VariableDecl>, i: int)
    requires
        0 <= i < decls.len(),
        decls[i].kind is Value,
        forall|j: int| i < j < decls.len() ==> !((#[trigger] decls[j]).kind is Value),
    ensures
        value_variable(decls) == Some(decls[i].name@),
    decreases decls.len(),
{
    if i == decls.len() - 1 {
    } else {
        assert(forall|j: int|
            0 <= j < decls.drop_last().len() ==> #[trigger] decls.drop_last()[j] == decls[j]);
        lemma_value_variable_last(decls.drop_last(), i);
    }
}

/// Runs the nodes of `code` from position `i` on.  Before each node the
/// cancellation flag is checked; a cancelled run skips everything left.
pub open spec fn run_list(code: Seq<ExecutionView>, i: nat, st: RunState) -> RunOutcome
    decreases code, 0nat, code.len() - i, 0nat,
{
    if i >= code.len() {
        RunOutcome::Done { effects: Seq::empty(), state: st }
    } else if st.cancelled {
        RunOutcome::Done { effects: Seq::empty(), state: st }
    } else {
        match run_node(code[i as int], st) {
            RunOutcome::Done { effects, state } => match run_list(code, i + 1, state) {
                RunOutcome::Done { effects: tail, state: last } => RunOutcome::Done {
                    effects: effects + tail,
                    state: last,
                },
                RunOutcome::Failed { error, effects: tail } => RunOutcome::Failed {
                    error,
                    effects: effects + tail,
                },
                RunOutcome::Diverges => RunOutcome::Diverges,
            },
            RunOutcome::Failed { error, effects } => RunOutcome::Failed { error, effects },
            RunOutcome::Diverges => RunOutcome::Diverges,
        }
    }
}

/// Runs an optional child body; an absent body does nothing.
pub open spec fn run_opt_body(w: Option<Seq<ExecutionView>>, st: RunState) -> RunOutcome
    decreases w, 0nat, 0nat, 1nat,
{
    match w {
        Some(body) => run_list(body, 0, st),
        None => RunOutcome::Done { effects: Seq::empty(), state: st },
    }
}

/// The ascending counted loop: while the counter is at most `to`, bind the
/// loop variable to the counter, run the body, add `step`.  It stops early
/// when the fuel (the iteration ceiling) runs out or the counter would leave
/// the representable range.
pub open spec fn run_fromto_asc(
    w: Option<Seq<ExecutionView>>,
    st: RunState,
    name: Seq<char>,
    i: i64,
    to: i64,
    step: i64,
    fuel: nat,
) -> RunOutcome
    decreases w, fuel, 0nat, 2nat,
{
    if fuel == 0 || i > to {
        RunOutcome::Done { effects: Seq::empty(), state: st }
    } else {
        let bound = RunState {
            vars: st.vars.insert(name, Variable { value: VariableValue::NumberValue(i) }),
            cancelled: st.cancelled,
        };
        match run_opt_body(w, bound) {
            RunOutcome::Done { effects, state } => {
                if i + step > i64::MAX || i + step < i64::MIN {
                    RunOutcome::Done { effects, state }
                } else {
                    match run_fromto_asc(w, state, name, (i + step) as i64, to, step, (fuel
                        - 1) as nat) {
                        RunOutcome::Done { effects: tail, state: last } => RunOutcome::Done {
                            effects: effects + tail,
                            state: last,
                        },
                        RunOutcome::Failed { error, effects: tail } => RunOutcome::Failed {
                            error,
                            effects: effects + tail,
                        },
                        RunOutcome::Diverges => RunOutcome::Diverges,
                    }
                }
            },
            RunOutcome::Failed { error, effects } => RunOutcome::Failed { error, effects },
            RunOutcome::Diverges => RunOutcome::Diverges,
        }
    }
}

/// The descending counted loop: while the counter is at least `to`, run the
/// body and add `step` — without binding the loop variable; the source keeps
/// this asymmetry with the ascending case.  A positive `step` here never
/// reaches the exit condition, which is what the iteration ceiling is for.
pub open spec fn run_fromto_desc(
    w: Option<Seq<ExecutionView>>,
    st: RunState,
    i: i64,
    to: i64,
    step: i64,
    fuel: nat,
) -> RunOutcome
    decreases w, fuel, 0nat, 2nat,
{
    if fuel == 0 || i < to {
        RunOutcome::Done { effects: Seq::empty(), state: st }
    } else {
        match run_opt_body(w, st) {
            RunOutcome::Done { effects, state } => {
                if i + step > i64::MAX || i + step < i64::MIN {
                    RunOutcome::Done { effects, state }
                } else {
                    match run_fromto_desc(w, state, (i + step) as i64, to, step, (fuel - 1) as nat) {
                        RunOutcome::Done { effects: tail, state: last } => RunOutcome::Done {
                            effects: effects + tail,
                            state: last,
                        },
                        RunOutcome::Failed { error, effects: tail } => RunOutcome::Failed {
                            error,
                            effects: effects + tail,
                        },
                        RunOutcome::Diverges => RunOutcome::Diverges,
                    }
                }
            },
            RunOutcome::Failed { error, effects } => RunOutcome::Failed { error, effects },
            RunOutcome::Diverges => RunOutcome::Diverges,
        }
    }
}

/// Runs one node against a state.
pub open spec fn run_node(e: ExecutionView, st: RunState) -> RunOutcome
    decreases e, 0nat, 0nat, 1nat,
{
    match e.kind {
        ExecutionKind::Wait => match e.data.time_ms {
            Some(t) => RunOutcome::Done {
                effects: seq![EffectView::Wait { time_ms: t }],
                state: st,
            },
            None => RunOutcome::Failed { error: RunError::MissingField, effects: Seq::empty() },
        },
        ExecutionKind::Notification => match e.data.title {
            Some(title) => match e.data.message {
                Some(message) => RunOutcome::Done {
                    effects: seq![
                        EffectView::Notification {
                            title: rendered_text(title@, st.vars),
                            message: rendered_text(message@, st.vars),
                        },
                    ],
                    state: st,
                },
                None => RunOutcome::Failed {
                    error: RunError::MissingField,
                    effects: Seq::empty(),
                },
            },
            None => RunOutcome::Failed { error: RunError::MissingField, effects: Seq::empty() },
        },
        ExecutionKind::FromToLoop => {
            let from = match e.data.from {
                Some(v) => v,
                None => 0,
            };
            let to = match e.data.to {
                Some(v) => v,
                None => 4,
            };
            let step = match e.data.step {
                Some(v) => v,
                None => 1,
            };
            if to > from {
                match value_variable(e.variables) {
                    Some(name) => run_fromto_asc(
                        e.code_inside.loop_body,
                        st,
                        name,
                        from,
                        to,
                        step,
                        MAX_LOOP_ITERATIONS as nat,
                    ),
                    None => RunOutcome::Failed {
                        error: RunError::MissingField,
                        effects: Seq::empty(),
                    },
                }
            } else {
                run_fromto_desc(
                    e.code_inside.loop_body,
                    st,
                    from,
                    to,
                    step,
                    MAX_LOOP_ITERATIONS as nat,
                )
            }
        },
        ExecutionKind::WhileLoop => match e.data.condition {
            Some(c) => match eval_condition_spec(c) {
                Err(error) => RunOutcome::Failed { error, effects: Seq::empty() },
                Ok(false) => RunOutcome::Done { effects: Seq::empty(), state: st },
                Ok(true) => match run_opt_body(e.code_inside.then_body, st) {
                    RunOutcome::Failed { error, effects } => RunOutcome::Failed {
                        error,
                        effects,
                    },
                    RunOutcome::Done { effects, state } => RunOutcome::Diverges,
                    RunOutcome::Diverges => RunOutcome::Diverges,
                },
            },
            None => RunOutcome::Failed { error: RunError::MissingField, effects: Seq::empty() },
        },
        ExecutionKind::If => match e.data.condition {
            Some(c) => match eval_condition_spec(c) {
                Err(error) => RunOutcome::Failed { error, effects: Seq::empty() },
                Ok(true) => run_opt_body(e.code_inside.then_body, st),
                Ok(false) => run_opt_body(e.code_inside.else_body, st),
            },
            None => RunOutcome::Failed { error: RunError::MissingField, effects: Seq::empty() },
        },
        ExecutionKind::Stop => RunOutcome::Done {
            effects: Seq::empty(),
            state: RunState { vars: st.vars, cancelled: true },
        },
        ExecutionKind::Unknown => RunOutcome::Failed {
            error: RunError::Unimplemented,
            effects: Seq::empty(),
        },
    }
}

/// The state every run starts in: an empty store, not cancelled.
pub open spec fn initial_state() -> RunState {
    RunState { vars: Map::empty(), cancelled: false }
}

/// What running an initiator's tree from a fresh state does.
pub open spec fn initiator_outcome(code: Seq<ExecutionView>) -> RunOutcome {
    run_list(code, 0, initial_state())
}

/// How an executable result relates to a modelled outcome: on success the
/// effects grew by exactly the modelled effects and store and flag hold the
/// modelled final state; on failure the error and the effects up to it are
/// the modelled ones.  No implementation can exhibit a diverging outcome.
pub open spec fn follows_outcome(
    outcome: RunOutcome,
    r: Result<(), RunError>,
    vars1: Map<Seq<char>, Variable>,
    cancelled1: bool,
    eff0: Seq<EffectView>,
    eff1: Seq<EffectView>,
) -> bool {
    match outcome {
        RunOutcome::Done { effects, state } => {
            &&& r is Ok
            &&& eff1 == eff0 + effects
            &&& vars1 == state.vars
            &&& cancelled1 == state.cancelled
        },
        RunOutcome::Failed { error, effects } => {
            &&& r == Result::<(), RunError>::Err(error)
            &&& eff1 == eff0 + effects
        },
        RunOutcome::Diverges => false,
    }
}

/// Evaluates a condition; only literal values are implemented.
pub fn evaluate_condition(condition: &Condition) -> (r: Result<bool, RunError>)
    ensures
        r == eval_condition_spec(*condition),
{
    match condition.kind {
        ConditionKind::Value => Ok(match condition.value {
            Some(b) => b,
            None => false,
        }),
        ConditionKind::Unknown => Err(RunError::Unimplemented),
    }
}

/// The name of the last loop-variable declaration of kind `Value`.
fn find_value_variable(decls: &Vec<VariableDecl>) -> (r: Option<&String>)
    ensures
        match r {
            Some(name) => value_variable(decls@) == Some(name@),
            None => value_variable(decls@) is None,
        },
{
    let mut i: usize = decls.len();
    while i > 0
        invariant
            i <= decls@.len(),
            forall|j: int| i <= j < decls@.len() ==> !((#[trigger] decls@[j]).kind is Value),
        decreases i,
    {
        i = i - 1;
        match decls[i].kind {
            VariableKind::Value => {
                proof {
                    lemma_value_variable_last(decls@, i as int);
                }
                return Some(&decls[i].name);
            },
            VariableKind::Unknown => {},
        }
    }
    proof {
        lemma_value_variable_none(decls@);
    }
    None
}

/// Runs the nodes of `code` from `idx` on against the carried state,
/// appending the effects the run asks for.
fn execute_from(
    code: &Vec<Execution>,
    idx: usize,
    variables: &mut VariableStore,
    stop_execution: &mut bool,
    effects: &mut Vec<Effect>,
) -> (r: Result<(), RunError>)
    requires
        old(variables).wf(),
        !(run_list(
            execution_seq_view(code@),
            idx as nat,
            state_of(old(variables)@, *old(stop_execution)),
        ) is Diverges),
    ensures
        final(variables).wf(),
        follows_outcome(
            run_list(
                execution_seq_view(code@),
                idx as nat,
                state_of(old(variables)@, *old(stop_execution)),
            ),
            r,
            final(variables)@,
            *final(stop_execution),
            old(effects).deep_view(),
            final(effects).deep_view(),
        ),
    decreases execution_seq_view(code@), 0nat, code@.len() - idx, 0nat,
{
    let ghost st0 = state_of(old(variables)@, *old(stop_execution));
    proof {
        lemma_execution_seq_view(code@);
    }
    if idx >= code.len() {
        proof {
            assert(effects.deep_view() =~= old(effects).deep_view() + Seq::<EffectView>::empty());
        }
        return Ok(());
    }
    if *stop_execution {
        proof {
            assert(effects.deep_view() =~= old(effects).deep_view() + Seq::<EffectView>::empty());
        }
        return Ok(());
    }
    proof {
        assert(decreases_to!(execution_seq_view(code@) => execution_seq_view(code@)[idx as int]));
    }
    match execute_node(&code[idx], variables, stop_execution, effects) {
        Err(error) => Err(error),
        Ok(()) => {
            let ghost st1 = state_of(variables@, *stop_execution);
            let r2 = execute_from(code, idx + 1, variables, stop_execution, effects);
            proof {
                let o1 = run_node(execution_seq_view(code@)[idx as int], st0);
                let o2 = run_list(execution_seq_view(code@), idx as nat + 1, st1);
                match (o1, o2) {
                    (
                        RunOutcome::Done { effects: e1, state: s1 },
                        RunOutcome::Done { effects: e2, state: s2 },
                    ) => {
                        assert(effects.deep_view() =~= old(effects).deep_view() + (e1 + e2));
                    },
                    (
                        RunOutcome::Done { effects: e1, state: s1 },
                        RunOutcome::Failed { error, effects: e2 },
                    ) => {
                        assert(effects.deep_view() =~= old(effects).deep_view() + (e1 + e2));
                    },
                    _ => {},
                }
            }
            r2
        },
    }
}

/// Runs an optional child body.
fn execute_opt_body(
    w: &Option<ExecutionWrapper>,
    variables: &mut VariableStore,
    stop_execution: &mut bool,
    effects: &mut Vec<Effect>,
) -> (r: Result<(), RunError>)
    requires
        old(variables).wf(),
        !(run_opt_body(
            opt_body_view(*w),
            state_of(old(variables)@, *old(stop_execution)),
        ) is Diverges),
    ensures
        final(variables).wf(),
        follows_outcome(
            run_opt_body(opt_body_view(*w), state_of(old(variables)@, *old(stop_execution))),
            r,
            final(variables)@,
            *final(stop_execution),
            old(effects).deep_view(),
            final(effects).deep_view(),
        ),
    decreases opt_body_view(*w), 0nat, 0nat, 1nat,
{
    match w {
        Some(wrapper) => execute_from(&wrapper.executes, 0, variables, stop_execution, effects),
        None => {
            proof {
                assert(effects.deep_view() =~= old(effects).deep_view()
                    + Seq::<EffectView>::empty());
            }
            Ok(())
        },
    }
}

/// The ascending counted loop.
fn execute_fromto_asc(
    w: &Option<ExecutionWrapper>,
    variables: &mut VariableStore,
    stop_execution: &mut bool,
    effects: &mut Vec<Effect>,
    name: &String,
    i: i64,
    to: i64,
    step: i64,
    fuel: u64,
) -> (r: Result<(), RunError>)
    requires
        old(variables).wf(),
        !(run_fromto_asc(
            opt_body_view(*w),
            state_of(old(variables)@, *old(stop_execution)),
            name@,
            i,
            to,
            step,
            fuel as nat,
        ) is Diverges),
    ensures
        final(variables).wf(),
        follows_outcome(
            run_fromto_asc(
                opt_body_view(*w),
                state_of(old(variables)@, *old(stop_execution)),
                name@,
                i,
                to,
                step,
                fuel as nat,
            ),
            r,
            final(variables)@,
            *final(stop_execution),
            old(effects).deep_view(),
            final(effects).deep_view(),
        ),
    decreases opt_body_view(*w), fuel, 0nat, 2nat,
{
    if fuel == 0 || i > to {
        proof {
            assert(effects.deep_view() =~= old(effects).deep_view() + Seq::<EffectView>::empty());
        }
        return Ok(());
    }
    variables.set(name.clone(), VariableValue::NumberValue(i));
    match execute_opt_body(w, variables, stop_execution, effects) {
        Err(error) => Err(error),
        Ok(()) => {
            match i.checked_add(step) {
                None => Ok(()),
                Some(next) => {
                    let ghost st1 = state_of(variables@, *stop_execution);
                    let ghost o1 = run_opt_body(
                        opt_body_view(*w),
                        RunState {
                            vars: old(variables)@.insert(
                                name@,
                                Variable { value: VariableValue::NumberValue(i) },
                            ),
                            cancelled: *old(stop_execution),
                        },
                    );
                    let r2 = execute_fromto_asc(
                        w,
                        variables,
                        stop_execution,
                        effects,
                        name,
                        next,
                        to,
                        step,
                        fuel - 1,
                    );
                    proof {
                        let o2 = run_fromto_asc(
                            opt_body_view(*w),
                            st1,
                            name@,
                            next,
                            to,
                            step,
                            (fuel - 1) as nat,
                        );
                        match (o1, o2) {
                            (
                                RunOutcome::Done { effects: e1, state: s1 },
                                RunOutcome::Done { effects: e2, state: s2 },
                            ) => {
                                assert(effects.deep_view() =~= old(effects).deep_view() + (e1
                                    + e2));
                            },
                            (
                                RunOutcome::Done { effects: e1, state: s1 },
                                RunOutcome::Failed { error, effects: e2 },
                            ) => {
                                assert(effects.deep_view() =~= old(effects).deep_view() + (e1
                                    + e2));
                            },
                            _ => {},
                        }
                    }
                    r2
                },
            }
        },
    }
}

/// The descending counted loop; note that it does not bind the loop
/// variable.
fn execute_fromto_desc(
    w: &Option<ExecutionWrapper>,
    variables: &mut VariableStore,
    stop_execution: &mut bool,
    effects: &mut Vec<Effect>,
    i: i64,
    to: i64,
    step: i64,
    fuel: u64,
) -> (r: Result<(), RunError>)
    requires
        old(variables).wf(),
        !(run_fromto_desc(
            opt_body_view(*w),
            state_of(old(variables)@, *old(stop_execution)),
            i,
            to,
            step,
            fuel as nat,
        ) is Diverges),
    ensures
        final(variables).wf(),
        follows_outcome(
            run_fromto_desc(
                opt_body_view(*w),
                state_of(old(variables)@, *old(stop_execution)),
                i,
                to,
                step,
                fuel as nat,
            ),
            r,
            final(variables)@,
            *final(stop_execution),
            old(effects).deep_view(),
            final(effects).deep_view(),
        ),
    decreases opt_body_view(*w), fuel, 0nat, 2nat,
{
    if fuel == 0 || i < to {
        proof {
            assert(effects.deep_view() =~= old(effects).deep_view() + Seq::<EffectView>::empty());
        }
        return Ok(());
    }
    match execute_opt_body(w, variables, stop_execution, effects) {
        Err(error) => Err(error),
        Ok(()) => {
            match i.checked_add(step) {
                None => Ok(()),
                Some(next) => {
                    let ghost st1 = state_of(variables@, *stop_execution);
                    let ghost o1 = run_opt_body(
                        opt_body_view(*w),
                        state_of(old(variables)@, *old(stop_execution)),
                    );
                    let r2 = execute_fromto_desc(
                        w,
                        variables,
                        stop_execution,
                        effects,
                        next,
                        to,
                        step,
                        fuel - 1,
                    );
                    proof {
                        let o2 = run_fromto_desc(
                            opt_body_view(*w),
                            st1,
                            next,
                            to,
                            step,
                            (fuel - 1) as nat,
                        );
                        match (o1, o2) {
                            (
                                RunOutcome::Done { effects: e1, state: s1 },
                                RunOutcome::Done { effects: e2, state: s2 },
                            ) => {
                                assert(effects.deep_view() =~= old(effects).deep_view() + (e1
                                    + e2));
                            },
                            (
                                RunOutcome::Done { effects: e1, state: s1 },
                                RunOutcome::Failed { error, effects: e2 },
                            ) => {
                                assert(effects.deep_view() =~= old(effects).deep_view() + (e1
                                    + e2));
                            },
                            _ => {},
                        }
                    }
                    r2
                },
            }
        },
    }
}

/// Runs one node.
fn execute_node(
    e: &Execution,
    variables: &mut VariableStore,
    stop_execution: &mut bool,
    effects: &mut Vec<Effect>,
) -> (r: Result<(), RunError>)
    requires
        old(variables).wf(),
        !(run_node(execution_view(*e), state_of(old(variables)@, *old(stop_execution)))
            is Diverges),
    ensures
        final(variables).wf(),
        follows_outcome(
            run_node(execution_view(*e), state_of(old(variables)@, *old(stop_execution))),
            r,
            final(variables)@,
            *final(stop_execution),
            old(effects).deep_view(),
            final(effects).deep_view(),
        ),
    decreases execution_view(*e), 0nat, 0nat, 1nat,
{
    let ghost st0 = state_of(old(variables)@, *old(stop_execution));
    match e.kind {
        ExecutionKind::Wait => match e.data.time_ms {
            Some(t) => {
                effects.push(Effect::Wait { time_ms: t });
                proof {
                    assert(effects.deep_view() =~= old(effects).deep_view() + seq![
                        EffectView::Wait { time_ms: t },
                    ]);
                }
                Ok(())
            },
            None => {
                proof {
                    assert(effects.deep_view() =~= old(effects).deep_view()
                        + Seq::<EffectView>::empty());
                }
                Err(RunError::MissingField)
            },
        },
        ExecutionKind::Notification => {
            let title = match &e.data.title {
                Some(t) => t,
                None => {
                    proof {
                        assert(effects.deep_view() =~= old(effects).deep_view()
                            + Seq::<EffectView>::empty());
                    }
                    return Err(RunError::MissingField);
                },
            };
            let message = match &e.data.message {
                Some(m) => m,
                None => {
                    proof {
                        assert(effects.deep_view() =~= old(effects).deep_view()
                            + Seq::<EffectView>::empty());
                    }
                    return Err(RunError::MissingField);
                },
            };
            let rendered_title = render(title.as_str(), variables);
            let rendered_message = render(message.as_str(), variables);
            effects.push(
                Effect::Notification { title: rendered_title, message: rendered_message },
            );
            proof {
                assert(effects.deep_view() =~= old(effects).deep_view() + seq![
                    EffectView::Notification {
                        title: rendered_text(title@, st0.vars),
                        message: rendered_text(message@, st0.vars),
                    },
                ]);
            }
            Ok(())
        },
        ExecutionKind::FromToLoop => {
            let from = match e.data.from {
                Some(v) => v,
                None => 0,
            };
            let to = match e.data.to {
                Some(v) => v,
                None => 4,
            };
            let step = match e.data.step {
                Some(v) => v,
                None => 1,
            };
            if to > from {
                match find_value_variable(&e.variables) {
                    Some(name) => execute_fromto_asc(
                        &e.code_inside.loop_body,
                        variables,
                        stop_execution,
                        effects,
                        name,
                        from,
                        to,
                        step,
                        MAX_LOOP_ITERATIONS,
                    ),
                    None => {
                        proof {
                            assert(effects.deep_view() =~= old(effects).deep_view()
                                + Seq::<EffectView>::empty());
                        }
                        Err(RunError::MissingField)
                    },
                }
            } else {
                execute_fromto_desc(
                    &e.code_inside.loop_body,
                    variables,
                    stop_execution,
                    effects,
                    from,
                    to,
                    step,
                    MAX_LOOP_ITERATIONS,
                )
            }
        },
        ExecutionKind::WhileLoop => {
            let condition = match &e.data.condition {
                Some(c) => c,
                None => {
                    proof {
                        assert(effects.deep_view() =~= old(effects).deep_view()
                            + Seq::<EffectView>::empty());
                    }
                    return Err(RunError::MissingField);
                },
            };
            match evaluate_condition(condition) {
                Err(error) => {
                    proof {
                        assert(effects.deep_view() =~= old(effects).deep_view()
                            + Seq::<EffectView>::empty());
                    }
                    Err(error)
                },
                Ok(false) => {
                    proof {
                        assert(effects.deep_view() =~= old(effects).deep_view()
                            + Seq::<EffectView>::empty());
                    }
                    Ok(())
                },
                Ok(true) => {
                    match execute_opt_body(
                        &e.code_inside.then_body,
                        variables,
                        stop_execution,
                        effects,
                    ) {
                        Err(error) => Err(error),
                        Ok(()) => {
                            // A literal condition cannot change, so a body
                            // that returns leaves the source spinning
                            // forever; the contract excludes such trees.
                            proof {
                                assert(false);
                            }
                            Err(RunError::Unimplemented)
                        },
                    }
                },
            }
        },
        ExecutionKind::If => {
            let condition = match &e.data.condition {
                Some(c) => c,
                None => {
                    proof {
                        assert(effects.deep_view() =~= old(effects).deep_view()
                            + Seq::<EffectView>::empty());
                    }
                    return Err(RunError::MissingField);
                },
            };
            match evaluate_condition(condition) {
                Err(error) => {
                    proof {
                        assert(effects.deep_view() =~= old(effects).deep_view()
                            + Seq::<EffectView>::empty());
                    }
                    Err(error)
                },
                Ok(true) => execute_opt_body(
                    &e.code_inside.then_body,
                    variables,
                    stop_execution,
                    effects,
                ),
                Ok(false) => execute_opt_body(
                    &e.code_inside.else_body,
                    variables,
                    stop_execution,
                    effects,
                ),
            }
        },
        ExecutionKind::Stop => {
            *stop_execution = true;
            proof {
                assert(effects.deep_view() =~= old(effects).deep_view()
                    + Seq::<EffectView>::empty());
            }
            Ok(())
        },
        ExecutionKind::Unknown => {
            proof {
                assert(effects.deep_view() =~= old(effects).deep_view()
                    + Seq::<EffectView>::empty());
            }
            Err(RunError::Unimplemented)
        },
    }
}

/// Runs an execution tree against the carried store and cancellation flag,
/// appending every effect the run asks for to `effects`, in order.
pub fn execute_macro_code(
    code: &Vec<Execution>,
    variables: &mut VariableStore,
    stop_execution: &mut bool,
    effects: &mut Vec<Effect>,
) -> (r: Result<(), RunError>)
    requires
        old(variables).wf(),
        !(run_list(
            execution_seq_view(code@),
            0,
            state_of(old(variables)@, *old(stop_execution)),
        ) is Diverges),
    ensures
        final(variables).wf(),
        follows_outcome(
            run_list(
                execution_seq_view(code@),
                0,
                state_of(old(variables)@, *old(stop_execution)),
            ),
            r,
            final(variables)@,
            *final(stop_execution),
            old(effects).deep_view(),
            final(effects).deep_view(),
        ),
{
    execute_from(code, 0, variables, stop_execution, effects)
}

/// One run of an initiator's tree: a fresh store, a clear flag, and the
/// effects the run asks for — or the error that killed it.
pub fn run_initiator(executes: &Vec<Execution>) -> (r: Result<Vec<Effect>, RunError>)
    requires
        !(initiator_outcome(execution_seq_view(executes@)) is Diverges),
    ensures
        match initiator_outcome(execution_seq_view(executes@)) {
            RunOutcome::Done { effects, state } => r matches Ok(out) && out.deep_view() == effects,
            RunOutcome::Failed { error, effects } => r == Result::<Vec<Effect>, RunError>::Err(
                error,
            ),
            RunOutcome::Diverges => false,
        },
{
    let mut variables = VariableStore::new();
    let mut stop_execution = false;
    let mut effects: Vec<Effect> = Vec::new();
    proof {
        assert(effects.deep_view() =~= Seq::<EffectView>::empty());
    }
    let result = execute_macro_code(executes, &mut variables, &mut stop_execution, &mut effects);
    proof {
        match initiator_outcome(execution_seq_view(executes@)) {
            RunOutcome::Done { effects: es, state } => {
                assert(effects.deep_view() =~= es);
            },
            _ => {},
        }
    }
    match result {
        Ok(()) => Ok(effects),
        Err(error) => Err(error),
    }
}

/// A cancelled state is absorbing: from it, any list of nodes runs nothing —
/// no effect is performed and the state is returned untouched.  A `stop`
/// node cancels the state, so everything after it, at this and every
/// enclosing level of the same run, is skipped.
pub proof fn lemma_cancelled_runs_nothing(code: Seq<ExecutionView>, i: nat, st: RunState)
    requires
        st.cancelled,
    ensures
        run_list(code, i, st) == (RunOutcome::Done { effects: Seq::<EffectView>::empty(), state: st }),
{
}

/// No conditional loop in this node or below it has a condition that
/// evaluates to `true` — the one shape of tree whose run never returns.
/// (The check is conservative: it also rejects a live loop whose body would
/// die with an error on its first pass.)
pub open spec fn node_loopsafe(e: ExecutionView) -> bool
    decreases e, 0nat, 0nat, 1nat,
{
    &&& (e.kind is WhileLoop ==> match e.data.condition {
        Some(c) => eval_condition_spec(c) != Result::<bool, RunError>::Ok(true),
        None => true,
    })
    &&& opt_loopsafe(e.code_inside.loop_body)
    &&& opt_loopsafe(e.code_inside.then_body)
    &&& opt_loopsafe(e.code_inside.else_body)
}

pub open spec fn opt_loopsafe(w: Option<Seq<ExecutionView>>) -> bool
    decreases w, 0nat, 0nat, 1nat,
{
    match w {
        Some(body) => list_loopsafe(body, 0),
        None => true,
    }
}

pub open spec fn list_loopsafe(code: Seq<ExecutionView>, i: nat) -> bool
    decreases code, 0nat, code.len() - i, 0nat,
{
    i >= code.len() || (node_loopsafe(code[i as int]) && list_loopsafe(code, i + 1))
}

/// A loop-safe tree halts from every state: its outcome is never the
/// diverging one.
pub proof fn lemma_loopsafe_halts(code: Seq<ExecutionView>, i: nat, st: RunState)
    requires
        list_loopsafe(code, i),
    ensures
        !(run_list(code, i, st) is Diverges),
    decreases code, 0nat, code.len() - i, 0nat,
{
    if i < code.len() && !st.cancelled {
        lemma_loopsafe_node_halts(code[i as int], st);
        match run_node(code[i as int], st) {
            RunOutcome::Done { effects, state } => {
                lemma_loopsafe_halts(code, i + 1, state);
            },
            _ => {},
        }
    }
}

proof fn lemma_loopsafe_opt_halts(w: Option<Seq<ExecutionView>>, st: RunState)
    requires
        opt_loopsafe(w),
    ensures
        !(run_opt_body(w, st) is Diverges),
    decreases w, 0nat, 0nat, 1nat,
{
    match w {
        Some(body) => {
            lemma_loopsafe_halts(body, 0, st);
        },
        None => {},
    }
}

proof fn lemma_loopsafe_asc_halts(
    w: Option<Seq<ExecutionView>>,
    st: RunState,
    name: Seq<char>,
    i: i64,
    to: i64,
    step: i64,
    fuel: nat,
)
    requires
        opt_loopsafe(w),
    ensures
        !(run_fromto_asc(w, st, name, i, to, step, fuel) is Diverges),
    decreases w, fuel, 0nat, 2nat,
{
    if fuel != 0 && i <= to {
        let bound = RunState {
            vars: st.vars.insert(name, Variable { value: VariableValue::NumberValue(i) }),
            cancelled: st.cancelled,
        };
        lemma_loopsafe_opt_halts(w, bound);
        match run_opt_body(w, bound) {
            RunOutcome::Done { effects, state } => {
                if !(i + step > i64::MAX || i + step < i64::MIN) {
                    lemma_loopsafe_asc_halts(w, state, name, (i + step) as i64, to, step, (fuel
                        - 1) as nat);
                }
            },
            _ => {},
        }
    }
}

proof fn lemma_loopsafe_desc_halts(
    w: Option<Seq<ExecutionView>>,
    st: RunState,
    i: i64,
    to: i64,
    step: i64,
    fuel: nat,
)
    requires
        opt_loopsafe(w),
    ensures
        !(run_fromto_desc(w, st, i, to, step, fuel) is Diverges),
    decreases w, fuel, 0nat, 2nat,
{
    if fuel != 0 && i >= to {
        lemma_loopsafe_opt_halts(w, st);
        match run_opt_body(w, st) {
            RunOutcome::Done { effects, state } => {
                if !(i + step > i64::MAX || i + step < i64::MIN) {
                    lemma_loopsafe_desc_halts(w, state, (i + step) as i64, to, step, (fuel
                        - 1) as nat);
                }
            },
            _ => {},
        }
    }
}

proof fn lemma_loopsafe_node_halts(e: ExecutionView, st: RunState)
    requires
        node_loopsafe(e),
    ensures
        !(run_node(e, st) is Diverges),
    decreases e, 0nat, 0nat, 1nat,
{
    match e.kind {
        ExecutionKind::FromToLoop => {
            let from = match e.data.from {
                Some(v) => v,
                None => 0,
            };
            let to = match e.data.to {
                Some(v) => v,
                None => 4,
            };
            let step = match e.data.step {
                Some(v) => v,
                None => 1,
            };
            if to > from {
                match value_variable(e.variables) {
                    Some(name) => {
                        lemma_loopsafe_asc_halts(
                            e.code_inside.loop_body,
                            st,
                            name,
                            from,
                            to,
                            step,
                            MAX_LOOP_ITERATIONS as nat,
                        );
                    },
                    None => {},
                }
            } else {
                lemma_loopsafe_desc_halts(
                    e.code_inside.loop_body,
                    st,
                    from,
                    to,
                    step,
                    MAX_LOOP_ITERATIONS as nat,
                );
            }
        },
        ExecutionKind::WhileLoop => {
            lemma_loopsafe_opt_halts(e.code_inside.then_body, st);
        },
        ExecutionKind::If => {
            lemma_loopsafe_opt_halts(e.code_inside.then_body, st);
            lemma_loopsafe_opt_halts(e.code_inside.else_body, st);
        },
        _ => {},
    }
}

fn check_node_loopsafe(e: &Execution) -> (r: bool)
    ensures
        r == node_loopsafe(execution_view(*e)),
    decreases execution_view(*e), 0nat, 0nat, 1nat,
{
    let own = match e.kind {
        ExecutionKind::WhileLoop => match &e.data.condition {
            Some(c) => match evaluate_condition(c) {
                Ok(true) => false,
                _ => true,
            },
            None => true,
        },
        _ => true,
    };
    proof {
        let ev = execution_view(*e);
        assert(ev.code_inside.loop_body == opt_body_view(e.code_inside.loop_body));
        assert(ev.code_inside.then_body == opt_body_view(e.code_inside.then_body));
        assert(ev.code_inside.else_body == opt_body_view(e.code_inside.else_body));
        assert(decreases_to!(ev => ev.code_inside.loop_body));
        assert(decreases_to!(ev => ev.code_inside.then_body));
        assert(decreases_to!(ev => ev.code_inside.else_body));
    }
    own && check_opt_loopsafe(&e.code_inside.loop_body) && check_opt_loopsafe(
        &e.code_inside.then_body,
    ) && check_opt_loopsafe(&e.code_inside.else_body)
}

fn check_opt_loopsafe(w: &Option<ExecutionWrapper>) -> (r: bool)
    ensures
        r == opt_loopsafe(opt_body_view(*w)),
    decreases opt_body_view(*w), 0nat, 0nat, 1nat,
{
    match w {
        Some(wrapper) => {
            proof {
                let ov = opt_body_view(*w);
                assert(ov == Some(execution_seq_view(wrapper.executes@)));
                assert(decreases_to!(ov => ov->0));
                assert(ov->0 == execution_seq_view(wrapper.executes@));
            }
            check_list_loopsafe(&wrapper.executes, 0)
        },
        None => true,
    }
}

fn check_list_loopsafe(code: &Vec<Execution>, i: usize) -> (r: bool)
    ensures
        r == list_loopsafe(execution_seq_view(code@), i as nat),
    decreases execution_seq_view(code@), 0nat, code@.len() - i, 0nat,
{
    proof {
        lemma_execution_seq_view(code@);
    }
    if i >= code.len() {
        true
    } else {
        proof {
            assert(decreases_to!(execution_seq_view(code@) => execution_seq_view(
                code@,
            )[i as int]));
        }
        check_node_loopsafe(&code[i]) && check_list_loopsafe(code, i + 1)
    }
}

/// Whether a tree is free of conditional loops whose condition holds — the
/// one shape whose run never returns.  A tree that passes this check may be
/// handed to `run_initiator` from any state.
pub fn divergence_free(code: &Vec<Execution>) -> (r: bool)
    ensures
        r == list_loopsafe(execution_seq_view(code@), 0),
{
    check_list_loopsafe(code, 0)
}

/// Runs an initiator's tree after checking it halts: `None` when the tree
/// would never return, otherwise the run's result.
pub fn try_run_initiator(executes: &Vec<Execution>) -> (r: Option<
    Result<Vec<Effect>, RunError>,
>)
    ensures
        match r {
            Some(inner) => {
                &&& list_loopsafe(execution_seq_view(executes@), 0)
                &&& match initiator_outcome(execution_seq_view(executes@)) {
                    RunOutcome::Done { effects, state } => inner matches Ok(out)
                        && out.deep_view() == effects,
                    RunOutcome::Failed { error, effects } => inner == Result::<
                        Vec<Effect>,
                        RunError,
                    >::Err(error),
                    RunOutcome::Diverges => false,
                }
            },
            None => !list_loopsafe(execution_seq_view(executes@), 0),
        },
{
    if divergence_free(executes) {
        proof {
            lemma_loopsafe_halts(execution_seq_view(executes@), 0, initial_state());
        }
        Some(run_initiator(executes))
    } else {
        None
    }
}

/// Whatever node of a list cancels the run, the list's outcome is that
/// node's alone: the siblings after it add no effect and leave its state
/// untouched.  With `lemma_cancelled_runs_nothing` this holds at every
/// enclosing level, since each one continues in the cancelled state.
pub proof fn lemma_cancelling_node_ends_list(code: Seq<ExecutionView>, i: nat, st: RunState)
    ensures
        match run_node(code[i as int], st) {
            RunOutcome::Done { effects, state } => (i < code.len() && !st.cancelled
                && state.cancelled) ==> run_list(code, i, st) == (RunOutcome::Done {
                effects,
                state,
            }),
            _ => true,
        },
{
    match run_node(code[i as int], st) {
        RunOutcome::Done { effects, state } => {
            if i < code.len() && !st.cancelled && state.cancelled {
                lemma_cancelled_runs_nothing(code, i + 1, state);
                assert(effects + Seq::<EffectView>::empty() =~= effects);
            }
        },
        _ => {},
    }
}

/// The iteration ceiling, for any body and any bounds: a descending counted
/// loop given `fuel` runs its body at most `fuel` times, so when each
/// body-run contributes at most `c` effects the loop contributes at most
/// `fuel * c` — in particular, counting the wrong way cannot get more than
/// `MAX_LOOP_ITERATIONS` body-runs' worth of effects out of it.
pub proof fn lemma_fromto_desc_bounded(
    w: Option<Seq<ExecutionView>>,
    st: RunState,
    i: i64,
    to: i64,
    step: i64,
    fuel: nat,
    c: nat,
)
    requires
        forall|st2: RunState|
            match #[trigger] run_opt_body(w, st2) {
                RunOutcome::Done { effects, state } => effects.len() <= c,
                RunOutcome::Failed { error, effects } => effects.len() <= c,
                RunOutcome::Diverges => true,
            },
    ensures
        match run_fromto_desc(w, st, i, to, step, fuel) {
            RunOutcome::Done { effects, state } => effects.len() <= fuel * c,
            RunOutcome::Failed { error, effects } => effects.len() <= fuel * c,
            RunOutcome::Diverges => true,
        },
    decreases fuel,
{
    if fuel != 0 && i >= to {
        assert(c <= fuel * c) by (nonlinear_arith)
            requires
                fuel >= 1,
        ;
        match run_opt_body(w, st) {
            RunOutcome::Done { effects, state } => {
                if !(i + step > i64::MAX || i + step < i64::MIN) {
                    lemma_fromto_desc_bounded(w, state, (i + step) as i64, to, step, (fuel
                        - 1) as nat, c);
                    assert(c + (fuel - 1) * c == fuel * c) by (nonlinear_arith);
                }
            },
            _ => {},
        }
    }
}

/// A node that waits `t` milliseconds and holds nothing else.
pub open spec fn wait_node_view(t: u64) -> ExecutionView {
    ExecutionView {
        kind: ExecutionKind::Wait,
        data: crate::model::ExecutionData {
            time_ms: Some(t),
            title: None,
            message: None,
            from: None,
            to: None,
            step: None,
            condition: None,
        },
        variables: Seq::empty(),
        code_inside: crate::model::CodeInsideView {
            loop_body: None,
            then_body: None,
            else_body: None,
        },
    }
}

proof fn lemma_desc_wait_loop(
    w: Option<Seq<ExecutionView>>,
    st: RunState,
    i: i64,
    to: i64,
    step: i64,
    fuel: nat,
    t: u64,
)
    requires
        !st.cancelled,
        i >= to,
        step > 0,
        i + fuel * step <= i64::MAX,
        w == Some(seq![wait_node_view(t)]),
    ensures
        run_fromto_desc(w, st, i, to, step, fuel) == (RunOutcome::Done {
            effects: Seq::new(fuel, |k: int| EffectView::Wait { time_ms: t }),
            state: st,
        }),
    decreases fuel,
{
    if fuel == 0 {
        assert(Seq::new(0, |k: int| EffectView::Wait { time_ms: t })
            =~= Seq::<EffectView>::empty());
    } else {
        let body = seq![wait_node_view(t)];
        assert(run_node(body[0], st) == (RunOutcome::Done {
            effects: seq![EffectView::Wait { time_ms: t }],
            state: st,
        }));
        assert(run_opt_body(w, st) == (RunOutcome::Done {
            effects: seq![EffectView::Wait { time_ms: t }] + Seq::<EffectView>::empty(),
            state: st,
        }));
        assert(fuel * step >= 1 * step) by (nonlinear_arith)
            requires
                fuel >= 1,
                step > 0,
        ;
        assert(i + step <= i64::MAX);
        assert((i + step) + (fuel - 1) * step == i + fuel * step) by (nonlinear_arith);
        lemma_desc_wait_loop(w, st, (i + step) as i64, to, step, (fuel - 1) as nat, t);
        assert((seq![EffectView::Wait { time_ms: t }] + Seq::<EffectView>::empty()) + Seq::new(
            (fuel - 1) as nat,
            |k: int| EffectView::Wait { time_ms: t },
        ) =~= Seq::new(fuel, |k: int| EffectView::Wait { time_ms: t }));
    }
}

/// The runaway-loop guard: a counted loop told to count the wrong way —
/// `from` not above `to`, so the descending branch runs, but a positive
/// `step`, so the exit condition `counter < to` never arrives — terminates
/// anyway: the ceiling cuts it off after exactly `MAX_LOOP_ITERATIONS` runs
/// of the body.  Stated for a body of one wait node; the bound on `from`
/// keeps the counter representable, and the loop leaves store and flag
/// untouched — the descending branch binds no loop variable.
pub proof fn lemma_runaway_fromto_hits_ceiling(
    e: ExecutionView,
    st: RunState,
    from: i64,
    to: i64,
    step: i64,
    t: u64,
)
    requires
        !st.cancelled,
        e.kind is FromToLoop,
        e.data.from == Some(from),
        e.data.to == Some(to),
        e.data.step == Some(step),
        to <= from,
        step > 0,
        from + (MAX_LOOP_ITERATIONS as int) * step <= i64::MAX,
        e.code_inside.loop_body == Some(seq![wait_node_view(t)]),
    ensures
        run_node(e, st) == (RunOutcome::Done {
            effects: Seq::new(
                MAX_LOOP_ITERATIONS as nat,
                |k: int| EffectView::Wait { time_ms: t },
            ),
            state: st,
        }),
{
    lemma_desc_wait_loop(
        e.code_inside.loop_body,
        st,
        from,
        to,
        step,
        MAX_LOOP_ITERATIONS as nat,
        t,
    );
}

} // verus!
