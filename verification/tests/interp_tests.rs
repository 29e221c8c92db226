use code_macros::interp::{
    divergence_free, evaluate_condition, run_initiator, try_run_initiator, Effect, RunError,
    MAX_LOOP_ITERATIONS,
};
use code_macros::model::{
    Condition, ConditionKind, Execution, ExecutionCodeInside, ExecutionData, ExecutionKind,
    ExecutionWrapper, VariableDecl, VariableKind,
};

fn empty_data() -> ExecutionData {
    ExecutionData {
        time_ms: None,
        title: None,
        message: None,
        from: None,
        to: None,
        step: None,
        condition: None,
    }
}

fn empty_inside() -> ExecutionCodeInside {
    ExecutionCodeInside {
        loop_body: None,
        then_body: None,
        else_body: None,
    }
}

fn node(kind: ExecutionKind, data: ExecutionData, inside: ExecutionCodeInside) -> Execution {
    Execution {
        kind,
        data,
        variables: Vec::new(),
        code_inside: inside,
    }
}

fn wait(ms: u64) -> Execution {
    let mut data = empty_data();
    data.time_ms = Some(ms);
    node(ExecutionKind::Wait, data, empty_inside())
}

fn notification(title: &str, message: &str) -> Execution {
    let mut data = empty_data();
    data.title = Some(title.to_string());
    data.message = Some(message.to_string());
    node(ExecutionKind::Notification, data, empty_inside())
}

fn fromto(from: i64, to: i64, step: i64, var: Option<&str>, body: Vec<Execution>) -> Execution {
    let mut data = empty_data();
    data.from = Some(from);
    data.to = Some(to);
    data.step = Some(step);
    let mut inside = empty_inside();
    inside.loop_body = Some(ExecutionWrapper { executes: body });
    let mut n = node(ExecutionKind::FromToLoop, data, inside);
    if let Some(name) = var {
        n.variables.push(VariableDecl {
            kind: VariableKind::Value,
            name: name.to_string(),
        });
    }
    n
}

fn literal(value: bool) -> Condition {
    Condition {
        kind: ConditionKind::Value,
        value: Some(value),
    }
}

fn if_node(condition: Condition, then_body: Vec<Execution>, else_body: Vec<Execution>) -> Execution {
    let mut data = empty_data();
    data.condition = Some(condition);
    let mut inside = empty_inside();
    inside.then_body = Some(ExecutionWrapper { executes: then_body });
    inside.else_body = Some(ExecutionWrapper { executes: else_body });
    node(ExecutionKind::If, data, inside)
}

fn while_node(condition: Option<Condition>, body: Vec<Execution>) -> Execution {
    let mut data = empty_data();
    data.condition = condition;
    let mut inside = empty_inside();
    inside.then_body = Some(ExecutionWrapper { executes: body });
    node(ExecutionKind::WhileLoop, data, inside)
}

fn stop() -> Execution {
    node(ExecutionKind::Stop, empty_data(), empty_inside())
}

fn notification_texts(effects: &[Effect]) -> Vec<String> {
    effects
        .iter()
        .map(|e| match e {
            Effect::Notification { message, .. } => message.clone(),
            Effect::Wait { time_ms } => panic!("unexpected wait of {} ms", time_ms),
        })
        .collect()
}

#[test]
fn wait_emits_delay_effect() {
    let effects = run_initiator(&vec![wait(500)]).expect("run succeeds");
    assert_eq!(effects, vec![Effect::Wait { time_ms: 500 }]);
}

#[test]
fn notification_renders_against_store() {
    let effects = run_initiator(&vec![notification("hi {{x}}", "m {{x}}")]).expect("run succeeds");
    assert_eq!(
        effects,
        vec![Effect::Notification {
            title: "hi undefined".to_string(),
            message: "m undefined".to_string(),
        }]
    );
}

#[test]
fn fromto_binds_ascending_in_order() {
    // from 0 to 4 step 1: the loop variable is bound to 0,1,2,3,4, once each.
    let tree = vec![fromto(0, 4, 1, Some("i"), vec![notification("t", "{{i}}")])];
    let effects = run_initiator(&tree).expect("run succeeds");
    assert_eq!(notification_texts(&effects), vec!["0", "1", "2", "3", "4"]);
}

#[test]
fn fromto_defaults_run_zero_to_four() {
    // Absent bounds default to from 0, to 4, step 1.
    let mut n = fromto(0, 0, 0, Some("i"), vec![notification("t", "{{i}}")]);
    n.data.from = None;
    n.data.to = None;
    n.data.step = None;
    let effects = run_initiator(&vec![n]).expect("run succeeds");
    assert_eq!(notification_texts(&effects), vec!["0", "1", "2", "3", "4"]);
}

#[test]
fn fromto_runaway_descending_stops_at_ceiling() {
    // from > to with a positive step never reaches the exit condition; the
    // ceiling stops it after exactly MAX_LOOP_ITERATIONS iterations.
    let tree = vec![fromto(4, 0, 1, None, vec![wait(1)])];
    let effects = run_initiator(&tree).expect("run succeeds");
    assert_eq!(effects.len(), MAX_LOOP_ITERATIONS as usize);
    assert!(effects.iter().all(|e| *e == Effect::Wait { time_ms: 1 }));
}

#[test]
fn fromto_descending_does_not_bind_variable() {
    // The descending branch runs the body but never binds the loop
    // variable, unlike the ascending branch.
    let tree = vec![fromto(2, 0, -1, Some("i"), vec![notification("t", "{{i}}")])];
    let effects = run_initiator(&tree).expect("run succeeds");
    assert_eq!(
        notification_texts(&effects),
        vec!["undefined", "undefined", "undefined"]
    );
}

#[test]
fn fromto_ascending_without_variable_fails() {
    let tree = vec![fromto(0, 4, 1, None, vec![])];
    assert_eq!(run_initiator(&tree), Err(RunError::MissingField));
}

#[test]
fn fromto_descending_without_variable_succeeds() {
    let tree = vec![fromto(1, 0, -1, None, vec![wait(1)])];
    let effects = run_initiator(&tree).expect("run succeeds");
    assert_eq!(effects.len(), 2);
}

#[test]
fn stop_skips_siblings_at_every_level() {
    // A stop inside the then branch cancels the run: the node after the
    // stop, and every sibling after the `if` at the enclosing level, is
    // skipped.
    let tree = vec![
        notification("t", "before"),
        if_node(literal(true), vec![stop(), wait(100)], vec![]),
        wait(200),
        notification("t", "after"),
    ];
    let effects = run_initiator(&tree).expect("run succeeds");
    assert_eq!(
        effects,
        vec![Effect::Notification {
            title: "t".to_string(),
            message: "before".to_string(),
        }]
    );
}

#[test]
fn stop_does_not_affect_another_run() {
    // Each run owns its own store and flag: a run that stopped leaves a
    // second run of another tree untouched.
    let stopping = vec![if_node(literal(true), vec![stop()], vec![]), wait(1)];
    let sibling = vec![notification("t", "still runs")];
    assert_eq!(run_initiator(&stopping).expect("run succeeds"), vec![]);
    let effects = run_initiator(&sibling).expect("run succeeds");
    assert_eq!(notification_texts(&effects), vec!["still runs"]);
}

#[test]
fn if_takes_else_branch_on_false() {
    let tree = vec![if_node(
        literal(false),
        vec![notification("t", "then")],
        vec![notification("t", "else")],
    )];
    let effects = run_initiator(&tree).expect("run succeeds");
    assert_eq!(notification_texts(&effects), vec!["else"]);
}

#[test]
fn if_condition_value_absent_means_false() {
    let c = Condition {
        kind: ConditionKind::Value,
        value: None,
    };
    let tree = vec![if_node(c, vec![notification("t", "then")], vec![notification("t", "else")])];
    let effects = run_initiator(&tree).expect("run succeeds");
    assert_eq!(notification_texts(&effects), vec!["else"]);
}

#[test]
fn while_false_runs_nothing() {
    let tree = vec![while_node(Some(literal(false)), vec![notification("t", "x")])];
    let effects = run_initiator(&tree).expect("run succeeds");
    assert_eq!(effects, vec![]);
}

#[test]
fn while_without_condition_fails() {
    let tree = vec![while_node(None, vec![])];
    assert_eq!(run_initiator(&tree), Err(RunError::MissingField));
}

#[test]
fn wait_without_time_fails() {
    let tree = vec![node(ExecutionKind::Wait, empty_data(), empty_inside())];
    assert_eq!(run_initiator(&tree), Err(RunError::MissingField));
}

#[test]
fn notification_without_message_fails() {
    let mut data = empty_data();
    data.title = Some("t".to_string());
    let tree = vec![node(ExecutionKind::Notification, data, empty_inside())];
    assert_eq!(run_initiator(&tree), Err(RunError::MissingField));
}

#[test]
fn unknown_node_kind_fails_run() {
    let tree = vec![
        notification("t", "first"),
        node(ExecutionKind::Unknown, empty_data(), empty_inside()),
    ];
    assert_eq!(run_initiator(&tree), Err(RunError::Unimplemented));
}

#[test]
fn unknown_condition_kind_fails_run() {
    let c = Condition {
        kind: ConditionKind::Unknown,
        value: Some(true),
    };
    let tree = vec![if_node(c, vec![], vec![])];
    assert_eq!(run_initiator(&tree), Err(RunError::Unimplemented));
}

#[test]
fn evaluate_condition_literal() {
    assert_eq!(evaluate_condition(&literal(true)), Ok(true));
    assert_eq!(evaluate_condition(&literal(false)), Ok(false));
    let absent = Condition {
        kind: ConditionKind::Value,
        value: None,
    };
    assert_eq!(evaluate_condition(&absent), Ok(false));
    let unknown = Condition {
        kind: ConditionKind::Unknown,
        value: None,
    };
    assert_eq!(evaluate_condition(&unknown), Err(RunError::Unimplemented));
}

#[test]
fn fromto_last_value_declaration_wins() {
    let mut n = fromto(0, 1, 1, Some("a"), vec![notification("t", "{{a}}-{{b}}")]);
    n.variables.push(VariableDecl {
        kind: VariableKind::Unknown,
        name: "ignored".to_string(),
    });
    n.variables.push(VariableDecl {
        kind: VariableKind::Value,
        name: "b".to_string(),
    });
    let effects = run_initiator(&vec![n]).expect("run succeeds");
    assert_eq!(notification_texts(&effects), vec!["undefined-0", "undefined-1"]);
}

#[test]
fn nested_loops_interleave_effects() {
    let inner = fromto(0, 1, 1, Some("j"), vec![notification("t", "{{i}}.{{j}}")]);
    let tree = vec![fromto(0, 1, 1, Some("i"), vec![inner])];
    let effects = run_initiator(&tree).expect("run succeeds");
    assert_eq!(
        notification_texts(&effects),
        vec!["0.0", "0.1", "1.0", "1.1"]
    );
}

#[test]
fn try_run_refuses_endless_conditional_loop() {
    // A conditional loop whose literal condition holds can never end; the
    // guarded entry point refuses it instead of running it.
    let endless = vec![while_node(Some(literal(true)), vec![wait(1)])];
    assert!(!divergence_free(&endless));
    assert!(try_run_initiator(&endless).is_none());
}

#[test]
fn try_run_runs_halting_tree() {
    let tree = vec![wait(3)];
    assert!(divergence_free(&tree));
    match try_run_initiator(&tree) {
        Some(Ok(effects)) => assert_eq!(effects, vec![Effect::Wait { time_ms: 3 }]),
        other => panic!("unexpected result {:?}", other),
    }
}

#[test]
fn divergence_guard_looks_into_nested_bodies() {
    let nested = vec![if_node(
        literal(false),
        vec![while_node(Some(literal(true)), vec![])],
        vec![],
    )];
    // Conservative: the live loop sits in a branch that would not even run.
    assert!(!divergence_free(&nested));
    let harmless = vec![if_node(literal(false), vec![while_node(Some(literal(false)), vec![])], vec![])];
    assert!(divergence_free(&harmless));
}
