use code_macros::matcher::{js_key, matching_initiators, HeldKeys, Key};
use code_macros::model::{
    Initiator, InitiatorData, InitiatorKind, Macro, MacroBody,
};
use code_macros::registry::MacroRegistry;
use code_macros::interp::run_initiator;
use code_macros::model::{Execution, ExecutionCodeInside, ExecutionData, ExecutionKind};

fn keypress_initiator(keys: Option<Vec<&str>>) -> Initiator {
    Initiator {
        kind: InitiatorKind::Keypress,
        data: InitiatorData {
            keys: keys.map(|ks| ks.into_iter().map(|k| k.to_string()).collect()),
            activate_time: None,
            time: None,
            cron: None,
            app_path: None,
        },
        executes: Vec::new(),
    }
}

fn macro_with(name: &str, initiators: Vec<Initiator>) -> Macro {
    Macro {
        name: name.to_string(),
        description: String::new(),
        body: MacroBody {
            initiators: Some(initiators),
            functions: None,
        },
    }
}

#[test]
fn js_key_canonical_names() {
    assert_eq!(js_key(Key::A), "a");
    assert_eq!(js_key(Key::Z), "z");
    assert_eq!(js_key(Key::Numrow7), "7");
    assert_eq!(js_key(Key::Numpad7), "7");
    assert_eq!(js_key(Key::LShift), "shift");
    assert_eq!(js_key(Key::RShift), "shift");
    assert_eq!(js_key(Key::LControl), "control");
    assert_eq!(js_key(Key::RControl), "control");
    assert_eq!(js_key(Key::Backslash), "\\");
    assert_eq!(js_key(Key::F10), "f10");
    assert_eq!(js_key(Key::CapsLock), "capslock");
    assert_eq!(js_key(Key::Space), "space");
}

#[test]
fn chord_matches_only_while_all_keys_held() {
    // Holding control and c fires; releasing control stops it from firing;
    // re-pressing fires again: two independent match evaluations.
    let macros = vec![macro_with("copy", vec![keypress_initiator(Some(vec!["control", "c"]))])];
    let mut held = HeldKeys::new();

    let fired = held.process_key_event(Key::LControl, &vec![Key::LControl], &macros);
    assert_eq!(fired, vec![]);

    let fired = held.process_key_event(Key::C, &vec![Key::LControl, Key::C], &macros);
    assert_eq!(fired, vec![(0, 0)]);

    // Control released: the sweep drops it, and the chord no longer holds.
    let fired = held.process_key_event(Key::C, &vec![Key::C], &macros);
    assert_eq!(fired, vec![]);

    // Control pressed again: a second, independent match.
    let fired = held.process_key_event(Key::LControl, &vec![Key::C, Key::LControl], &macros);
    assert_eq!(fired, vec![(0, 0)]);
}

#[test]
fn either_side_modifier_satisfies_chord() {
    let macros = vec![macro_with("copy", vec![keypress_initiator(Some(vec!["control", "c"]))])];
    let mut held = HeldKeys::new();
    held.process_key_event(Key::RControl, &vec![Key::RControl], &macros);
    let fired = held.process_key_event(Key::C, &vec![Key::RControl, Key::C], &macros);
    assert_eq!(fired, vec![(0, 0)]);
}

#[test]
fn sweep_drops_keys_no_longer_pressed() {
    let macros = vec![macro_with("m", vec![keypress_initiator(Some(vec!["a"]))])];
    let mut held = HeldKeys::new();
    held.process_key_event(Key::A, &vec![Key::A], &macros);
    // The next event reports only b as pressed: a must be swept away.
    let fired = held.process_key_event(Key::B, &vec![Key::B], &macros);
    assert_eq!(fired, vec![]);
    let names = held.held_canonical();
    assert_eq!(names, vec!["b".to_string()]);
}

#[test]
fn one_event_can_fire_multiple_macros() {
    let macros = vec![
        macro_with("first", vec![keypress_initiator(Some(vec!["a"]))]),
        macro_with("second", vec![keypress_initiator(Some(vec!["a"]))]),
    ];
    let fired = matching_initiators(&macros, &vec![Key::A]);
    assert_eq!(fired, vec![(0, 0), (1, 0)]);
}

#[test]
fn failed_initiator_does_not_end_scan() {
    // A keypress initiator whose chord is not held is passed over; the
    // macro's later initiators and the later macros are still scanned.
    let macros = vec![
        macro_with(
            "m0",
            vec![
                keypress_initiator(Some(vec!["q"])),
                keypress_initiator(Some(vec!["a"])),
            ],
        ),
        macro_with("m1", vec![keypress_initiator(Some(vec!["a"]))]),
    ];
    let fired = matching_initiators(&macros, &vec![Key::A]);
    assert_eq!(fired, vec![(0, 1), (1, 0)]);
}

#[test]
fn missing_keys_initiator_never_matches() {
    // A keypress initiator without its keys field crashes the source's
    // matcher; here it never matches, and the scan passes over it.
    let macros = vec![
        macro_with(
            "m0",
            vec![keypress_initiator(None), keypress_initiator(Some(vec!["a"]))],
        ),
        macro_with("m1", vec![keypress_initiator(Some(vec!["a"]))]),
    ];
    let fired = matching_initiators(&macros, &vec![Key::A]);
    assert_eq!(fired, vec![(0, 1), (1, 0)]);
}

#[test]
fn non_keypress_initiators_are_passed_over() {
    let mut other = keypress_initiator(Some(vec!["a"]));
    other.kind = InitiatorKind::Unknown;
    let macros = vec![macro_with("m", vec![other, keypress_initiator(Some(vec!["a"]))])];
    let fired = matching_initiators(&macros, &vec![Key::A]);
    assert_eq!(fired, vec![(0, 1)]);
}

#[test]
fn macro_without_initiators_is_skipped() {
    let empty = Macro {
        name: "none".to_string(),
        description: String::new(),
        body: MacroBody {
            initiators: None,
            functions: None,
        },
    };
    let macros = vec![empty, macro_with("m", vec![keypress_initiator(Some(vec!["a"]))])];
    let fired = matching_initiators(&macros, &vec![Key::A]);
    assert_eq!(fired, vec![(1, 0)]);
}

#[test]
fn empty_chord_always_matches() {
    let macros = vec![macro_with("m", vec![keypress_initiator(Some(vec![]))])];
    let fired = matching_initiators(&macros, &Vec::new());
    assert_eq!(fired, vec![(0, 0)]);
}

#[test]
fn multiple_initiators_of_one_macro_can_fire() {
    let macros = vec![macro_with(
        "m",
        vec![
            keypress_initiator(Some(vec!["a"])),
            keypress_initiator(Some(vec!["a", "b"])),
        ],
    )];
    let fired = matching_initiators(&macros, &vec![Key::A, Key::B]);
    assert_eq!(fired, vec![(0, 0), (0, 1)]);
}

#[test]
fn registry_starts_empty() {
    let registry = MacroRegistry::new();
    assert_eq!(registry.snapshot().len(), 0);
}

#[test]
fn registry_replace_swaps_wholesale() {
    let mut registry = MacroRegistry::new();
    registry.replace(vec![macro_with("first", vec![])]);
    registry.replace(vec![macro_with("second", vec![]), macro_with("third", vec![])]);
    let names: Vec<String> = registry.snapshot().into_iter().map(|m| m.name).collect();
    assert_eq!(names, vec!["second".to_string(), "third".to_string()]);
}

#[test]
fn registry_replace_does_not_touch_snapshot() {
    // An in-flight run works on a snapshot; replacing the registry must not
    // alter what the snapshot captured.
    let mut notify = Execution {
        kind: ExecutionKind::Notification,
        data: ExecutionData {
            time_ms: None,
            title: Some("t".to_string()),
            message: Some("from the old set".to_string()),
            from: None,
            to: None,
            step: None,
            condition: None,
        },
        variables: Vec::new(),
        code_inside: ExecutionCodeInside {
            loop_body: None,
            then_body: None,
            else_body: None,
        },
    };
    let mut init = keypress_initiator(Some(vec!["a"]));
    init.executes.push(notify.clone());
    let mut registry = MacroRegistry::new();
    registry.replace(vec![macro_with("old", vec![init])]);

    let snapshot = registry.snapshot();

    // The registry is replaced while the captured run is still in flight.
    notify.data.message = Some("from the new set".to_string());
    let mut new_init = keypress_initiator(Some(vec!["a"]));
    new_init.executes.push(notify);
    registry.replace(vec![macro_with("new", vec![new_init])]);

    assert_eq!(snapshot[0].name, "old");
    let executes = &snapshot[0].body.initiators.as_ref().unwrap()[0].executes;
    let effects = run_initiator(executes).expect("run succeeds");
    match &effects[0] {
        code_macros::interp::Effect::Notification { message, .. } => {
            assert_eq!(message, "from the old set");
        }
        other => panic!("unexpected effect {:?}", other),
    }
}
