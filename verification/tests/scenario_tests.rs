use scenario_player::chord::Key;
use scenario_player::loader::{load, FileScenario, RawTransition};
use scenario_player::player::{app, update, view, Event, UI};

fn key_transition(from: &str, to: &str, chord: &str) -> RawTransition {
    RawTransition {
        from: from.to_string(),
        to: to.to_string(),
        key: Some(chord.to_string()),
        keys: None,
        word: None,
    }
}

#[test]
fn end_to_end_single_screen() {
    let raw = FileScenario {
        first: "s0".to_string(),
        screens: vec![("s0".to_string(), "Hello".to_string())],
        transitions: vec![key_transition("s0", "s0", "q")],
    };
    let scenario = load(raw).unwrap();
    let model = app(scenario);
    assert_eq!(model.current, "s0");
    assert_eq!(model.scenario.get(&"s0".to_string()), Some("Hello"));

    let q = Key::from_string("q").unwrap();
    assert_eq!(
        model.scenario.advance(&"s0".to_string(), &q),
        Some("s0".to_string())
    );
    let x = Key::from_string("x").unwrap();
    assert_eq!(model.scenario.advance(&"s0".to_string(), &x), None);
}

#[test]
fn first_declared_match_wins() {
    let raw = FileScenario {
        first: "a".to_string(),
        screens: vec![
            ("a".to_string(), "A".to_string()),
            ("b".to_string(), "B".to_string()),
            ("c".to_string(), "C".to_string()),
        ],
        transitions: vec![
            key_transition("a", "b", "n"),
            key_transition("a", "c", "n"),
        ],
    };
    let scenario = load(raw).unwrap();
    let n = Key::from_string("n").unwrap();
    assert_eq!(
        scenario.advance(&"a".to_string(), &n),
        Some("b".to_string())
    );
}

#[test]
fn advance_returns_declared_target_or_nothing() {
    let raw = FileScenario {
        first: "a".to_string(),
        screens: vec![("a".to_string(), "A".to_string())],
        transitions: vec![key_transition("a", "b", "n")],
    };
    let scenario = load(raw).unwrap();
    let n = Key::from_string("n").unwrap();
    // The returned id is the declared transition's target, even though no
    // screen exists under it; a miss is no match, not an error.
    assert_eq!(
        scenario.advance(&"a".to_string(), &n),
        Some("b".to_string())
    );
    assert_eq!(scenario.advance(&"b".to_string(), &n), None);
    assert_eq!(scenario.get(&"b".to_string()), None);
}

#[test]
fn update_quits_on_escape_and_ctrl_c() {
    let raw = FileScenario {
        first: "s0".to_string(),
        screens: vec![("s0".to_string(), "Hello".to_string())],
        transitions: vec![],
    };
    let scenario = load(raw).unwrap();
    let model = app(scenario);
    assert!(update(Event::Esc, model).is_none());

    let raw = FileScenario {
        first: "s0".to_string(),
        screens: vec![("s0".to_string(), "Hello".to_string())],
        transitions: vec![],
    };
    let model = app(load(raw).unwrap());
    assert!(update(Event::Ctrl('c'), model).is_none());
}

#[test]
fn update_advances_and_stays_on_miss() {
    let raw = FileScenario {
        first: "a".to_string(),
        screens: vec![
            ("a".to_string(), "A".to_string()),
            ("b".to_string(), "B".to_string()),
        ],
        transitions: vec![key_transition("a", "b", "n")],
    };
    let model = app(load(raw).unwrap());
    let model = update(Event::Char('n'), model).unwrap();
    assert_eq!(model.current, "b");
    // No transition out of "b": a wrong key keeps the current screen.
    let model = update(Event::Char('n'), model).unwrap();
    assert_eq!(model.current, "b");
    // Unrecognized events leave the state unchanged.
    let model = update(Event::Other, model).unwrap();
    assert_eq!(model.current, "b");
}

#[test]
fn update_with_modified_chords() {
    let raw = FileScenario {
        first: "a".to_string(),
        screens: vec![
            ("a".to_string(), "A".to_string()),
            ("b".to_string(), "B".to_string()),
            ("c".to_string(), "C".to_string()),
        ],
        transitions: vec![
            key_transition("a", "b", "<C-x>"),
            key_transition("b", "c", "<A-y>"),
        ],
    };
    let model = app(load(raw).unwrap());
    let model = update(Event::Ctrl('x'), model).unwrap();
    assert_eq!(model.current, "b");
    // A plain 'x' is a different chord from control-x.
    let model = update(Event::Char('y'), model).unwrap();
    assert_eq!(model.current, "b");
    let model = update(Event::Alt('y'), model).unwrap();
    assert_eq!(model.current, "c");
}

#[test]
fn view_renders_current_screen_or_nothing() {
    let raw = FileScenario {
        first: "a".to_string(),
        screens: vec![("a".to_string(), "Hello".to_string())],
        transitions: vec![],
    };
    let mut model = app(load(raw).unwrap());
    match view(&model) {
        UI::Content(text) => assert_eq!(text, "Hello"),
    }
    model.current = "missing".to_string();
    match view(&model) {
        UI::Content(text) => assert_eq!(text, ""),
    }
}
