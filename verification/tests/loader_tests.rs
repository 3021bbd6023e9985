use scenario_player::chord::Key;
use scenario_player::loader::{load, FileScenario, LoadError, RawTransition, TransitionError};

fn load_err(raw: FileScenario) -> LoadError {
    match load(raw) {
        Err(e) => e,
        Ok(_) => panic!("expected the scenario to be rejected"),
    }
}

fn screens_ab() -> Vec<(String, String)> {
    vec![
        ("a".to_string(), "A".to_string()),
        ("b".to_string(), "B".to_string()),
    ]
}

#[test]
fn rejects_record_with_two_shapes() {
    let raw = FileScenario {
        first: "a".to_string(),
        screens: screens_ab(),
        transitions: vec![RawTransition {
            from: "a".to_string(),
            to: "b".to_string(),
            key: Some("q".to_string()),
            keys: None,
            word: Some("ok".to_string()),
        }],
    };
    assert_eq!(load_err(raw), LoadError { index: 0, kind: TransitionError::BadShape });
}

#[test]
fn rejects_record_with_no_shape() {
    let raw = FileScenario {
        first: "a".to_string(),
        screens: screens_ab(),
        transitions: vec![RawTransition {
            from: "a".to_string(),
            to: "b".to_string(),
            key: None,
            keys: None,
            word: None,
        }],
    };
    assert_eq!(load_err(raw), LoadError { index: 0, kind: TransitionError::BadShape });
}

#[test]
fn rejects_unparseable_chord() {
    let raw = FileScenario {
        first: "a".to_string(),
        screens: screens_ab(),
        transitions: vec![
            RawTransition {
                from: "a".to_string(),
                to: "b".to_string(),
                key: Some("q".to_string()),
                keys: None,
                word: None,
            },
            RawTransition {
                from: "a".to_string(),
                to: "b".to_string(),
                key: Some("<X-q>".to_string()),
                keys: None,
                word: None,
            },
        ],
    };
    assert_eq!(load_err(raw), LoadError { index: 1, kind: TransitionError::BadChord });
}

#[test]
fn rejects_unparseable_chord_in_keys_list() {
    let raw = FileScenario {
        first: "a".to_string(),
        screens: screens_ab(),
        transitions: vec![RawTransition {
            from: "a".to_string(),
            to: "b".to_string(),
            key: None,
            keys: Some(vec!["q".to_string(), "nope".to_string()]),
            word: None,
        }],
    };
    assert_eq!(load_err(raw), LoadError { index: 0, kind: TransitionError::BadChord });
}

#[test]
fn rejects_empty_word() {
    let raw = FileScenario {
        first: "a".to_string(),
        screens: screens_ab(),
        transitions: vec![RawTransition {
            from: "a".to_string(),
            to: "b".to_string(),
            key: None,
            keys: None,
            word: Some("".to_string()),
        }],
    };
    assert_eq!(load_err(raw), LoadError { index: 0, kind: TransitionError::EmptyWord });
}

#[test]
fn keys_fan_out_to_one_transition_each() {
    let raw = FileScenario {
        first: "a".to_string(),
        screens: screens_ab(),
        transitions: vec![RawTransition {
            from: "a".to_string(),
            to: "b".to_string(),
            key: None,
            keys: Some(vec!["q".to_string(), "<Enter>".to_string()]),
            word: None,
        }],
    };
    let scenario = load(raw).unwrap();
    let q = Key::from_string("q").unwrap();
    let enter = Key::from_string("<Enter>").unwrap();
    let other = Key::from_string("x").unwrap();
    assert_eq!(scenario.advance(&"a".to_string(), &q), Some("b".to_string()));
    assert_eq!(
        scenario.advance(&"a".to_string(), &enter),
        Some("b".to_string())
    );
    assert_eq!(scenario.advance(&"a".to_string(), &other), None);
}

#[test]
fn later_duplicate_screen_wins() {
    let raw = FileScenario {
        first: "a".to_string(),
        screens: vec![
            ("a".to_string(), "old".to_string()),
            ("a".to_string(), "new".to_string()),
        ],
        transitions: vec![],
    };
    let scenario = load(raw).unwrap();
    assert_eq!(scenario.get(&"a".to_string()), Some("new"));
}
