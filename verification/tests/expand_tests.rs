use scenario_player::chord::Key;
use scenario_player::diffing::Chunk;
use scenario_player::expand::{generate_intermediate_screen, render_intermediate};
use scenario_player::itertools::NGramExt;
use scenario_player::loader::{load, FileScenario, RawTransition};

fn word_transition(from: &str, to: &str, word: &str) -> RawTransition {
    RawTransition {
        from: from.to_string(),
        to: to.to_string(),
        key: None,
        keys: None,
        word: Some(word.to_string()),
    }
}

#[test]
fn generate_intermediate_screen_from_real_diff() {
    let screen = generate_intermediate_screen("type: \u{2503}\u{1F5CC}", "type: ok", "ok", "o");
    assert_eq!(screen, "type: \u{2503}o");
}

#[test]
fn render_substitutes_typed_prefix_for_word() {
    let chunks = vec![
        Chunk::Equal("type: ".to_string()),
        Chunk::Insert("ok".to_string()),
    ];
    assert_eq!(render_intermediate(&chunks, "ok", "o"), "type: o");
}

#[test]
fn render_keeps_deletes_after_content_and_drops_leading_ones() {
    let chunks = vec![
        Chunk::Delete("gone".to_string()),
        Chunk::Equal("type: ".to_string()),
        Chunk::Delete("kept".to_string()),
        Chunk::Insert("ok".to_string()),
    ];
    assert_eq!(render_intermediate(&chunks, "ok", "o"), "type: kepto");
}

#[test]
fn render_drops_insert_without_word() {
    let chunks = vec![
        Chunk::Equal("a".to_string()),
        Chunk::Insert("later".to_string()),
        Chunk::Equal("b".to_string()),
        Chunk::Insert("okay".to_string()),
    ];
    assert_eq!(render_intermediate(&chunks, "ok", "o"), "aboay");
}

#[test]
fn word_expansion_example() {
    let raw = FileScenario {
        first: "start".to_string(),
        screens: vec![
            ("start".to_string(), "type: \u{2503}\u{1F5CC}".to_string()),
            ("end".to_string(), "type: ok".to_string()),
        ],
        transitions: vec![word_transition("start", "end", "ok")],
    };
    let scenario = load(raw).unwrap();
    let o = Key::from_string("o").unwrap();
    let k = Key::from_string("k").unwrap();
    assert_eq!(
        scenario.advance(&"start".to_string(), &o),
        Some("end-0".to_string())
    );
    assert_eq!(
        scenario.advance(&"end-0".to_string(), &k),
        Some("end".to_string())
    );
    // The diff of the normalized start screen against the end screen is
    // Equal("type: "), Delete(cursor glyph), Insert("ok"): the deletion is
    // not leading, so it stays visible, and the insertion becomes the
    // one-character typed prefix.
    assert_eq!(
        scenario.get(&"end-0".to_string()),
        Some("type: \u{2503}o")
    );
}

#[test]
fn word_expansion_cardinality() {
    let raw = FileScenario {
        first: "s".to_string(),
        screens: vec![
            ("s".to_string(), "go: \u{2503}\u{1F5CC}".to_string()),
            ("e".to_string(), "go: abc".to_string()),
        ],
        transitions: vec![word_transition("s", "e", "abc")],
    };
    let scenario = load(raw).unwrap();
    // Three characters give three chained transitions ...
    let a = Key::from_string("a").unwrap();
    let b = Key::from_string("b").unwrap();
    let c = Key::from_string("c").unwrap();
    assert_eq!(scenario.advance(&"s".to_string(), &a), Some("e-0".to_string()));
    assert_eq!(scenario.advance(&"e-0".to_string(), &b), Some("e-1".to_string()));
    assert_eq!(scenario.advance(&"e-1".to_string(), &c), Some("e".to_string()));
    // ... and exactly two intermediate screens beside the two declared ones.
    assert!(scenario.get(&"e-0".to_string()).is_some());
    assert!(scenario.get(&"e-1".to_string()).is_some());
    assert_eq!(scenario.screens.len(), 4);
}

#[test]
fn single_character_word_points_straight_at_target() {
    let raw = FileScenario {
        first: "s".to_string(),
        screens: vec![
            ("s".to_string(), "x: \u{2503}\u{1F5CC}".to_string()),
            ("e".to_string(), "x: q".to_string()),
        ],
        transitions: vec![word_transition("s", "e", "q")],
    };
    let scenario = load(raw).unwrap();
    let q = Key::from_string("q").unwrap();
    assert_eq!(scenario.advance(&"s".to_string(), &q), Some("e".to_string()));
    assert_eq!(scenario.screens.len(), 2);
}

#[test]
fn missing_target_screen_aborts_intermediate_generation() {
    let raw = FileScenario {
        first: "s".to_string(),
        screens: vec![("s".to_string(), "go: \u{2503}\u{1F5CC}".to_string())],
        transitions: vec![word_transition("s", "e", "ok")],
    };
    let scenario = load(raw).unwrap();
    // The transitions still exist ...
    let o = Key::from_string("o").unwrap();
    assert_eq!(scenario.advance(&"s".to_string(), &o), Some("e-0".to_string()));
    // ... but no intermediate screen was generated.
    assert_eq!(scenario.get(&"e-0".to_string()), None);
    assert_eq!(scenario.screens.len(), 1);
}

#[test]
fn ngram_yields_successive_prefixes() {
    let mut prefixes = "abc".to_string().ngram();
    assert_eq!(prefixes.next(), Some("a".to_string()));
    assert_eq!(prefixes.next(), Some("ab".to_string()));
    assert_eq!(prefixes.next(), Some("abc".to_string()));
    assert_eq!(prefixes.next(), None);
    assert_eq!(prefixes.next(), None);
}
