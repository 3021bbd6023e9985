use scenario_player::chord::{Key, Modifier, ModifierSet};

#[test]
fn parse_ctrl_chord() {
    let k = Key::from_string("<C-x>").unwrap();
    assert_eq!(k.key, 'x');
    assert_eq!(k.modifiers, ModifierSet { alt: false, ctrl: true });
}

#[test]
fn parse_alt_chord() {
    let k = Key::from_string("<A-z>").unwrap();
    assert_eq!(k.key, 'z');
    assert_eq!(k.modifiers, ModifierSet { alt: true, ctrl: false });
}

#[test]
fn parse_enter() {
    let k = Key::from_string("<Enter>").unwrap();
    assert_eq!(k.key, '\n');
    assert_eq!(k.modifiers, ModifierSet { alt: false, ctrl: false });
}

#[test]
fn parse_tab() {
    let k = Key::from_string("<Tab>").unwrap();
    assert_eq!(k.key, '\t');
    assert_eq!(k.modifiers, ModifierSet { alt: false, ctrl: false });
}

#[test]
fn parse_bare_character() {
    let k = Key::from_string("q").unwrap();
    assert_eq!(k.key, 'q');
    assert_eq!(k.modifiers, ModifierSet { alt: false, ctrl: false });
}

#[test]
fn parse_unknown_modifier_fails() {
    assert!(Key::from_string("<X-q>").is_err());
}

#[test]
fn parse_garbage_fails() {
    assert!(Key::from_string("ab").is_err());
    assert!(Key::from_string("").is_err());
    assert!(Key::from_string("<C-x").is_err());
    assert!(Key::from_string("<Enter> ").is_err());
}

#[test]
fn parse_angle_bracket_alone() {
    let k = Key::from_string("<").unwrap();
    assert_eq!(k.key, '<');
}

#[test]
fn serialize_emits_base_only() {
    let k = Key::with_modifier('x', Modifier::Ctrl);
    assert_eq!(k.serialize(), "x");
    let k = Key::from('\n');
    assert_eq!(k.serialize(), "\n");
}

#[test]
fn serialize_then_parse_drops_modifiers() {
    let original = Key::with_modifier('x', Modifier::Ctrl);
    let reparsed = Key::from_string(original.serialize().as_str()).unwrap();
    assert_eq!(reparsed.key, original.key);
    assert_eq!(reparsed.modifiers, ModifierSet { alt: false, ctrl: false });
    assert_ne!(reparsed.modifiers, original.modifiers);

    let original = Key::with_modifier('z', Modifier::Alt);
    let reparsed = Key::from_string(original.serialize().as_str()).unwrap();
    assert_eq!(reparsed.key, 'z');
    assert_eq!(reparsed.modifiers, ModifierSet { alt: false, ctrl: false });
}

#[test]
fn constructors() {
    let plain = Key::from('a');
    assert_eq!(plain.key, 'a');
    assert_eq!(plain.modifiers, ModifierSet::new());
    let alt = Key::with_modifier('a', Modifier::Alt);
    assert_eq!(alt.modifiers, ModifierSet::from_modifier(Modifier::Alt));
    assert_ne!(plain, alt);
    assert_eq!(plain, Key::from('a'));
}
