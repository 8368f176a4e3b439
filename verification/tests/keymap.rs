use herdr_configurable_picker::config::{KeysConfig, KeysOverrides};
use herdr_configurable_picker::keymap::{
    key_press_label, parse_key_spec, Action, KeyCode, KeyPress, Keymap, Resolution,
};

fn key(code: KeyCode) -> KeyPress {
    KeyPress { code, ctrl: false, alt: false, shift: false }
}

#[test]
fn key_specs_parse_modifiers_names_and_chords() {
    let ctrl_n = parse_key_spec("ctrl+n").unwrap().0;
    assert_eq!(ctrl_n, vec![KeyPress { code: KeyCode::Char('n'), ctrl: true, alt: false, shift: false }]);
    assert_eq!(parse_key_spec("shift+g").unwrap().0, vec![key(KeyCode::Char('G'))]);
    assert_eq!(parse_key_spec("space").unwrap().0, vec![key(KeyCode::Char(' '))]);
    assert_eq!(
        parse_key_spec("alt+shift+tab").unwrap().0,
        vec![KeyPress { code: KeyCode::Tab, ctrl: false, alt: true, shift: true }]
    );
    assert_eq!(
        parse_key_spec(" g  g ").unwrap().0,
        vec![key(KeyCode::Char('g')), key(KeyCode::Char('g'))]
    );
    assert_eq!(parse_key_spec("+").unwrap().0, vec![key(KeyCode::Char('+'))]);
    assert_eq!(
        parse_key_spec("ctrl++").unwrap().0,
        vec![KeyPress { code: KeyCode::Char('+'), ctrl: true, alt: false, shift: false }]
    );
}

#[test]
fn bad_key_specs_are_errors() {
    assert_eq!(parse_key_spec("").unwrap_err(), "invalid key spec ``");
    assert_eq!(parse_key_spec("   ").unwrap_err(), "invalid key spec `   `");
    assert_eq!(parse_key_spec("ctrl+nope").unwrap_err(), "invalid key spec `ctrl+nope`");
    assert_eq!(parse_key_spec("shift+1").unwrap_err(), "invalid key spec `shift+1`");
    assert!(parse_key_spec("g bogus").is_err());
}

#[test]
fn the_default_keymap_is_warning_free_and_labels_its_keys() {
    let (keymap, warnings) = Keymap::from_bindings(&KeysConfig::default().to_bindings());
    assert!(warnings.is_empty());
    assert_eq!(keymap.first_binding_label(Action::Up).as_deref(), Some("↑"));
    assert_eq!(keymap.first_binding_label(Action::Down).as_deref(), Some("↓"));
    assert_eq!(keymap.first_binding_label(Action::Top).as_deref(), Some("home"));
    assert_eq!(keymap.first_binding_label(Action::Cancel).as_deref(), Some("esc"));
    assert_eq!(keymap.first_binding_label(Action::Toggle).as_deref(), Some("space"));
}

#[test]
fn bad_and_clashing_specs_are_dropped_with_warnings() {
    let (keymap, warnings) = Keymap::from_bindings(&[
        (Action::Down, vec!["j".to_string(), "teleport".to_string()]),
        (Action::Up, vec!["j".to_string(), "k".to_string()]),
        (Action::Top, vec!["k k".to_string(), "g g".to_string()]),
        (Action::Bottom, vec!["g".to_string()]),
    ]);
    assert_eq!(
        warnings,
        vec![
            "invalid key spec `teleport`".to_string(),
            "key spec `j` clashes with an earlier binding".to_string(),
            "key spec `k k` clashes with an earlier binding".to_string(),
            "key spec `g` clashes with an earlier binding".to_string(),
        ]
    );
    assert_eq!(keymap.first_binding_label(Action::Up).as_deref(), Some("k"));
    assert_eq!(keymap.first_binding_label(Action::Top).as_deref(), Some("g g"));
    assert_eq!(keymap.first_binding_label(Action::Bottom), None);
}

#[test]
fn resolve_waits_on_chord_prefixes() {
    let (keymap, _) = Keymap::from_bindings(&KeysConfig::default().to_bindings());
    let g = key(KeyCode::Char('g'));
    assert_eq!(keymap.resolve(&[], g), Resolution::Pending);
    assert_eq!(keymap.resolve(&[g], g), Resolution::Action(Action::Top));
    assert_eq!(keymap.resolve(&[g], key(KeyCode::Char('x'))), Resolution::NoMatch);
    assert_eq!(keymap.resolve(&[], key(KeyCode::Char('G'))), Resolution::Action(Action::Bottom));
    assert_eq!(keymap.resolve(&[], key(KeyCode::Enter)), Resolution::Action(Action::Accept));
}

#[test]
fn key_labels_use_short_modifier_prefixes() {
    let k = KeyPress { code: KeyCode::Char('k'), ctrl: true, alt: true, shift: false };
    assert_eq!(key_press_label(k), "C-M-k");
    let t = KeyPress { code: KeyCode::BackTab, ctrl: false, alt: false, shift: true };
    assert_eq!(key_press_label(t), "S-backtab");
    assert_eq!(key_press_label(key(KeyCode::Right)), "→");
}

#[test]
fn overrides_replace_only_the_actions_they_set() {
    let overrides = KeysOverrides {
        down: Some(vec!["ctrl+j".to_string()]),
        cancel: Some(vec![]),
        ..KeysOverrides::default()
    };
    let keys = KeysConfig::with_overrides(overrides);
    assert_eq!(keys.down, vec!["ctrl+j".to_string()]);
    assert!(keys.cancel.is_empty());
    assert_eq!(keys.up, KeysConfig::default().up);
    assert_eq!(keys.top, vec!["home".to_string(), "g g".to_string()]);
}
