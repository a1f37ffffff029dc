use casterm::config::{CopyModeStyle, KeyBinding, KeyBindingsConfig};
use casterm::keybindings::{KeyChord, KeymapResolver, Resolved};
use casterm::keys::{KeyCode, KeyModifiers};

fn ctrl_space() -> (KeyModifiers, KeyCode) {
    (KeyModifiers::control(), KeyCode::Char(' '))
}

#[test]
fn resolves_default_prefix_sequence() {
    let mut resolver = KeymapResolver::new(&KeyBindingsConfig::default(), "C-t");
    let (m, c) = ctrl_space();
    assert_eq!(resolver.resolve(m, c), Resolved::Pending);
    assert_eq!(
        resolver.resolve(KeyModifiers::none(), KeyCode::Char('n')),
        Resolved::Action("next-window".to_string())
    );
    assert!(!resolver.awaiting_input());
}

#[test]
fn unmatched_key_after_prefix_is_swallowed_not_passed_through() {
    let mut resolver = KeymapResolver::new(&KeyBindingsConfig::default(), "C-t");
    let (m, c) = ctrl_space();
    resolver.resolve(m, c);
    assert_eq!(resolver.resolve(KeyModifiers::none(), KeyCode::Char('z')), Resolved::NoMatch);
    assert!(!resolver.awaiting_input());
}

#[test]
fn fresh_unmatched_key_reports_no_match_and_nothing_pending() {
    let mut resolver = KeymapResolver::new(&KeyBindingsConfig::default(), "C-t");
    assert_eq!(resolver.resolve(KeyModifiers::none(), KeyCode::Char('a')), Resolved::NoMatch);
    assert!(!resolver.awaiting_input());
}

#[test]
fn vi_and_emacs_styles_produce_different_copy_mode_bindings() {
    let vi = KeymapResolver::new(
        &KeyBindingsConfig { copy_mode_style: CopyModeStyle::Vi, bindings: Vec::new() },
        "C-t",
    );
    assert!(vi
        .binding(&KeyChord::parse_sequence("C-Space [").expect("valid sequence"))
        .is_some());

    let emacs = KeymapResolver::new(
        &KeyBindingsConfig { copy_mode_style: CopyModeStyle::Emacs, bindings: Vec::new() },
        "C-t",
    );
    assert!(emacs
        .binding(&KeyChord::parse_sequence("C-Space Escape").expect("valid sequence"))
        .is_some());
}

#[test]
fn user_binding_overrides_default() {
    let config = KeyBindingsConfig {
        copy_mode_style: CopyModeStyle::Vi,
        bindings: vec![KeyBinding {
            key: "C-Space n".to_string(),
            action: "custom-action".to_string(),
            context: None,
        }],
    };
    let mut resolver = KeymapResolver::new(&config, "C-t");
    let (m, c) = ctrl_space();
    resolver.resolve(m, c);
    assert_eq!(
        resolver.resolve(KeyModifiers::none(), KeyCode::Char('n')),
        Resolved::Action("custom-action".to_string())
    );
}

#[test]
fn file_browser_toggle_resolves_to_action() {
    let mut resolver = KeymapResolver::new(&KeyBindingsConfig::default(), "C-t");
    assert_eq!(
        resolver.resolve(KeyModifiers::control(), KeyCode::Char('t')),
        Resolved::Action("toggle-file-browser".to_string())
    );
}

#[test]
fn locked_mode_swallows_everything_except_unlock() {
    let mut resolver = KeymapResolver::new(&KeyBindingsConfig::default(), "C-t");
    let (m, c) = ctrl_space();
    resolver.resolve(m, c);
    resolver.resolve(KeyModifiers::none(), KeyCode::Char('l'));
    assert!(resolver.is_locked());

    assert_eq!(resolver.resolve(KeyModifiers::control(), KeyCode::Char('c')), Resolved::NoMatch);
    assert!(resolver.is_locked());

    let (m, c) = ctrl_space();
    assert_eq!(resolver.resolve(m, c), Resolved::Pending);
    assert_eq!(
        resolver.resolve(KeyModifiers::none(), KeyCode::Char('u')),
        Resolved::Action("unlock".to_string())
    );
    assert!(!resolver.is_locked());
}

#[test]
fn chord_tokens_parse_modifiers_and_named_keys() {
    let seq = KeyChord::parse_sequence("  C-M-Enter   S-F12 Space q ").unwrap();
    assert_eq!(seq.len(), 4);
    assert_eq!(seq[0].code, KeyCode::Enter);
    assert!(seq[0].modifiers.control && seq[0].modifiers.alt && !seq[0].modifiers.shift);
    assert_eq!(seq[1].code, KeyCode::F(12));
    assert!(seq[1].modifiers.shift);
    assert_eq!(seq[2].code, KeyCode::Char(' '));
    assert_eq!(seq[3].code, KeyCode::Char('q'));
    assert_eq!(KeyChord::parse_sequence("F256"), None);
    assert_eq!(KeyChord::parse_sequence("F+7").unwrap()[0].code, KeyCode::F(7));
    assert_eq!(KeyChord::parse_sequence("C-b Bogus"), None);
    assert_eq!(KeyChord::parse_sequence("é"), None);
    assert_eq!(KeyChord::parse_sequence("").unwrap().len(), 0);
}

#[test]
fn shift_is_ignored_for_characters_only() {
    let shifted = KeyChord::from_event(KeyModifiers::shift(), KeyCode::Char('A'));
    assert!(!shifted.modifiers.shift);
    let tab = KeyChord::from_event(KeyModifiers::shift(), KeyCode::Tab);
    assert!(tab.modifiers.shift);
}

#[test]
fn locked_resolver_ignores_bound_keys() {
    let mut resolver = KeymapResolver::new(&KeyBindingsConfig::default(), "C-t");
    let (m, c) = ctrl_space();
    resolver.resolve(m, c);
    assert_eq!(
        resolver.resolve(KeyModifiers::none(), KeyCode::Char('l')),
        Resolved::Action("lock".to_string())
    );
    assert_eq!(resolver.resolve(KeyModifiers::control(), KeyCode::Char('t')), Resolved::NoMatch);
    assert!(resolver.awaiting_input());
}
