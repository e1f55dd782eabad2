use soundpad_bard::hotkey::{normalize, normalize_parts, HotkeyError, Hotkey};
use std::collections::HashSet;

#[test]
fn parse_valid_hotkey() {
    let hk = Hotkey::new("Ctrl+Alt+A").unwrap();
    assert_eq!(hk.as_str(), "Ctrl+Alt+A");
    assert_eq!(hk.normalized(), "Alt+Ctrl+A");
}

#[test]
fn normalize_reorders_modifiers() {
    let hk1 = Hotkey::new("Ctrl+Shift+F1").unwrap();
    let hk2 = Hotkey::new("Shift+Ctrl+F1").unwrap();
    let hk3 = Hotkey::new("F1+Shift+Ctrl").unwrap();

    assert_eq!(hk1, hk2);
    assert_eq!(hk2, hk3);
    assert!(hk1.conflict_with(&hk2));
}

#[test]
fn case_insensitive() {
    let hk1 = Hotkey::new("ctrl+alt+a").unwrap();
    let hk2 = Hotkey::new("CTRL+ALT+A").unwrap();
    let hk3 = Hotkey::new("Ctrl+Alt+A").unwrap();

    assert_eq!(hk1, hk2);
    assert_eq!(hk2, hk3);
}

#[test]
fn function_keys() {
    for i in 1..=12 {
        let hk = Hotkey::new(&format!("F{}", i)).unwrap();
        assert!(hk.normalized().starts_with("F"));
    }
}

#[test]
fn reject_invalid_key() {
    assert!(Hotkey::new("Ctrl+InvalidKey").is_err());
}

#[test]
fn reject_empty() {
    assert!(Hotkey::new("").is_err());
    assert!(Hotkey::new("   ").is_err());
}

#[test]
fn reject_only_modifiers() {
    assert!(Hotkey::new("Ctrl+Alt+Shift").is_err());
}

#[test]
fn whitespace_tolerance() {
    let hk1 = Hotkey::new("Ctrl + Alt + A").unwrap();
    let hk2 = Hotkey::new("Ctrl+Alt+A").unwrap();
    assert_eq!(hk1, hk2);
}

#[test]
fn dedup_modifiers() {
    // Ctrl+Ctrl+Alt+A → Alt+Ctrl+A
    let hk = Hotkey::new("Ctrl+Ctrl+Alt+A").unwrap();
    assert_eq!(hk.normalized(), "Alt+Ctrl+A");
}

#[test]
fn use_in_hashset() {
    let mut set = HashSet::new();
    let hk1 = Hotkey::new("Ctrl+Alt+A").unwrap();
    let hk2 = Hotkey::new("Alt+Ctrl+A").unwrap();

    set.insert(hk1);
    assert_eq!(set.insert(hk2), false);
    assert_eq!(set.len(), 1);
}

#[test]
fn display_original() {
    let hk = Hotkey::new("Ctrl+Alt+A").unwrap();
    assert_eq!(hk.to_string(), "Ctrl+Alt+A");
}

// ── further cases ──

#[test]
fn error_kinds() {
    assert!(matches!(Hotkey::new(""), Err(HotkeyError::Empty)));
    assert!(matches!(Hotkey::new(" + + "), Err(HotkeyError::Invalid { .. })));
    match Hotkey::new("Ctrl+A+B") {
        Err(HotkeyError::InvalidModifier { part, raw }) => {
            assert_eq!(part, "B");
            assert_eq!(raw, "Ctrl+A+B");
        }
        other => panic!("unexpected {:?}", other),
    }
    assert!(matches!(Hotkey::new("Shift+Super"), Err(HotkeyError::MissingKey { .. })));
    match Hotkey::new("Ctrl+Foo") {
        Err(HotkeyError::InvalidKey { key }) => assert_eq!(key, "FOO"),
        other => panic!("unexpected {:?}", other),
    }
}

#[test]
fn second_key_reported_before_bad_key() {
    match Hotkey::new("Foo+Bar") {
        Err(HotkeyError::InvalidModifier { part, .. }) => assert_eq!(part, "BAR"),
        other => panic!("unexpected {:?}", other),
    }
}

#[test]
fn canonical_order_of_all_modifiers() {
    let hk = Hotkey::new("win+shift+control+alt+numpad7").unwrap();
    assert_eq!(hk.normalized(), "Alt+Ctrl+Shift+Super+NUMPAD7");
    let hk = Hotkey::new("meta + pageup").unwrap();
    assert_eq!(hk.normalized(), "Super+PAGEUP");
}

#[test]
fn single_key_without_modifiers() {
    assert_eq!(Hotkey::new("z").unwrap().normalized(), "Z");
    assert_eq!(Hotkey::new(" 7 ").unwrap().normalized(), "7");
    assert!(Hotkey::new("ç").is_err());
    assert!(Hotkey::new("F13").is_err());
}

#[test]
fn empty_pieces_are_skipped() {
    assert_eq!(Hotkey::new("++Ctrl++A+").unwrap().normalized(), "Ctrl+A");
}

#[test]
fn parts_are_normalized_as_given() {
    let parts = vec!["SHIFT".to_string(), "ESCAPE".to_string(), "CTRL".to_string()];
    assert_eq!(normalize_parts(&parts, "x").unwrap(), "Ctrl+Shift+ESCAPE");
    let parts: Vec<String> = Vec::new();
    assert!(matches!(normalize_parts(&parts, "x"), Err(HotkeyError::Invalid { .. })));
    let parts = vec!["ctrl".to_string(), "A".to_string()];
    assert!(matches!(normalize_parts(&parts, "x"), Err(HotkeyError::InvalidModifier { .. })));
}

#[test]
fn case_whitespace_order_and_repetition_do_not_matter() {
    let a = normalize("ctrl + ALT+a").unwrap();
    assert_eq!(a, "Alt+Ctrl+A");
    assert_eq!(normalize("A+alt++ Ctrl +control").unwrap(), a);
    assert!(normalize("ctrl+alt").is_err());
    assert!(normalize("CTRL+ALT").is_err());
}

#[test]
fn canonical_form_is_a_fixed_point() {
    for raw in ["ctrl+shift+f5", "super + numpad1", "Win+Meta+tab", "x"] {
        let c = normalize(raw).unwrap();
        assert_eq!(normalize(&c).unwrap(), c);
        assert_eq!(Hotkey::new(&c).unwrap(), Hotkey::new(raw).unwrap());
    }
}

#[test]
fn whole_text_changes_keep_the_shortcut() {
    let base = Hotkey::new("Ctrl+Alt+A").unwrap();
    for variant in ["A+Alt+Ctrl", "  ctrl +alt+ a ", "Ctrl++Alt+ +A", "Ctrl+Alt+Ctrl+Control+A"] {
        assert_eq!(Hotkey::new(variant).unwrap(), base);
    }
    assert!(Hotkey::new("Ctrl+Alt").is_err());
    assert!(Hotkey::new("Ctrl+ +Alt+ctrl").is_err());
}
