use soundpad_bard::conflict_checker::HotkeyConflictChecker;
use soundpad_bard::hotkey::Hotkey;

#[test]
fn new_is_empty() {
    let checker = HotkeyConflictChecker::new();
    assert!(checker.is_available(&Hotkey::new("F1").unwrap()));
}

#[test]
fn register_single() {
    let mut checker = HotkeyConflictChecker::new();
    let hk = Hotkey::new("Ctrl+Alt+A").unwrap();

    assert!(checker.is_available(&hk));
    assert!(checker.register(hk.clone()).is_ok());
    assert!(!checker.is_available(&hk));
}

#[test]
fn reject_duplicate_exact() {
    let mut checker = HotkeyConflictChecker::new();
    let hk = Hotkey::new("Ctrl+Alt+A").unwrap();

    assert!(checker.register(hk.clone()).is_ok());
    assert!(checker.register(hk).is_err());
}

#[test]
fn reject_duplicate_reordered() {
    let mut checker = HotkeyConflictChecker::new();
    let hk1 = Hotkey::new("Ctrl+Shift+F1").unwrap();
    let hk2 = Hotkey::new("Shift+Ctrl+F1").unwrap();

    assert!(checker.register(hk1).is_ok());
    assert!(checker.register(hk2).is_err());
}

#[test]
fn unregister_makes_available() {
    let mut checker = HotkeyConflictChecker::new();
    let hk = Hotkey::new("Ctrl+Alt+A").unwrap();

    checker.register(hk.clone()).unwrap();
    assert!(!checker.is_available(&hk));

    assert!(checker.unregister(&hk));
    assert!(checker.is_available(&hk));
    assert!(!checker.unregister(&hk));
}

#[test]
fn clear_removes_all() {
    let mut checker = HotkeyConflictChecker::new();
    checker
        .register(Hotkey::new("Ctrl+Alt+A").unwrap())
        .unwrap();
    checker.register(Hotkey::new("F1").unwrap()).unwrap();

    checker.clear();
    assert!(checker.is_available(&Hotkey::new("Ctrl+Alt+A").unwrap()));
}

#[test]
fn error_message_informative() {
    let mut checker = HotkeyConflictChecker::new();
    let hk = Hotkey::new("Ctrl+Alt+A").unwrap();
    checker.register(hk).unwrap();

    let err = checker
        .register(Hotkey::new("Ctrl+Alt+A").unwrap())
        .unwrap_err();
    assert!(err.contains("já está em uso"));
    assert!(err.contains("Alt+Ctrl+A"));
}

#[test]
fn error_message_counts_registered() {
    let mut checker = HotkeyConflictChecker::new();
    checker.register(Hotkey::new("F1").unwrap()).unwrap();
    checker.register(Hotkey::new("F2").unwrap()).unwrap();
    let err = checker.register(Hotkey::new("f2").unwrap()).unwrap_err();
    assert_eq!(err, "Hotkey 'F2' já está em uso (2 registradas)");
}

#[test]
fn unregister_keeps_the_others() {
    let mut checker = HotkeyConflictChecker::default();
    let a = Hotkey::new("F1").unwrap();
    let b = Hotkey::new("F2").unwrap();
    checker.register(a.clone()).unwrap();
    checker.register(b.clone()).unwrap();
    assert!(checker.unregister(&Hotkey::new("f1").unwrap()));
    assert!(checker.is_available(&a));
    assert!(!checker.is_available(&b));
}
