use soundpad_bard::conflict_checker::HotkeyConflictChecker;
use soundpad_bard::hotkey::Hotkey;
use soundpad_bard::register_hotkey::{HotkeyListener, RegisterError, RegisterHotkey};

struct MockListener;

impl HotkeyListener for MockListener {
    fn register(&mut self, _hotkey: &Hotkey) -> Result<u32, String> {
        Ok(1)
    }
    fn unregister(&mut self, _id: u32) -> Result<(), String> {
        Ok(())
    }
    fn poll_events(&mut self) -> Vec<u32> {
        Vec::new()
    }
}

struct RefusingListener;

impl HotkeyListener for RefusingListener {
    fn register(&mut self, _hotkey: &Hotkey) -> Result<u32, String> {
        Err("busy".to_string())
    }
    fn unregister(&mut self, _id: u32) -> Result<(), String> {
        Ok(())
    }
    fn poll_events(&mut self) -> Vec<u32> {
        Vec::new()
    }
}

#[test]
fn register_valid_hotkey() {
    let mut listener = MockListener;
    let mut checker = HotkeyConflictChecker::new();
    let mut uc = RegisterHotkey {
        listener: &mut listener,
        checker: &mut checker,
    };
    let id = uc.execute("Ctrl+Alt+A").unwrap();
    assert_eq!(id, 1);
}

#[test]
fn reject_invalid_hotkey() {
    let mut listener = MockListener;
    let mut checker = HotkeyConflictChecker::new();
    let mut uc = RegisterHotkey {
        listener: &mut listener,
        checker: &mut checker,
    };
    assert!(uc.execute("INVALID").is_err());
}

#[test]
fn reject_duplicate_hotkey() {
    let mut listener = MockListener;
    let mut checker = HotkeyConflictChecker::new();
    let mut uc = RegisterHotkey {
        listener: &mut listener,
        checker: &mut checker,
    };
    uc.execute("Ctrl+Alt+A").unwrap();
    assert!(uc.execute("Ctrl+Alt+A").is_err());
}

#[test]
fn listener_refusal_keeps_keys_taken() {
    let mut listener = RefusingListener;
    let mut checker = HotkeyConflictChecker::new();
    {
        let mut uc = RegisterHotkey {
            listener: &mut listener,
            checker: &mut checker,
        };
        assert!(matches!(uc.execute("F5"), Err(RegisterError::Listener(_))));
        assert!(matches!(uc.execute("f5"), Err(RegisterError::Conflict(_))));
        assert!(matches!(uc.execute("F5+F6"), Err(RegisterError::Parse(_))));
    }
    assert!(!checker.is_available(&Hotkey::new("F5").unwrap()));
}

#[test]
fn works_through_a_trait_object() {
    let mut boxed: Box<dyn HotkeyListener> = Box::new(MockListener);
    let mut checker = HotkeyConflictChecker::new();
    let mut uc = RegisterHotkey {
        listener: &mut *boxed,
        checker: &mut checker,
    };
    assert_eq!(uc.execute("Alt+Q").unwrap(), 1);
}
