//! Putting a shortcut in use: parse it, refuse it if the keys are taken,
//! then ask the operating system's listener to watch it.

use vstd::prelude::*;
use crate::hotkey::{Hotkey, HotkeyError, HotkeyFault, normalize_spec};
use crate::conflict_checker::{HotkeyConflictChecker, conflict_message};
use vstd::string::to_string_from_display_ensures;

verus! {

/// The operating system's listener for global shortcuts. It hands out a
/// number for each shortcut that it watches, and reports those numbers when
/// the keys are pressed.
pub trait HotkeyListener {
    /// Starts watching `hotkey`; gives the number that its presses will
    /// report.
    fn register(&mut self, hotkey: &Hotkey) -> Result<u32, String>;

    /// Stops watching the shortcut with number `id`.
    fn unregister(&mut self, id: u32) -> Result<(), String>;

    /// The numbers of the shortcuts pressed since the last call, draining
    /// them.
    fn poll_events(&mut self) -> Vec<u32>;
}

/// Why a shortcut could not be put in use.
#[derive(Debug)]
pub enum RegisterError {
    /// The text is not a shortcut.
    Parse(HotkeyError),
    /// The keys are in use; the message says which.
    Conflict(String),
    /// The listener refused the shortcut.
    Listener(String),
}

/// The message shown for a refusal.
pub open spec fn register_message(e: RegisterError) -> Seq<char> {
    match e {
        RegisterError::Parse(_) => "falha ao normalizar hotkey"@,
        RegisterError::Conflict(m) => m@,
        RegisterError::Listener(_) => "falha ao registrar hotkey no SO"@,
    }
}

impl RegisterError {
    /// The message shown for the error.
    pub fn message(&self) -> (r: String)
        ensures
            r@ == register_message(*self),
    {
        match self {
            RegisterError::Parse(_) => "falha ao normalizar hotkey".to_owned(),
            RegisterError::Conflict(m) => m.clone(),
            RegisterError::Listener(_) => "falha ao registrar hotkey no SO".to_owned(),
        }
    }
}

/// Puts a shortcut in use with `checker` and `listener`.
pub struct RegisterHotkey<'a, L: HotkeyListener + ?Sized> {
    pub listener: &'a mut L,
    pub checker: &'a mut HotkeyConflictChecker,
}

/// What putting the shortcut `text` in use does to the shortcuts in use
/// `before`, and to the result: a text that is no shortcut is refused, keys
/// in use are refused with the checker's message, and otherwise the keys
/// are taken whatever the listener answers.
pub open spec fn register_outcome(text: Seq<char>, before: Set<Seq<char>>, after: Set<Seq<char>>, r: Result<u32, RegisterError>) -> bool {
    match normalize_spec(text) {
        Err(f) => r matches Err(RegisterError::Parse(e)) && e@ == f && after == before,
        Ok(c) => if before.contains(c) {
            &&& r matches Err(RegisterError::Conflict(m)) && exists|n: usize, t: String|
                #![trigger to_string_from_display_ensures::<usize>(&n, t)]
                n == before.len() && to_string_from_display_ensures::<usize>(&n, t)
                    && m@ == conflict_message(c, t@)
            &&& after == before
        } else {
            (r is Ok || r matches Err(RegisterError::Listener(_))) && after == before.insert(c)
        },
    }
}

/// Puts the shortcut `hotkey_str` in use with `checker`, then asks
/// `listener` to watch it.
pub fn register_hotkey<L: HotkeyListener + ?Sized>(
    listener: &mut L,
    checker: &mut HotkeyConflictChecker,
    hotkey_str: &str,
) -> (r: Result<u32, RegisterError>)
    ensures
        register_outcome(hotkey_str@, old(checker)@, final(checker)@, r),
{
    let hotkey = match Hotkey::new(hotkey_str) {
        Ok(h) => h,
        Err(e) => return Err(RegisterError::Parse(e)),
    };
    let copy = hotkey.clone();
    if let Err(msg) = checker.register(copy) {
        return Err(RegisterError::Conflict(msg));
    }
    match listener.register(&hotkey) {
        Ok(id) => Ok(id),
        Err(msg) => Err(RegisterError::Listener(msg)),
    }
}

impl<'a, L: HotkeyListener + ?Sized> RegisterHotkey<'a, L> {
    /// Puts the shortcut `hotkey_str` in use: parses it, takes its keys in
    /// the checker, and asks the listener to watch it; gives the listener's
    /// number for it.
    pub fn execute(&mut self, hotkey_str: &str) -> (r: Result<u32, RegisterError>)
        ensures
            register_outcome(hotkey_str@, old(self).checker@, final(self).checker@, r),
    {
        register_hotkey(&mut *self.listener, &mut *self.checker, hotkey_str)
    }
}

/// A shortcut, once put in use, is refused as taken when put in use again,
/// however written, and the shortcuts in use stay as they are.
pub proof fn lemma_second_registration_conflicts(
    t1: Seq<char>,
    t2: Seq<char>,
    s0: Set<Seq<char>>,
    s1: Set<Seq<char>>,
    s2: Set<Seq<char>>,
    r1: Result<u32, RegisterError>,
    r2: Result<u32, RegisterError>,
)
    requires
        register_outcome(t1, s0, s1, r1),
        !(r1 matches Err(RegisterError::Parse(_))),
        normalize_spec(t2) == normalize_spec(t1),
        register_outcome(t2, s1, s2, r2),
    ensures
        r2 matches Err(RegisterError::Conflict(_)),
        s2 == s1,
{
}

} // verus!
