//! The set of shortcuts in use, so that no two actions share one.

use vstd::prelude::*;
use crate::hotkey::Hotkey;
use vstd::string::to_string_from_display_ensures;

verus! {

broadcast use {vstd::seq_lib::group_seq_properties, vstd::set::group_set_axioms};

/// The text of the refusal of a shortcut whose canonical form is `canonical`,
/// while `count_text` shortcuts are registered.
pub open spec fn conflict_message(canonical: Seq<char>, count_text: Seq<char>) -> Seq<char> {
    "Hotkey '"@ + canonical + "' já está em uso ("@ + count_text + " registradas)"@
}

/// The shortcuts in use, told apart by their canonical forms.
///
/// They are held in a list that a type invariant keeps free of two alike,
/// not in a hash set: a hash set keyed by `Hotkey`, whose equality and hash
/// are this library's own, would give its contents no proved meaning, while
/// the list's contents are known exactly.
#[derive(Debug)]
pub struct HotkeyConflictChecker {
    registered: Vec<Hotkey>,
}

impl View for HotkeyConflictChecker {
    type V = Set<Seq<char>>;

    /// The canonical forms of the shortcuts in use.
    closed spec fn view(&self) -> Set<Seq<char>> {
        self.canonical_forms().to_set()
    }
}

impl HotkeyConflictChecker {
    spec fn canonical_forms(&self) -> Seq<Seq<char>> {
        self.registered@.map_values(|h: Hotkey| h.canonical())
    }

    #[verifier::type_invariant]
    spec fn no_two_alike(&self) -> bool {
        self.canonical_forms().no_duplicates()
    }

    /// No shortcut is in use.
    pub fn new() -> (r: Self)
        ensures
            r@ == Set::<Seq<char>>::empty(),
    {
        let r = HotkeyConflictChecker { registered: Vec::new() };
        assert(r.canonical_forms().to_set() =~= Set::<Seq<char>>::empty());
        r
    }

    fn position_of(&self, hotkey: &Hotkey) -> (r: Option<usize>)
        ensures
            match r {
                Some(i) => i < self.registered@.len() && self.registered@[i as int].canonical()
                    == hotkey.canonical() && self@.contains(hotkey.canonical()),
                None => !self@.contains(hotkey.canonical()),
            },
    {
        let mut i: usize = 0;
        while i < self.registered.len()
            invariant
                i <= self.registered@.len(),
                forall|k: int| 0 <= k < i ==> self.registered@[k].canonical() != hotkey.canonical(),
            decreases self.registered@.len() - i,
        {
            if self.registered[i].conflict_with(hotkey) {
                assert(self.canonical_forms()[i as int] == hotkey.canonical());
                assert(self.canonical_forms().contains(hotkey.canonical()));
                return Some(i);
            }
            i = i + 1;
        }
        proof {
            if self@.contains(hotkey.canonical()) {
                let k = choose|k: int| 0 <= k < self.canonical_forms().len() && self.canonical_forms()[k] == hotkey.canonical();
                assert(self.registered@[k].canonical() == hotkey.canonical());
            }
        }
        None
    }

    /// Whether no shortcut in use is the same keys as `hotkey`.
    pub fn is_available(&self, hotkey: &Hotkey) -> (r: bool)
        ensures
            r == !self@.contains(hotkey.canonical()),
    {
        self.position_of(hotkey).is_none()
    }

    /// Puts `hotkey` in use, unless the same keys are in use already.
    pub fn register(&mut self, hotkey: Hotkey) -> (r: Result<(), String>)
        ensures
            match r {
                Ok(()) => !old(self)@.contains(hotkey.canonical())
                    && final(self)@ == old(self)@.insert(hotkey.canonical()),
                Err(msg) => old(self)@.contains(hotkey.canonical())
                    && final(self)@ == old(self)@
                    && exists|n: usize, t: String| #![trigger to_string_from_display_ensures::<usize>(&n, t)]
                        n == old(self)@.len()
                        && to_string_from_display_ensures::<usize>(&n, t)
                        && msg@ == conflict_message(hotkey.canonical(), t@),
            },
    {
        proof {
            use_type_invariant(&*self);
            self.canonical_forms().unique_seq_to_set();
        }
        if !self.is_available(&hotkey) {
            let n = self.registered.len();
            let count = n.to_string();
            let mut msg = String::new();
            msg.append("Hotkey '");
            msg.append(hotkey.normalized());
            msg.append("' já está em uso (");
            msg.append(count.as_str());
            msg.append(" registradas)");
            return Err(msg);
        }
        proof { use_type_invariant(&*self); }
        let ghost before = self.canonical_forms();
        let mut regs: Vec<Hotkey> = Vec::new();
        std::mem::swap(&mut regs, &mut self.registered);
        regs.push(hotkey);
        proof {
            let after = regs@.map_values(|h: Hotkey| h.canonical());
            assert(after == before.push(hotkey.canonical()));
            assert(!before.contains(hotkey.canonical()));
            assert forall|a: int, b: int| 0 <= a < after.len() && 0 <= b < after.len() && a != b implies after[a] != after[b] by {
                if a < before.len() && b < before.len() {
                    assert(after[a] == before[a] && after[b] == before[b]);
                } else if a < before.len() {
                    assert(after[a] == before[a]);
                } else if b < before.len() {
                    assert(after[b] == before[b]);
                }
            }
        }
        self.registered = regs;
        proof {
            assert(self.canonical_forms() == before.push(hotkey.canonical()));
            assert(self.canonical_forms().to_set() =~= before.to_set().insert(hotkey.canonical()));
        }
        Ok(())
    }

    /// Takes `hotkey` out of use; tells whether it was in use.
    pub fn unregister(&mut self, hotkey: &Hotkey) -> (r: bool)
        ensures
            r == old(self)@.contains(hotkey.canonical()),
            final(self)@ == old(self)@.remove(hotkey.canonical()),
    {
        proof { use_type_invariant(&*self); }
        match self.position_of(hotkey) {
            None => {
                assert(self@ =~= self@.remove(hotkey.canonical()));
                false
            },
            Some(i) => {
                let ghost before = self.canonical_forms();
                proof { lemma_remove_unique(before, i as int); }
                let mut regs: Vec<Hotkey> = Vec::new();
                std::mem::swap(&mut regs, &mut self.registered);
                regs.remove(i);
                proof {
                    assert(regs@.map_values(|h: Hotkey| h.canonical()) == before.remove(i as int));
                }
                self.registered = regs;
                true
            },
        }
    }

    /// Takes every shortcut out of use.
    pub fn clear(&mut self)
        ensures
            final(self)@ == Set::<Seq<char>>::empty(),
    {
        self.registered = Vec::new();
        assert(self.canonical_forms().to_set() =~= Set::<Seq<char>>::empty());
    }
}

proof fn lemma_remove_unique(s: Seq<Seq<char>>, i: int)
    requires
        s.no_duplicates(),
        0 <= i < s.len(),
    ensures
        s.remove(i).no_duplicates(),
        s.remove(i).to_set() == s.to_set().remove(s[i]),
{
    let r = s.remove(i);
    assert forall|a: int, b: int| 0 <= a < r.len() && 0 <= b < r.len() && a != b implies r[a] != r[b] by {
        let sa = if a < i { a } else { a + 1 };
        let sb = if b < i { b } else { b + 1 };
        assert(r[a] == s[sa]);
        assert(r[b] == s[sb]);
    }
    assert forall|x: Seq<char>| r.contains(x) <==> (s.contains(x) && x != s[i]) by {
        if r.contains(x) {
            let k = choose|k: int| 0 <= k < r.len() && r[k] == x;
            let sk = if k < i { k } else { k + 1 };
            assert(s[sk] == x);
        }
        if s.contains(x) && x != s[i] {
            let k = choose|k: int| 0 <= k < s.len() && s[k] == x;
            if k < i {
                assert(r[k] == x);
            } else {
                assert(r[k - 1] == x);
            }
        }
    }
    assert(r.to_set() =~= s.to_set().remove(s[i]));
}

impl Default for HotkeyConflictChecker {
    fn default() -> (r: Self)
        ensures
            r@ == Set::<Seq<char>>::empty(),
    {
        HotkeyConflictChecker::new()
    }
}

/// Unregistering a shortcut undoes registering it: registering keys that
/// are free and then unregistering them leaves the shortcuts in use as they
/// were, and the keys free again.
pub proof fn lemma_unregister_undoes_register(in_use: Set<Seq<char>>, c: Seq<char>)
    requires
        !in_use.contains(c),
    ensures
        in_use.insert(c).remove(c) == in_use,
        !in_use.insert(c).remove(c).contains(c),
        in_use.insert(c).contains(c),
{
    assert(in_use.insert(c).remove(c) =~= in_use);
}

} // verus!
