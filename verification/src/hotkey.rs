//! Keyboard shortcuts: parsing, canonical form and conflicts.
//!
//! A shortcut is written as `+`-separated parts, such as `Ctrl + Alt + A`.
//! Parts are compared without regard to case or surrounding whitespace; the
//! modifiers may come in any order and any number of times, and exactly one
//! part must name the key. The canonical form lists the modifiers present in
//! the order `Alt`, `Ctrl`, `Shift`, `Super`, then the key in upper case.

use vstd::prelude::*;
use vstd::std_specs::cmp::PartialEqSpec;
use crate::text::{
    split_on, split_text, str_to_uppercase, str_trim, trim_chars, uppercase_of,
    same_text, starts_with_text, has_prefix, is_ascii_text, ascii_upper_text,
    lemma_split_on_ascii, lemma_trim_ascii, same_but_case, lemma_split_same_but_case,
    lemma_trim_same_but_case, lemma_upper_same_but_case, lemma_split_pieces_lack_sep,
    lemma_split_no_sep, lemma_split_concat, lemma_split_on_nonempty, lemma_trim_shape, lemma_ascii_upper_char,
    char_is_whitespace, ascii_upper, all_whitespace, lemma_trim_padded, lemma_trim_blank,
};

verus! {

broadcast use vstd::seq_lib::group_seq_properties;

/// One of the four modifier keys.
#[derive(Clone, Copy, Debug, PartialEq, Eq, Structural)]
pub enum Modifier {
    Alt,
    Ctrl,
    Shift,
    Super,
}

/// The modifier that an (upper-case) part names, if it names one.
pub open spec fn modifier_of(part: Seq<char>) -> Option<Modifier> {
    if part == "CTRL"@ || part == "CONTROL"@ {
        Some(Modifier::Ctrl)
    } else if part == "ALT"@ {
        Some(Modifier::Alt)
    } else if part == "SHIFT"@ {
        Some(Modifier::Shift)
    } else if part == "SUPER"@ || part == "WIN"@ || part == "META"@ {
        Some(Modifier::Super)
    } else {
        None
    }
}

pub open spec fn is_key_part(part: Seq<char>) -> bool {
    modifier_of(part) is None
}

/// The parts that name no modifier, in order.
pub open spec fn key_parts(parts: Seq<Seq<char>>) -> Seq<Seq<char>> {
    parts.filter(|p: Seq<char>| is_key_part(p))
}

/// Whether some part names modifier `m`.
pub open spec fn names_modifier(parts: Seq<Seq<char>>, m: Modifier) -> bool {
    exists|i: int| 0 <= i < parts.len() && modifier_of(#[trigger] parts[i]) == Some(m)
}

pub open spec fn is_ascii_alphanumeric(c: char) -> bool {
    ('0' <= c && c <= '9') || ('A' <= c && c <= 'Z') || ('a' <= c && c <= 'z')
}

pub open spec fn is_function_key(key: Seq<char>) -> bool {
    ||| key == "F1"@
    ||| key == "F2"@
    ||| key == "F3"@
    ||| key == "F4"@
    ||| key == "F5"@
    ||| key == "F6"@
    ||| key == "F7"@
    ||| key == "F8"@
    ||| key == "F9"@
    ||| key == "F10"@
    ||| key == "F11"@
    ||| key == "F12"@
}

pub open spec fn is_named_key(key: Seq<char>) -> bool {
    ||| key == "ENTER"@
    ||| key == "BACKSPACE"@
    ||| key == "SPACE"@
    ||| key == "TAB"@
    ||| key == "CAPS"@
    ||| key == "ESCAPE"@
    ||| key == "NUMLOCK"@
    ||| key == "SCROLLLOCK"@
    ||| key == "PAUSE"@
    ||| key == "PRINTSCREEN"@
    ||| key == "INSERT"@
    ||| key == "DELETE"@
    ||| key == "HOME"@
    ||| key == "END"@
    ||| key == "PAGEUP"@
    ||| key == "PAGEDOWN"@
    ||| key == "UP"@
    ||| key == "DOWN"@
    ||| key == "LEFT"@
    ||| key == "RIGHT"@
}

/// Whether a part is an acceptable key: a function key, a single ASCII letter
/// or digit (one byte of UTF-8), a named key, or anything starting with
/// `NUMPAD`.
pub open spec fn is_valid_key(key: Seq<char>) -> bool {
    ||| is_function_key(key)
    ||| (key.len() == 1 && is_ascii_alphanumeric(key[0]))
    ||| is_named_key(key)
    ||| has_prefix(key, "NUMPAD"@)
}

/// The canonical text of a shortcut with the given modifiers and key.
pub open spec fn render(alt: bool, ctrl: bool, shift: bool, sup: bool, key: Seq<char>) -> Seq<char> {
    (if alt { "Alt+"@ } else { Seq::<char>::empty() })
        + (if ctrl { "Ctrl+"@ } else { Seq::<char>::empty() })
        + (if shift { "Shift+"@ } else { Seq::<char>::empty() })
        + (if sup { "Super+"@ } else { Seq::<char>::empty() })
        + key
}

/// Why a text is not a shortcut, over plain values.
pub enum HotkeyFault {
    Empty,
    Invalid(Seq<char>),
    InvalidModifier(Seq<char>, Seq<char>),
    MissingKey(Seq<char>),
    InvalidKey(Seq<char>),
}

/// The outcome of normalizing the upper-case, trimmed, non-empty parts of
/// the shortcut text `raw`.
pub open spec fn normalize_parts_spec(parts: Seq<Seq<char>>, raw: Seq<char>) -> Result<Seq<char>, HotkeyFault> {
    let keys = key_parts(parts);
    if parts.len() == 0 {
        Err(HotkeyFault::Invalid(raw))
    } else if keys.len() >= 2 {
        Err(HotkeyFault::InvalidModifier(keys[1], raw))
    } else if keys.len() == 0 {
        Err(HotkeyFault::MissingKey(raw))
    } else if !is_valid_key(keys[0]) {
        Err(HotkeyFault::InvalidKey(keys[0]))
    } else {
        Ok(render(
            names_modifier(parts, Modifier::Alt),
            names_modifier(parts, Modifier::Ctrl),
            names_modifier(parts, Modifier::Shift),
            names_modifier(parts, Modifier::Super),
            keys[0],
        ))
    }
}

pub open spec fn upper_trimmed(p: Seq<char>) -> Seq<char> {
    uppercase_of(trim_chars(p))
}

pub open spec fn is_nonempty(p: Seq<char>) -> bool {
    p.len() > 0
}

/// The parts of a shortcut text: the `+`-separated pieces, each trimmed and
/// upper-cased, the empty ones left out.
pub open spec fn parts_of(raw: Seq<char>) -> Seq<Seq<char>> {
    split_on(raw, '+').map_values(|p: Seq<char>| upper_trimmed(p)).filter(|p: Seq<char>| is_nonempty(p))
}

/// The canonical form of the shortcut text `raw`, or why it has none.
pub open spec fn normalize_spec(raw: Seq<char>) -> Result<Seq<char>, HotkeyFault> {
    if trim_chars(raw).len() == 0 {
        Err(HotkeyFault::Empty)
    } else {
        normalize_parts_spec(parts_of(raw), raw)
    }
}

/// A part of an ASCII shortcut text, trimmed and upper-cased.
pub open spec fn ascii_upper_trimmed(p: Seq<char>) -> Seq<char> {
    ascii_upper_text(trim_chars(p))
}

/// The parts of an ASCII shortcut text: what `parts_of` is, with the
/// upper-casing of ASCII spelled out.
pub open spec fn parts_of_ascii(raw: Seq<char>) -> Seq<Seq<char>> {
    split_on(raw, '+').map_values(|p: Seq<char>| ascii_upper_trimmed(p)).filter(|p: Seq<char>| is_nonempty(p))
}

/// The canonical form of an ASCII shortcut text: what `normalize_spec` is,
/// with the upper-casing of ASCII spelled out.
pub open spec fn normalize_ascii(raw: Seq<char>) -> Result<Seq<char>, HotkeyFault> {
    if trim_chars(raw).len() == 0 {
        Err(HotkeyFault::Empty)
    } else {
        normalize_parts_spec(parts_of_ascii(raw), raw)
    }
}

/// Why a text is not a shortcut.
#[derive(Debug)]
pub enum HotkeyError {
    /// The text is blank.
    Empty,
    /// No part is left once blanks between `+` are dropped.
    Invalid { raw: String },
    /// A second part that names no modifier.
    InvalidModifier { part: String, raw: String },
    /// Only modifiers.
    MissingKey { raw: String },
    /// The key is none of the accepted keys.
    InvalidKey { key: String },
}

impl View for HotkeyError {
    type V = HotkeyFault;

    open spec fn view(&self) -> HotkeyFault {
        match self {
            HotkeyError::Empty => HotkeyFault::Empty,
            HotkeyError::Invalid { raw } => HotkeyFault::Invalid(raw@),
            HotkeyError::InvalidModifier { part, raw } => HotkeyFault::InvalidModifier(part@, raw@),
            HotkeyError::MissingKey { raw } => HotkeyFault::MissingKey(raw@),
            HotkeyError::InvalidKey { key } => HotkeyFault::InvalidKey(key@),
        }
    }
}

pub open spec fn result_view(r: Result<String, HotkeyError>) -> Result<Seq<char>, HotkeyFault> {
    match r {
        Ok(s) => Ok(s@),
        Err(e) => Err(e@),
    }
}

fn text_is(s: &String, lit: &str) -> (r: bool)
    ensures
        r == (s@ == lit@),
{
    same_text(s.as_str(), lit)
}

/// The modifier that the upper-case part `part` names, if any.
pub fn modifier_of_part(part: &String) -> (r: Option<Modifier>)
    ensures
        r == modifier_of(part@),
{
    if text_is(part, "CTRL") || text_is(part, "CONTROL") {
        Some(Modifier::Ctrl)
    } else if text_is(part, "ALT") {
        Some(Modifier::Alt)
    } else if text_is(part, "SHIFT") {
        Some(Modifier::Shift)
    } else if text_is(part, "SUPER") || text_is(part, "WIN") || text_is(part, "META") {
        Some(Modifier::Super)
    } else {
        None
    }
}

fn is_function_key_text(key: &String) -> (r: bool)
    ensures
        r == is_function_key(key@),
{
    text_is(key, "F1") || text_is(key, "F2") || text_is(key, "F3") || text_is(key, "F4")
        || text_is(key, "F5") || text_is(key, "F6") || text_is(key, "F7") || text_is(key, "F8")
        || text_is(key, "F9") || text_is(key, "F10") || text_is(key, "F11") || text_is(key, "F12")
}

fn is_named_key_text(key: &String) -> (r: bool)
    ensures
        r == is_named_key(key@),
{
    text_is(key, "ENTER") || text_is(key, "BACKSPACE") || text_is(key, "SPACE") || text_is(key, "TAB")
        || text_is(key, "CAPS") || text_is(key, "ESCAPE") || text_is(key, "NUMLOCK")
        || text_is(key, "SCROLLLOCK") || text_is(key, "PAUSE") || text_is(key, "PRINTSCREEN")
        || text_is(key, "INSERT") || text_is(key, "DELETE") || text_is(key, "HOME")
        || text_is(key, "END") || text_is(key, "PAGEUP") || text_is(key, "PAGEDOWN")
        || text_is(key, "UP") || text_is(key, "DOWN") || text_is(key, "LEFT")
        || text_is(key, "RIGHT")
}

fn is_single_alphanumeric(key: &String) -> (r: bool)
    ensures
        r == (key@.len() == 1 && is_ascii_alphanumeric(key@[0])),
{
    let s = key.as_str();
    if s.unicode_len() != 1 {
        return false;
    }
    let c = s.get_char(0);
    ('0' <= c && c <= '9') || ('A' <= c && c <= 'Z') || ('a' <= c && c <= 'z')
}

/// Checks that the upper-case part `key` is an acceptable key.
pub fn validate_key(key: &String) -> (r: Result<(), HotkeyError>)
    ensures
        r is Ok <==> is_valid_key(key@),
        r matches Err(e) ==> e@ == HotkeyFault::InvalidKey(key@),
{
    if is_function_key_text(key) || is_single_alphanumeric(key) || is_named_key_text(key)
        || starts_with_text(key.as_str(), "NUMPAD") {
        Ok(())
    } else {
        Err(HotkeyError::InvalidKey { key: key.clone() })
    }
}

/// Builds the canonical form of the upper-case, trimmed, non-empty `parts`
/// of the shortcut text `raw`.
pub fn normalize_parts(parts: &Vec<String>, raw: &str) -> (r: Result<String, HotkeyError>)
    ensures
        result_view(r) == normalize_parts_spec(parts@.map_values(|p: String| p@), raw@),
{
    let ghost ps = parts@.map_values(|p: String| p@);
    if parts.len() == 0 {
        return Err(HotkeyError::Invalid { raw: raw.to_owned() });
    }
    let mut alt = false;
    let mut ctrl = false;
    let mut shift = false;
    let mut sup = false;
    let mut key: Option<usize> = None;
    let mut i: usize = 0;
    while i < parts.len()
        invariant
            ps == parts@.map_values(|p: String| p@),
            i <= parts@.len(),
            alt == names_modifier(ps.take(i as int), Modifier::Alt),
            ctrl == names_modifier(ps.take(i as int), Modifier::Ctrl),
            shift == names_modifier(ps.take(i as int), Modifier::Shift),
            sup == names_modifier(ps.take(i as int), Modifier::Super),
            match key {
                None => key_parts(ps.take(i as int)).len() == 0,
                Some(k) => k < i && key_parts(ps.take(i as int)) == seq![ps[k as int]],
            },
        decreases parts@.len() - i,
    {
        let m = modifier_of_part(&parts[i]);
        proof {
            assert(ps.take(i + 1) == ps.take(i as int).push(ps[i as int]));
            ps.take(i as int).lemma_filter_push(ps[i as int], |p: Seq<char>| is_key_part(p));
            assert(ps[i as int] == parts@[i as int]@);
            assert forall|md: Modifier|
                names_modifier(ps.take(i + 1), md) == (names_modifier(ps.take(i as int), md)
                    || modifier_of(ps[i as int]) == Some(md)) by {
                if names_modifier(ps.take(i + 1), md) {
                    let j = choose|j: int| 0 <= j < ps.take(i + 1).len() && modifier_of(#[trigger] ps.take(i + 1)[j]) == Some(md);
                    if j < i {
                        assert(ps.take(i as int)[j] == ps.take(i + 1)[j]);
                    }
                }
                if names_modifier(ps.take(i as int), md) {
                    let j = choose|j: int| 0 <= j < ps.take(i as int).len() && modifier_of(#[trigger] ps.take(i as int)[j]) == Some(md);
                    assert(ps.take(i + 1)[j] == ps.take(i as int)[j]);
                }
                if modifier_of(ps[i as int]) == Some(md) {
                    assert(ps.take(i + 1)[i as int] == ps[i as int]);
                }
            }
        }
        match m {
            Some(Modifier::Alt) => { alt = true; },
            Some(Modifier::Ctrl) => { ctrl = true; },
            Some(Modifier::Shift) => { shift = true; },
            Some(Modifier::Super) => { sup = true; },
            None => {
                match key {
                    None => { key = Some(i); },
                    Some(_) => {
                        proof {
                            assert(ps == ps.take(i + 1) + ps.skip(i + 1));
                            Seq::filter_distributes_over_add(ps.take(i + 1), ps.skip(i + 1), |p: Seq<char>| is_key_part(p));
                            assert(key_parts(ps)[1] == key_parts(ps.take(i + 1))[1]);
                        }
                        return Err(HotkeyError::InvalidModifier {
                            part: parts[i].clone(),
                            raw: raw.to_owned(),
                        });
                    },
                }
            },
        }
        i = i + 1;
    }
    assert(ps.take(parts@.len() as int) == ps);
    match key {
        None => Err(HotkeyError::MissingKey { raw: raw.to_owned() }),
        Some(k) => {
            validate_key(&parts[k])?;
            let mut out = String::new();
            if alt { out.append("Alt+"); }
            if ctrl { out.append("Ctrl+"); }
            if shift { out.append("Shift+"); }
            if sup { out.append("Super+"); }
            out.append(parts[k].as_str());
            Ok(out)
        },
    }
}


/// The trimmed, upper-cased, non-empty parts of the shortcut text `raw`.
pub fn parts_of_text(raw: &str) -> (parts: Vec<String>)
    ensures
        parts@.map_values(|p: String| p@) == parts_of(raw@),
        is_ascii_text(raw@) ==> parts_of(raw@) == parts_of_ascii(raw@),
{
    let pieces = split_text(raw, '+');
    let ghost sp = split_on(raw@, '+');
    let ghost up = sp.map_values(|p: Seq<char>| upper_trimmed(p));
    let ghost upa = sp.map_values(|p: Seq<char>| ascii_upper_trimmed(p));
    proof {
        if is_ascii_text(raw@) {
            lemma_split_on_ascii(raw@, '+');
        }
    }
    let mut parts: Vec<String> = Vec::new();
    let mut i: usize = 0;
    while i < pieces.len()
        invariant
            pieces@.len() == sp.len(),
            forall|k: int| 0 <= k < pieces@.len() ==> #[trigger] pieces@[k]@ == sp[k],
            up == sp.map_values(|p: Seq<char>| upper_trimmed(p)),
            upa == sp.map_values(|p: Seq<char>| ascii_upper_trimmed(p)),
            is_ascii_text(raw@) ==> forall|k: int| 0 <= k < sp.len() ==> is_ascii_text(#[trigger] sp[k]),
            is_ascii_text(raw@) ==> forall|k: int| 0 <= k < i ==> #[trigger] up[k] == upa[k],
            i <= pieces@.len(),
            parts@.map_values(|p: String| p@) == up.take(i as int).filter(|p: Seq<char>| is_nonempty(p)),
        decreases pieces@.len() - i,
    {
        let t = str_trim(pieces[i]);
        let u = str_to_uppercase(t);
        proof {
            assert(u@ == up[i as int]);
            if is_ascii_text(raw@) {
                assert(is_ascii_text(sp[i as int]));
                lemma_trim_ascii(sp[i as int]);
                assert(u@ == upa[i as int]);
            }
            assert(up.take(i + 1) == up.take(i as int).push(up[i as int]));
            up.take(i as int).lemma_filter_push(up[i as int], |p: Seq<char>| is_nonempty(p));
        }
        if u.as_str().unicode_len() > 0 {
            let ghost before = parts@;
            parts.push(u);
            proof {
                assert(parts@.map_values(|p: String| p@) == before.map_values(|p: String| p@).push(u@));
            }
        }
        i = i + 1;
    }
    assert(up.take(pieces@.len() as int) == up);
    proof {
        if is_ascii_text(raw@) {
            assert(up =~= upa);
        }
    }
    parts
}

/// The canonical form of the shortcut text `raw`.
pub fn normalize(raw: &str) -> (r: Result<String, HotkeyError>)
    ensures
        result_view(r) == normalize_spec(raw@),
        is_ascii_text(raw@) ==> normalize_spec(raw@) == normalize_ascii(raw@),
{
    if str_trim(raw).unicode_len() == 0 {
        return Err(HotkeyError::Empty);
    }
    let parts = parts_of_text(raw);
    normalize_parts(&parts, raw)
}

/// A keyboard shortcut: the text it was written as, and its canonical form.
#[derive(Debug)]
pub struct Hotkey {
    normalized: String,
    original: String,
}

impl Hotkey {
    /// The canonical form.
    pub closed spec fn canonical(&self) -> Seq<char> {
        self.normalized@
    }

    /// The text as it was written.
    pub closed spec fn text(&self) -> Seq<char> {
        self.original@
    }

    /// Parses the shortcut text `input`.
    pub fn new(input: &str) -> (r: Result<Hotkey, HotkeyError>)
        ensures
            match r {
                Ok(h) => normalize_spec(input@) == Ok::<Seq<char>, HotkeyFault>(h.canonical())
                    && h.text() == input@,
                Err(e) => normalize_spec(input@) == Err::<Seq<char>, HotkeyFault>(e@),
            },
            is_ascii_text(input@) ==> normalize_spec(input@) == normalize_ascii(input@),
    {
        let normalized = normalize(input)?;
        Ok(Hotkey { normalized, original: input.to_owned() })
    }

    /// The canonical form, such as `Alt+Ctrl+A`.
    pub fn normalized(&self) -> (r: &str)
        ensures
            r@ == self.canonical(),
    {
        self.normalized.as_str()
    }

    /// The text as it was written.
    pub fn as_str(&self) -> (r: &str)
        ensures
            r@ == self.text(),
    {
        self.original.as_str()
    }

    /// The text as it was written, as an owned string.
    pub fn to_string(&self) -> (r: String)
        ensures
            r@ == self.text(),
    {
        self.original.clone()
    }

    /// Whether the two shortcuts are the same keys, however written.
    pub fn conflict_with(&self, other: &Hotkey) -> (r: bool)
        ensures
            r == (self.canonical() == other.canonical()),
    {
        self.normalized == other.normalized
    }
}

impl Clone for Hotkey {
    fn clone(&self) -> (r: Self)
        ensures
            r.canonical() == self.canonical(),
            r.text() == self.text(),
    {
        Hotkey { normalized: self.normalized.clone(), original: self.original.clone() }
    }
}

impl PartialEq for Hotkey {
    fn eq(&self, other: &Self) -> (r: bool) {
        self.normalized == other.normalized
    }
}

impl vstd::std_specs::cmp::PartialEqSpecImpl for Hotkey {
    open spec fn obeys_eq_spec() -> bool {
        true
    }

    open spec fn eq_spec(&self, other: &Self) -> bool {
        self.canonical() == other.canonical()
    }
}

impl Eq for Hotkey {}

impl core::hash::Hash for Hotkey {
    /// Hashes the canonical form only, as equality compares it only.
    #[verifier::external_body]
    fn hash<H: core::hash::Hasher>(&self, state: &mut H) {
        self.normalized.hash(state)
    }
}

/// The order of the parts of a shortcut, and parts written more than once,
/// do not matter: two part lists that are both shortcuts and hold the same
/// parts have the same canonical form.
pub proof fn lemma_canonical_ignores_order_and_repetition(p: Seq<Seq<char>>, q: Seq<Seq<char>>, raw_p: Seq<char>, raw_q: Seq<char>)
    requires
        normalize_parts_spec(p, raw_p) is Ok,
        normalize_parts_spec(q, raw_q) is Ok,
        p.to_set() == q.to_set(),
    ensures
        normalize_parts_spec(p, raw_p) == normalize_parts_spec(q, raw_q),
{
    let kp = key_parts(p);
    let kq = key_parts(q);
    let pred = |x: Seq<char>| is_key_part(x);
    assert(kp.len() == 1 && kq.len() == 1);
    assert forall|m: Modifier| names_modifier(p, m) == names_modifier(q, m) by {
        if names_modifier(p, m) {
            let i = choose|i: int| 0 <= i < p.len() && modifier_of(#[trigger] p[i]) == Some(m);
            assert(p.to_set().contains(p[i]));
            assert(q.to_set().contains(p[i]));
            let j = choose|j: int| 0 <= j < q.len() && q[j] == p[i];
            assert(modifier_of(q[j]) == Some(m));
        }
        if names_modifier(q, m) {
            let j = choose|j: int| 0 <= j < q.len() && modifier_of(#[trigger] q[j]) == Some(m);
            assert(q.to_set().contains(q[j]));
            assert(p.to_set().contains(q[j]));
            let i = choose|i: int| 0 <= i < p.len() && p[i] == q[j];
            assert(modifier_of(p[i]) == Some(m));
        }
    }
    // The key of q is a part of q, hence of p, and names no modifier, so it
    // is the key of p.
    p.lemma_filter_pred(pred, 0);
    q.lemma_filter_pred(pred, 0);
    assert(kq.contains(kq[0]));
    q.lemma_filter_contains_rev(pred, kq[0]);
    assert(q.contains(kq[0]));
    assert(q.to_set().contains(kq[0]));
    assert(p.to_set().contains(kq[0]));
    let i = choose|i: int| 0 <= i < p.len() && p[i] == kq[0];
    p.lemma_filter_contains(pred, i);
    assert(kp.contains(kq[0]));
    assert(kp[0] == kq[0]);
}

/// Two shortcuts conflict exactly when they are equal, and conflicting is
/// an equivalence: every shortcut conflicts with itself, and conflicts are
/// symmetric and transitive.
pub proof fn lemma_conflict_is_equivalence(a: Hotkey, b: Hotkey, c: Hotkey)
    ensures
        a.eq_spec(&b) == (a.canonical() == b.canonical()),
        a.eq_spec(&a),
        a.eq_spec(&b) ==> b.eq_spec(&a),
        a.eq_spec(&b) && b.eq_spec(&c) ==> a.eq_spec(&c),
{
}

/// Two shortcut texts whose parts, once trimmed and upper-cased, are the
/// same set (in any order, any number of times) have the same canonical
/// form, where both are shortcuts.
pub proof fn lemma_texts_with_same_parts_agree(r1: Seq<char>, r2: Seq<char>)
    requires
        normalize_spec(r1) is Ok,
        normalize_spec(r2) is Ok,
        parts_of(r1).to_set() == parts_of(r2).to_set(),
    ensures
        normalize_spec(r1) == normalize_spec(r2),
{
    lemma_canonical_ignores_order_and_repetition(parts_of(r1), parts_of(r2), r1, r2);
}

/// Where two part lists hold the same parts and as many parts that name no
/// modifier, and each holds exactly one such part, it is the same part.
proof fn lemma_single_key_same(p: Seq<Seq<char>>, q: Seq<Seq<char>>)
    requires
        p.to_set() == q.to_set(),
        key_parts(p).len() == 1,
        key_parts(q).len() == 1,
    ensures
        key_parts(p)[0] == key_parts(q)[0],
{
    let kp = key_parts(p);
    let kq = key_parts(q);
    let pred = |x: Seq<char>| is_key_part(x);
    p.lemma_filter_pred(pred, 0);
    q.lemma_filter_pred(pred, 0);
    assert(kq.contains(kq[0]));
    q.lemma_filter_contains_rev(pred, kq[0]);
    assert(q.contains(kq[0]));
    assert(q.to_set().contains(kq[0]));
    assert(p.to_set().contains(kq[0]));
    let i = choose|i: int| 0 <= i < p.len() && p[i] == kq[0];
    p.lemma_filter_contains(pred, i);
    assert(kp.contains(kq[0]));
}

/// Writing the parts of a shortcut in another order, more than once, with
/// other whitespace around them or with empty parts between them changes
/// nothing: texts whose parts, once trimmed and upper-cased, are the same
/// set, with as many parts that name no modifier, and that are both blank
/// or both not, are both shortcuts or both not, and the same one where they
/// are.
pub proof fn lemma_same_parts_same_shortcut(r1: Seq<char>, r2: Seq<char>)
    requires
        parts_of(r1).to_set() == parts_of(r2).to_set(),
        key_parts(parts_of(r1)).len() == key_parts(parts_of(r2)).len(),
        (trim_chars(r1).len() == 0) == (trim_chars(r2).len() == 0),
    ensures
        (normalize_spec(r1) is Ok) == (normalize_spec(r2) is Ok),
        normalize_spec(r1) is Ok ==> normalize_spec(r1) == normalize_spec(r2),
{
    let p = parts_of(r1);
    let q = parts_of(r2);
    if p.len() == 0 && q.len() > 0 {
        assert(q.to_set().contains(q[0]));
    }
    if q.len() == 0 && p.len() > 0 {
        assert(p.to_set().contains(p[0]));
    }
    if key_parts(p).len() == 1 {
        lemma_single_key_same(p, q);
    }
    if normalize_spec(r1) is Ok && normalize_spec(r2) is Ok {
        lemma_canonical_ignores_order_and_repetition(p, q, r1, r2);
    }
}

/// Changing the case of letters in an ASCII shortcut text changes nothing:
/// the parts are the same, the texts are both shortcuts or both not, and
/// the same one where they are.
pub proof fn lemma_case_insensitive(a: Seq<char>, b: Seq<char>)
    requires
        same_but_case(a, b),
    ensures
        parts_of_ascii(a) == parts_of_ascii(b),
        (normalize_ascii(a) is Ok) == (normalize_ascii(b) is Ok),
        normalize_ascii(a) is Ok ==> normalize_ascii(a) == normalize_ascii(b),
{
    lemma_split_same_but_case(a, b, '+');
    let sa = split_on(a, '+');
    let sb = split_on(b, '+');
    let ma = sa.map_values(|p: Seq<char>| ascii_upper_trimmed(p));
    let mb = sb.map_values(|p: Seq<char>| ascii_upper_trimmed(p));
    assert forall|k: int| 0 <= k < ma.len() implies ma[k] == mb[k] by {
        assert(same_but_case(sa[k], sb[k]));
        lemma_trim_same_but_case(sa[k], sb[k]);
        lemma_upper_same_but_case(trim_chars(sa[k]), trim_chars(sb[k]));
    }
    assert(ma =~= mb);
    lemma_trim_same_but_case(a, b);
}

/// The name a modifier is written with in a canonical form.
pub open spec fn modifier_name(m: Modifier) -> Seq<char> {
    match m {
        Modifier::Alt => "Alt"@,
        Modifier::Ctrl => "Ctrl"@,
        Modifier::Shift => "Shift"@,
        Modifier::Super => "Super"@,
    }
}

/// A modifier's name in upper case.
pub open spec fn modifier_upper(m: Modifier) -> Seq<char> {
    match m {
        Modifier::Alt => "ALT"@,
        Modifier::Ctrl => "CTRL"@,
        Modifier::Shift => "SHIFT"@,
        Modifier::Super => "SUPER"@,
    }
}

/// The modifiers present, in canonical order.
pub open spec fn modifier_list(alt: bool, ctrl: bool, shift: bool, sup: bool) -> Seq<Modifier> {
    (if alt { seq![Modifier::Alt] } else { Seq::<Modifier>::empty() })
        + (if ctrl { seq![Modifier::Ctrl] } else { Seq::<Modifier>::empty() })
        + (if shift { seq![Modifier::Shift] } else { Seq::<Modifier>::empty() })
        + (if sup { seq![Modifier::Super] } else { Seq::<Modifier>::empty() })
}

/// Each text of `xs` followed by `+`, one after the other.
pub open spec fn plus_prefix(xs: Seq<Seq<char>>) -> Seq<char>
    decreases xs.len(),
{
    if xs.len() == 0 {
        Seq::<char>::empty()
    } else {
        xs[0] + seq!['+'] + plus_prefix(xs.drop_first())
    }
}

/// Whether `t` holds no `+`.
pub open spec fn lacks_plus(t: Seq<char>) -> bool {
    forall|i: int| 0 <= i < t.len() ==> #[trigger] t[i] != '+'
}

proof fn lemma_modifier_texts(m: Modifier)
    ensures
        is_ascii_text(modifier_name(m)),
        lacks_plus(modifier_name(m)),
        modifier_name(m).len() > 0,
        trim_chars(modifier_name(m)) == modifier_name(m),
        ascii_upper_text(modifier_name(m)) == modifier_upper(m),
        modifier_of(modifier_upper(m)) == Some(m),
        modifier_name(m) + seq!['+'] == (match m {
            Modifier::Alt => "Alt+"@,
            Modifier::Ctrl => "Ctrl+"@,
            Modifier::Shift => "Shift+"@,
            Modifier::Super => "Super+"@,
        }),
{
    reveal_strlit("Alt");
    reveal_strlit("Ctrl");
    reveal_strlit("Shift");
    reveal_strlit("Super");
    reveal_strlit("ALT");
    reveal_strlit("CTRL");
    reveal_strlit("SHIFT");
    reveal_strlit("SUPER");
    reveal_strlit("Alt+");
    reveal_strlit("Ctrl+");
    reveal_strlit("Shift+");
    reveal_strlit("Super+");
    reveal_strlit("CONTROL");
    reveal_strlit("WIN");
    reveal_strlit("META");
    let n = modifier_name(m);
    assert("ALT"@[0] != "CTRL"@[0] && "ALT"@[0] != "CONTROL"@[0]);
    assert("SHIFT"@[0] != "CTRL"@[0] && "SHIFT"@[0] != "CONTROL"@[0] && "SHIFT"@[0] != "ALT"@[0]);
    assert("SUPER"@[0] != "CTRL"@[0] && "SUPER"@[0] != "CONTROL"@[0] && "SUPER"@[0] != "ALT"@[0] && "SUPER"@[1] != "SHIFT"@[1]);
    assert(!char_is_whitespace(n[0]) && !char_is_whitespace(n.last()));
    assert(trim_chars(n) == n);
    assert(ascii_upper_text(n) =~= modifier_upper(m));
    assert(n + seq!['+'] =~= (match m {
        Modifier::Alt => "Alt+"@,
        Modifier::Ctrl => "Ctrl+"@,
        Modifier::Shift => "Shift+"@,
        Modifier::Super => "Super+"@,
    }));
}

#[verifier::rlimit(40)]
proof fn lemma_plus_prefix_concat(xs: Seq<Seq<char>>, ys: Seq<Seq<char>>)
    ensures
        plus_prefix(xs + ys) == plus_prefix(xs) + plus_prefix(ys),
    decreases xs.len(),
{
    if xs.len() == 0 {
        assert(xs + ys =~= ys);
        assert(plus_prefix(xs) == Seq::<char>::empty());
        assert(plus_prefix(xs) + plus_prefix(ys) =~= plus_prefix(ys));
    } else {
        let zs = xs + ys;
        let x1 = xs.drop_first();
        lemma_plus_prefix_concat(x1, ys);
        assert(zs.drop_first() =~= x1 + ys);
        assert(zs[0] == xs[0]);
        let a = xs[0] + seq!['+'];
        assert(plus_prefix(zs) == a + plus_prefix(x1 + ys));
        assert(plus_prefix(xs) == a + plus_prefix(x1));
        assert(a + (plus_prefix(x1) + plus_prefix(ys)) =~= (a + plus_prefix(x1)) + plus_prefix(ys));
    }
}

proof fn lemma_plus_prefix_one(x: Seq<char>)
    ensures
        plus_prefix(seq![x]) == x + seq!['+'],
{
    let e = Seq::<Seq<char>>::empty();
    assert(plus_prefix(e) == Seq::<char>::empty());
    assert(seq![x].drop_first() =~= e);
    assert(seq![x][0] == x);
    assert(plus_prefix(seq![x]) == x + seq!['+'] + plus_prefix(e));
    assert(x + seq!['+'] + Seq::<char>::empty() =~= x + seq!['+']);
}

/// The canonical text is the modifiers' names, each followed by `+`, then
/// the key.
proof fn lemma_render_is_plus_prefix(alt: bool, ctrl: bool, shift: bool, sup: bool, key: Seq<char>)
    ensures
        render(alt, ctrl, shift, sup, key) == plus_prefix(modifier_list(alt, ctrl, shift, sup).map_values(|m: Modifier| modifier_name(m))) + key,
{
    let f = |m: Modifier| modifier_name(m);
    let la = if alt { seq![Modifier::Alt] } else { Seq::<Modifier>::empty() };
    let lc = if ctrl { seq![Modifier::Ctrl] } else { Seq::<Modifier>::empty() };
    let ls = if shift { seq![Modifier::Shift] } else { Seq::<Modifier>::empty() };
    let lu = if sup { seq![Modifier::Super] } else { Seq::<Modifier>::empty() };
    assert(modifier_list(alt, ctrl, shift, sup).map_values(f) =~= la.map_values(f) + lc.map_values(f) + ls.map_values(f) + lu.map_values(f));
    lemma_plus_prefix_concat(la.map_values(f) + lc.map_values(f) + ls.map_values(f), lu.map_values(f));
    lemma_plus_prefix_concat(la.map_values(f) + lc.map_values(f), ls.map_values(f));
    lemma_plus_prefix_concat(la.map_values(f), lc.map_values(f));
    lemma_modifier_texts(Modifier::Alt);
    lemma_modifier_texts(Modifier::Ctrl);
    lemma_modifier_texts(Modifier::Shift);
    lemma_modifier_texts(Modifier::Super);
    lemma_plus_prefix_one("Alt"@);
    lemma_plus_prefix_one("Ctrl"@);
    lemma_plus_prefix_one("Shift"@);
    lemma_plus_prefix_one("Super"@);
    assert(la.map_values(f) =~= (if alt { seq!["Alt"@] } else { Seq::<Seq<char>>::empty() }));
    assert(lc.map_values(f) =~= (if ctrl { seq!["Ctrl"@] } else { Seq::<Seq<char>>::empty() }));
    assert(ls.map_values(f) =~= (if shift { seq!["Shift"@] } else { Seq::<Seq<char>>::empty() }));
    assert(lu.map_values(f) =~= (if sup { seq!["Super"@] } else { Seq::<Seq<char>>::empty() }));
    assert(plus_prefix(Seq::<Seq<char>>::empty()) == Seq::<char>::empty());
    assert(render(alt, ctrl, shift, sup, key) =~= plus_prefix(modifier_list(alt, ctrl, shift, sup).map_values(f)) + key);
}

/// Splitting the names, each followed by `+`, then a key gives the names
/// and the key, where none holds a `+`.
proof fn lemma_split_plus_prefix(xs: Seq<Seq<char>>, key: Seq<char>)
    requires
        forall|i: int| 0 <= i < xs.len() ==> lacks_plus(#[trigger] xs[i]),
        lacks_plus(key),
    ensures
        split_on(plus_prefix(xs) + key, '+') == xs.push(key),
    decreases xs.len(),
{
    if xs.len() == 0 {
        assert(plus_prefix(xs) + key =~= key);
        lemma_split_no_sep(key, '+');
        assert(xs.push(key) =~= seq![key]);
    } else {
        let rest = xs.drop_first();
        assert forall|i: int| 0 <= i < rest.len() implies lacks_plus(#[trigger] rest[i]) by {
            assert(rest[i] == xs[i + 1]);
        }
        lemma_split_plus_prefix(rest, key);
        assert(lacks_plus(xs[0]));
        lemma_split_no_sep(xs[0], '+');
        lemma_split_concat(xs[0], plus_prefix(rest) + key, '+');
        assert(plus_prefix(xs) + key =~= xs[0] + seq!['+'] + (plus_prefix(rest) + key));
        assert(xs.push(key) =~= seq![xs[0]] + rest.push(key));
    }
}

proof fn lemma_plus_prefix_ascii(xs: Seq<Seq<char>>)
    requires
        forall|i: int| 0 <= i < xs.len() ==> is_ascii_text(#[trigger] xs[i]),
    ensures
        is_ascii_text(plus_prefix(xs)),
    decreases xs.len(),
{
    if xs.len() > 0 {
        let rest = xs.drop_first();
        assert forall|i: int| 0 <= i < rest.len() implies is_ascii_text(#[trigger] rest[i]) by {
            assert(rest[i] == xs[i + 1]);
        }
        lemma_plus_prefix_ascii(rest);
        let t = plus_prefix(xs);
        assert(is_ascii_text(xs[0]));
        assert forall|i: int| 0 <= i < t.len() implies (#[trigger] t[i] as u32) < 128 by {
            if i < xs[0].len() {
                assert(t[i] == xs[0][i]);
            } else if i == xs[0].len() {
                assert(t[i] == '+');
            } else {
                assert(t[i] == plus_prefix(rest)[i - xs[0].len() - 1]);
            }
        }
    }
}

proof fn lemma_filter_keeps_all(s: Seq<Seq<char>>, pred: spec_fn(Seq<char>) -> bool)
    requires
        forall|i: int| 0 <= i < s.len() ==> pred(#[trigger] s[i]),
    ensures
        s.filter(pred) == s,
    decreases s.len(),
{
    if s.len() == 0 {
        reveal_with_fuel(Seq::filter, 1);
    } else {
        let s0 = s.drop_last();
        assert forall|i: int| 0 <= i < s0.len() implies pred(#[trigger] s0[i]) by {
            assert(s0[i] == s[i]);
        }
        lemma_filter_keeps_all(s0, pred);
        s0.lemma_filter_push(s.last(), pred);
        assert(s0.push(s.last()) == s);
    }
}

proof fn lemma_filter_keeps_none(s: Seq<Seq<char>>, pred: spec_fn(Seq<char>) -> bool)
    requires
        forall|i: int| 0 <= i < s.len() ==> !pred(#[trigger] s[i]),
    ensures
        s.filter(pred) == Seq::<Seq<char>>::empty(),
    decreases s.len(),
{
    if s.len() == 0 {
        reveal_with_fuel(Seq::filter, 1);
    } else {
        let s0 = s.drop_last();
        assert forall|i: int| 0 <= i < s0.len() implies !pred(#[trigger] s0[i]) by {
            assert(s0[i] == s[i]);
        }
        lemma_filter_keeps_none(s0, pred);
        s0.lemma_filter_push(s.last(), pred);
        assert(s0.push(s.last()) == s);
    }
}

/// A key as a canonical form holds it: ASCII, not empty, without `+` or
/// whitespace at its ends, already upper-case, naming no modifier.
pub open spec fn canonical_key(key: Seq<char>) -> bool {
    &&& is_ascii_text(key)
    &&& key.len() > 0
    &&& lacks_plus(key)
    &&& trim_chars(key) == key
    &&& ascii_upper_text(key) == key
    &&& is_key_part(key)
}

/// The key of an ASCII shortcut text is a canonical key.
proof fn lemma_key_is_canonical(raw: Seq<char>)
    requires
        is_ascii_text(raw),
        key_parts(parts_of_ascii(raw)).len() > 0,
    ensures
        canonical_key(key_parts(parts_of_ascii(raw))[0]),
{
    let p = parts_of_ascii(raw);
    let keys = key_parts(p);
    let key = keys[0];
    let pred_key = |x: Seq<char>| is_key_part(x);
    let pred_ne = |x: Seq<char>| is_nonempty(x);
    let sp = split_on(raw, '+');
    let mp = sp.map_values(|x: Seq<char>| ascii_upper_trimmed(x));
    assert(keys.contains(key));
    p.lemma_filter_contains_rev(pred_key, key);
    assert(p.contains(key));
    mp.lemma_filter_contains_rev(pred_ne, key);
    let j = choose|j: int| 0 <= j < mp.len() && mp[j] == key;
    let piece = sp[j];
    lemma_split_on_ascii(raw, '+');
    lemma_split_pieces_lack_sep(raw, '+');
    lemma_trim_ascii(piece);
    lemma_trim_shape(piece);
    let t = trim_chars(piece);
    let (ta, tb) = choose|ta: int, tb: int| 0 <= ta <= tb <= piece.len() && #[trigger] piece.subrange(ta, tb) == t;
    assert(key == ascii_upper_text(t));
    assert(key.len() > 0);
    assert forall|i: int| 0 <= i < key.len() implies #[trigger] key[i] != '+' && (key[i] as u32) < 128
        && ascii_upper(key[i]) == key[i] by {
        assert(t[i] == piece[ta + i]);
        assert(piece[ta + i] != '+');
        assert((t[i] as u32) < 128);
        lemma_ascii_upper_char(t[i]);
    }
    lemma_ascii_upper_char(t[0]);
    lemma_ascii_upper_char(t.last());
    assert(key[0] == ascii_upper(t[0]));
    assert(key.last() == ascii_upper(t.last()));
    assert(trim_chars(key) == key);
    assert(ascii_upper_text(key) =~= key);
    p.lemma_filter_pred(pred_key, 0);
}

/// The parts of a canonical text are the modifiers' names in upper case,
/// then the key; the text is ASCII and not blank.
proof fn lemma_parts_of_render(alt: bool, ctrl: bool, shift: bool, sup: bool, key: Seq<char>)
    requires
        canonical_key(key),
    ensures
        is_ascii_text(render(alt, ctrl, shift, sup, key)),
        trim_chars(render(alt, ctrl, shift, sup, key)).len() > 0,
        parts_of_ascii(render(alt, ctrl, shift, sup, key))
            == modifier_list(alt, ctrl, shift, sup).map_values(|m: Modifier| modifier_upper(m)).push(key),
{
    let c = render(alt, ctrl, shift, sup, key);
    let ml = modifier_list(alt, ctrl, shift, sup);
    let names = ml.map_values(|m: Modifier| modifier_name(m));
    lemma_render_is_plus_prefix(alt, ctrl, shift, sup, key);
    assert forall|i: int| 0 <= i < names.len() implies lacks_plus(#[trigger] names[i]) && is_ascii_text(names[i]) by {
        lemma_modifier_texts(ml[i]);
    }
    lemma_split_plus_prefix(names, key);
    lemma_plus_prefix_ascii(names);
    let pp = plus_prefix(names);
    assert(c == pp + key);
    assert forall|i: int| 0 <= i < c.len() implies (#[trigger] c[i] as u32) < 128 by {
        if i < pp.len() {
            assert(c[i] == pp[i]);
        } else {
            assert(c[i] == key[i - pp.len()]);
        }
    }
    let ups = ml.map_values(|m: Modifier| modifier_upper(m));
    let q = ups.push(key);
    let mq = split_on(c, '+').map_values(|x: Seq<char>| ascii_upper_trimmed(x));
    assert(split_on(c, '+') == names.push(key));
    assert forall|i: int| 0 <= i < q.len() implies #[trigger] mq[i] == q[i] && q[i].len() > 0 by {
        if i < ups.len() {
            lemma_modifier_texts(ml[i]);
            assert(mq[i] == ascii_upper_trimmed(names[i]));
            assert(q[i] == ascii_upper_text(names[i]));
            assert(q[i].len() == names[i].len());
        } else {
            assert(mq[i] == ascii_upper_trimmed(key));
        }
    }
    assert(mq =~= q);
    let pred_ne = |x: Seq<char>| is_nonempty(x);
    assert forall|i: int| 0 <= i < q.len() implies #[trigger] pred_ne(q[i]) by {
        assert(q[i].len() > 0);
    }
    lemma_filter_keeps_all(q, pred_ne);
    lemma_trim_shape(c);
    assert(c[c.len() - 1] == key.last());
    lemma_trim_shape(key);
    assert(!char_is_whitespace(c[c.len() - 1]));
}

/// The canonical text, read again, names the same modifiers and key.
proof fn lemma_normalize_parts_of_render(alt: bool, ctrl: bool, shift: bool, sup: bool, key: Seq<char>, raw: Seq<char>)
    requires
        canonical_key(key),
        is_valid_key(key),
    ensures
        normalize_parts_spec(
            modifier_list(alt, ctrl, shift, sup).map_values(|m: Modifier| modifier_upper(m)).push(key),
            raw,
        ) == Ok::<Seq<char>, HotkeyFault>(render(alt, ctrl, shift, sup, key)),
{
    let ml = modifier_list(alt, ctrl, shift, sup);
    let ups = ml.map_values(|m: Modifier| modifier_upper(m));
    let q = ups.push(key);
    let pred_key = |x: Seq<char>| is_key_part(x);
    assert forall|i: int| 0 <= i < ups.len() implies !pred_key(#[trigger] ups[i]) by {
        lemma_modifier_texts(ml[i]);
    }
    lemma_filter_keeps_none(ups, pred_key);
    ups.lemma_filter_push(key, pred_key);
    assert(key_parts(q) =~= seq![key]);
    assert forall|m: Modifier| names_modifier(q, m) == ml.contains(m) by {
        if names_modifier(q, m) {
            let i = choose|i: int| 0 <= i < q.len() && modifier_of(#[trigger] q[i]) == Some(m);
            if i < ups.len() {
                lemma_modifier_texts(ml[i]);
                assert(ml[i] == m);
                assert(ml.contains(m));
            } else {
                assert(q[i] == key);
            }
        }
        if ml.contains(m) {
            let i = choose|i: int| 0 <= i < ml.len() && ml[i] == m;
            lemma_modifier_texts(ml[i]);
            assert(modifier_of(q[i]) == Some(m));
        }
    }
    assert(ml.contains(Modifier::Alt) == alt);
    assert(ml.contains(Modifier::Ctrl) == ctrl);
    assert(ml.contains(Modifier::Shift) == shift);
    assert(ml.contains(Modifier::Super) == sup);
}

/// A canonical form is its own canonical form: normalizing the canonical
/// form of an ASCII shortcut text gives it back, and it is ASCII itself, so
/// that `Hotkey::new` on it gives the same shortcut.
pub proof fn lemma_canonical_is_fixed_point(raw: Seq<char>)
    requires
        is_ascii_text(raw),
        normalize_ascii(raw) is Ok,
    ensures
        match normalize_ascii(raw) {
            Ok(c) => is_ascii_text(c) && normalize_ascii(c) == Ok::<Seq<char>, HotkeyFault>(c),
            Err(_) => true,
        },
{
    let p = parts_of_ascii(raw);
    let key = key_parts(p)[0];
    let a = names_modifier(p, Modifier::Alt);
    let ct = names_modifier(p, Modifier::Ctrl);
    let sh = names_modifier(p, Modifier::Shift);
    let su = names_modifier(p, Modifier::Super);
    let c = render(a, ct, sh, su, key);
    assert(normalize_ascii(raw) == Ok::<Seq<char>, HotkeyFault>(c));
    lemma_key_is_canonical(raw);
    lemma_parts_of_render(a, ct, sh, su, key);
    lemma_normalize_parts_of_render(a, ct, sh, su, key, c);
}

/// The parts of a text split into `pieces`, each piece trimmed and then
/// upper-cased by `up`, the empty ones left out.
pub open spec fn pieces_parts(up: spec_fn(Seq<char>) -> Seq<char>, pieces: Seq<Seq<char>>) -> Seq<Seq<char>> {
    pieces.map_values(|p: Seq<char>| up(trim_chars(p))).filter(|p: Seq<char>| is_nonempty(p))
}

/// The canonical form of `raw`, with upper-casing `up`.
pub open spec fn normalize_with(up: spec_fn(Seq<char>) -> Seq<char>, raw: Seq<char>) -> Result<Seq<char>, HotkeyFault> {
    if trim_chars(raw).len() == 0 {
        Err(HotkeyFault::Empty)
    } else {
        normalize_parts_spec(pieces_parts(up, split_on(raw, '+')), raw)
    }
}

/// The upper-casing of `str::to_uppercase`.
pub open spec fn unicode_upper() -> spec_fn(Seq<char>) -> Seq<char> {
    |s: Seq<char>| uppercase_of(s)
}

/// The upper-casing of ASCII letters.
pub open spec fn ascii_upper_fn() -> spec_fn(Seq<char>) -> Seq<char> {
    |s: Seq<char>| ascii_upper_text(s)
}

/// Two outcomes of normalizing agree: both are shortcuts or neither is,
/// and they are the same shortcut where they are.
pub open spec fn agree(r1: Result<Seq<char>, HotkeyFault>, r2: Result<Seq<char>, HotkeyFault>) -> bool {
    &&& (r1 is Ok) == (r2 is Ok)
    &&& (r1 is Ok ==> r1 == r2)
}

/// The text whose `+`-separated pieces are `xs`.
pub open spec fn join_pieces(xs: Seq<Seq<char>>) -> Seq<char> {
    plus_prefix(xs.drop_last()) + xs.last()
}

/// `xs` are the pieces of a text: at least one, none holding `+`.
pub open spec fn pieces_ok(xs: Seq<Seq<char>>) -> bool {
    &&& xs.len() >= 1
    &&& forall|i: int| 0 <= i < xs.len() ==> lacks_plus(#[trigger] xs[i])
}

/// `s` with the items at `j` and `j + 1` swapped.
pub open spec fn swapped(s: Seq<Seq<char>>, j: int) -> Seq<Seq<char>> {
    s.update(j, s[j + 1]).update(j + 1, s[j])
}

proof fn lemma_normalize_with(raw: Seq<char>)
    ensures
        normalize_spec(raw) == normalize_with(unicode_upper(), raw),
        normalize_ascii(raw) == normalize_with(ascii_upper_fn(), raw),
{
    let sp = split_on(raw, '+');
    let f = unicode_upper();
    let g = ascii_upper_fn();
    assert(sp.map_values(|p: Seq<char>| upper_trimmed(p)) =~= sp.map_values(|p: Seq<char>| f(trim_chars(p))));
    assert(sp.map_values(|p: Seq<char>| ascii_upper_trimmed(p)) =~= sp.map_values(|p: Seq<char>| g(trim_chars(p))));
}

proof fn lemma_split_join(xs: Seq<Seq<char>>)
    requires
        pieces_ok(xs),
    ensures
        split_on(join_pieces(xs), '+') == xs,
{
    let d = xs.drop_last();
    assert forall|i: int| 0 <= i < d.len() implies lacks_plus(#[trigger] d[i]) by {
        assert(d[i] == xs[i]);
    }
    assert(lacks_plus(xs.last()));
    lemma_split_plus_prefix(d, xs.last());
    assert(d.push(xs.last()) =~= xs);
}

proof fn lemma_join_not_blank(xs: Seq<Seq<char>>)
    requires
        pieces_ok(xs),
        xs.len() >= 2,
    ensures
        trim_chars(join_pieces(xs)).len() > 0,
{
    let d = xs.drop_last();
    let t = join_pieces(xs);
    let k = d[0].len() as int;
    assert(plus_prefix(d) == d[0] + seq!['+'] + plus_prefix(d.drop_first()));
    assert(plus_prefix(d)[k] == '+');
    assert(t[k] == '+');
    assert(!char_is_whitespace('+'));
    lemma_trim_shape(t);
}

/// Parts read the same way that hold the same parts, as many naming no
/// modifier, from texts both blank or both not, give the same outcome.
proof fn lemma_agree_by_parts(up: spec_fn(Seq<char>) -> Seq<char>, r1: Seq<char>, r2: Seq<char>)
    requires
        pieces_parts(up, split_on(r1, '+')).to_set() == pieces_parts(up, split_on(r2, '+')).to_set(),
        key_parts(pieces_parts(up, split_on(r1, '+'))).len() == key_parts(pieces_parts(up, split_on(r2, '+'))).len(),
        (trim_chars(r1).len() == 0) == (trim_chars(r2).len() == 0),
    ensures
        agree(normalize_with(up, r1), normalize_with(up, r2)),
{
    let p = pieces_parts(up, split_on(r1, '+'));
    let q = pieces_parts(up, split_on(r2, '+'));
    if p.len() == 0 && q.len() > 0 {
        assert(q.to_set().contains(q[0]));
    }
    if q.len() == 0 && p.len() > 0 {
        assert(p.to_set().contains(p[0]));
    }
    if key_parts(p).len() == 1 {
        lemma_single_key_same(p, q);
    }
    if normalize_parts_spec(p, r1) is Ok && normalize_parts_spec(q, r2) is Ok {
        lemma_canonical_ignores_order_and_repetition(p, q, r1, r2);
    }
}

proof fn lemma_filter_pair(x: Seq<char>, y: Seq<char>, pr: spec_fn(Seq<char>) -> bool)
    ensures
        seq![x, y].filter(pr) == (if pr(x) && pr(y) { seq![x, y] } else if pr(x) { seq![x] } else if pr(y) { seq![y] } else { Seq::<Seq<char>>::empty() }),
{
    let e = Seq::<Seq<char>>::empty();
    reveal_with_fuel(Seq::filter, 1);
    assert(e.filter(pr) == e);
    e.lemma_filter_push(x, pr);
    e.push(x).lemma_filter_push(y, pr);
    assert(e.push(x) =~= seq![x]);
    assert(seq![x].push(y) =~= seq![x, y]);
    if pr(x) {
        assert(e.push(x) =~= seq![x]);
        if pr(y) {
            assert(seq![x].push(y) =~= seq![x, y]);
        }
    } else if pr(y) {
        assert(e.push(y) =~= seq![y]);
    }
}

/// Filtering two lists that differ by a swap of neighbours gives equal
/// lists or lists that differ by a swap of neighbours.
proof fn lemma_filter_swapped(a: Seq<Seq<char>>, j: int, pr: spec_fn(Seq<char>) -> bool)
    requires
        0 <= j < a.len() - 1,
    ensures
        a.filter(pr) == swapped(a, j).filter(pr)
            || exists|k: int| 0 <= k < a.filter(pr).len() - 1 && #[trigger] swapped(a.filter(pr), k) == swapped(a, j).filter(pr),
{
    let x = a[j];
    let y = a[j + 1];
    let pa = a.take(j);
    let pb = a.skip(j + 2);
    assert(a =~= pa + seq![x, y] + pb);
    assert(swapped(a, j) =~= pa + seq![y, x] + pb);
    Seq::filter_distributes_over_add(pa + seq![x, y], pb, pr);
    Seq::filter_distributes_over_add(pa, seq![x, y], pr);
    Seq::filter_distributes_over_add(pa + seq![y, x], pb, pr);
    Seq::filter_distributes_over_add(pa, seq![y, x], pr);
    lemma_filter_pair(x, y, pr);
    lemma_filter_pair(y, x, pr);
    let fa = pa.filter(pr);
    let fb = pb.filter(pr);
    if pr(x) && pr(y) {
        let k = fa.len() as int;
        assert(a.filter(pr) == fa + seq![x, y] + fb);
        assert(swapped(a.filter(pr), k) =~= fa + seq![y, x] + fb);
    } else {
        assert(a.filter(pr) =~= swapped(a, j).filter(pr));
    }
}

proof fn lemma_swapped_same_set(s: Seq<Seq<char>>, j: int)
    requires
        0 <= j < s.len() - 1,
    ensures
        swapped(s, j).to_set() == s.to_set(),
        swapped(s, j).len() == s.len(),
{
    let t = swapped(s, j);
    assert forall|e: Seq<char>| t.to_set().contains(e) <==> s.to_set().contains(e) by {
        if t.contains(e) {
            let i = choose|i: int| 0 <= i < t.len() && t[i] == e;
            if i == j {
                assert(s[j + 1] == e);
            } else if i == j + 1 {
                assert(s[j] == e);
            } else {
                assert(s[i] == e);
            }
        }
        if s.contains(e) {
            let i = choose|i: int| 0 <= i < s.len() && s[i] == e;
            if i == j {
                assert(t[j + 1] == e);
            } else if i == j + 1 {
                assert(t[j] == e);
            } else {
                assert(t[i] == e);
            }
        }
    }
    assert(t.to_set() =~= s.to_set());
}

/// Swapping two neighbouring pieces gives parts with the same set and as
/// many naming no modifier.
proof fn lemma_swap_parts(up: spec_fn(Seq<char>) -> Seq<char>, xs: Seq<Seq<char>>, i: int)
    requires
        0 <= i < xs.len() - 1,
    ensures
        pieces_parts(up, swapped(xs, i)).to_set() == pieces_parts(up, xs).to_set(),
        key_parts(pieces_parts(up, swapped(xs, i))).len() == key_parts(pieces_parts(up, xs)).len(),
{
    let f = |p: Seq<char>| up(trim_chars(p));
    let ne = |p: Seq<char>| is_nonempty(p);
    let kp = |x: Seq<char>| is_key_part(x);
    let m = xs.map_values(f);
    assert(swapped(xs, i).map_values(f) =~= swapped(m, i));
    lemma_filter_swapped(m, i, ne);
    let p = m.filter(ne);
    let q = swapped(m, i).filter(ne);
    if p != q {
        let k = choose|k: int| 0 <= k < p.len() - 1 && #[trigger] swapped(p, k) == q;
        lemma_swapped_same_set(p, k);
        lemma_filter_swapped(p, k, kp);
        if p.filter(kp) != q.filter(kp) {
            let k2 = choose|k2: int| 0 <= k2 < p.filter(kp).len() - 1 && #[trigger] swapped(p.filter(kp), k2) == q.filter(kp);
            lemma_swapped_same_set(p.filter(kp), k2);
        }
    }
}

/// Writing the pieces of a shortcut text in another order changes nothing:
/// swapping two neighbouring pieces (and so, one swap after another, any
/// reordering) gives a text that is a shortcut exactly where the first is,
/// and the same one.
pub proof fn lemma_reordering_pieces(xs: Seq<Seq<char>>, i: int)
    requires
        pieces_ok(xs),
        0 <= i < xs.len() - 1,
    ensures
        agree(normalize_spec(join_pieces(xs)), normalize_spec(join_pieces(swapped(xs, i)))),
        agree(normalize_ascii(join_pieces(xs)), normalize_ascii(join_pieces(swapped(xs, i)))),
{
    let ys = swapped(xs, i);
    assert forall|k: int| 0 <= k < ys.len() implies lacks_plus(#[trigger] ys[k]) by {
        if k == i {
            assert(ys[k] == xs[i + 1]);
        } else if k == i + 1 {
            assert(ys[k] == xs[i]);
        } else {
            assert(ys[k] == xs[k]);
        }
    }
    lemma_split_join(xs);
    lemma_split_join(ys);
    lemma_join_not_blank(xs);
    lemma_join_not_blank(ys);
    lemma_swap_parts(unicode_upper(), xs, i);
    lemma_swap_parts(ascii_upper_fn(), xs, i);
    lemma_agree_by_parts(unicode_upper(), join_pieces(xs), join_pieces(ys));
    lemma_agree_by_parts(ascii_upper_fn(), join_pieces(xs), join_pieces(ys));
    lemma_normalize_with(join_pieces(xs));
    lemma_normalize_with(join_pieces(ys));
}

proof fn lemma_modifier_nonempty(t: Seq<char>)
    requires
        modifier_of(t) is Some,
    ensures
        t.len() > 0,
{
    reveal_strlit("CTRL");
    reveal_strlit("CONTROL");
    reveal_strlit("ALT");
    reveal_strlit("SHIFT");
    reveal_strlit("SUPER");
    reveal_strlit("WIN");
    reveal_strlit("META");
}

proof fn lemma_repeat_agree(up: spec_fn(Seq<char>) -> Seq<char>, xs: Seq<Seq<char>>, i: int)
    requires
        pieces_ok(xs),
        0 <= i < xs.len(),
        modifier_of(up(trim_chars(xs[i]))) is Some,
    ensures
        agree(normalize_with(up, join_pieces(xs)), normalize_with(up, join_pieces(xs.push(xs[i])))),
{
    let ys = xs.push(xs[i]);
    assert forall|k: int| 0 <= k < ys.len() implies lacks_plus(#[trigger] ys[k]) by {
        if k < xs.len() {
            assert(ys[k] == xs[k]);
        }
    }
    lemma_split_join(xs);
    lemma_split_join(ys);
    lemma_join_not_blank(ys);
    let f = |p: Seq<char>| up(trim_chars(p));
    let ne = |p: Seq<char>| is_nonempty(p);
    let kp = |x: Seq<char>| is_key_part(x);
    let mx = xs.map_values(f);
    let t = f(xs[i]);
    assert(ys.map_values(f) =~= mx.push(t));
    lemma_modifier_nonempty(t);
    mx.lemma_filter_push(t, ne);
    let p = mx.filter(ne);
    assert(mx[i] == t);
    mx.lemma_filter_contains(ne, i);
    assert(p.push(t).to_set() =~= p.to_set()) by {
        assert forall|e: Seq<char>| p.push(t).contains(e) implies p.contains(e) by {
            let k = choose|k: int| 0 <= k < p.push(t).len() && p.push(t)[k] == e;
            if k < p.len() {
                assert(p[k] == e);
            }
        }
        assert forall|e: Seq<char>| p.contains(e) implies p.push(t).contains(e) by {
            let k = choose|k: int| 0 <= k < p.len() && p[k] == e;
            assert(p.push(t)[k] == e);
        }
    }
    p.lemma_filter_push(t, kp);
    if trim_chars(join_pieces(xs)).len() == 0 {
        // The first text is blank; the second then names no key either.
        assert(key_parts(p.push(t)) == key_parts(p));
        if key_parts(p).len() == 1 {
            // Impossible: a blank text has a single piece, whose part names
            // a modifier.
            assert(xs.len() == 1) by {
                if xs.len() >= 2 {
                    lemma_join_not_blank(xs);
                }
            }
            let k0 = key_parts(p)[0];
            assert(key_parts(p).contains(k0));
            p.lemma_filter_contains_rev(kp, k0);
            mx.lemma_filter_contains_rev(ne, k0);
            assert(mx.len() == 1);
            let j = choose|j: int| 0 <= j < mx.len() && mx[j] == k0;
            assert(j == 0 && i == 0);
            assert(k0 == t);
            assert(false);
        }
    } else {
        lemma_agree_by_parts(up, join_pieces(xs), join_pieces(ys));
    }
}

/// Writing a modifier once more changes nothing: adding a copy of a piece
/// that names a modifier gives a text that is a shortcut exactly where the
/// first is, and the same one.
pub proof fn lemma_repeating_a_modifier(xs: Seq<Seq<char>>, i: int)
    requires
        pieces_ok(xs),
        0 <= i < xs.len(),
    ensures
        modifier_of(upper_trimmed(xs[i])) is Some
            ==> agree(normalize_spec(join_pieces(xs)), normalize_spec(join_pieces(xs.push(xs[i])))),
        modifier_of(ascii_upper_trimmed(xs[i])) is Some
            ==> agree(normalize_ascii(join_pieces(xs)), normalize_ascii(join_pieces(xs.push(xs[i])))),
{
    lemma_normalize_with(join_pieces(xs));
    lemma_normalize_with(join_pieces(xs.push(xs[i])));
    if modifier_of(upper_trimmed(xs[i])) is Some {
        lemma_repeat_agree(unicode_upper(), xs, i);
    }
    if modifier_of(ascii_upper_trimmed(xs[i])) is Some {
        lemma_repeat_agree(ascii_upper_fn(), xs, i);
    }
}

/// Whitespace around a piece changes nothing: surrounding piece `i` with
/// whitespace gives a text that is a shortcut exactly where the first is,
/// and the same one.
pub proof fn lemma_whitespace_around_a_piece(xs: Seq<Seq<char>>, i: int, w1: Seq<char>, w2: Seq<char>)
    requires
        pieces_ok(xs),
        0 <= i < xs.len(),
        all_whitespace(w1),
        all_whitespace(w2),
    ensures
        agree(normalize_spec(join_pieces(xs)), normalize_spec(join_pieces(xs.update(i, w1 + xs[i] + w2)))),
        agree(normalize_ascii(join_pieces(xs)), normalize_ascii(join_pieces(xs.update(i, w1 + xs[i] + w2)))),
{
    let z = w1 + xs[i] + w2;
    let ys = xs.update(i, z);
    assert(!char_is_whitespace('+'));
    assert(lacks_plus(xs[i]));
    assert forall|k: int| 0 <= k < z.len() implies #[trigger] z[k] != '+' by {
        if k < w1.len() {
            assert(z[k] == w1[k]);
        } else if k < w1.len() + xs[i].len() {
            assert(z[k] == xs[i][k - w1.len()]);
        } else {
            assert(z[k] == w2[k - w1.len() - xs[i].len()]);
        }
    }
    assert forall|k: int| 0 <= k < ys.len() implies lacks_plus(#[trigger] ys[k]) by {
        if k != i {
            assert(ys[k] == xs[k]);
        }
    }
    lemma_split_join(xs);
    lemma_split_join(ys);
    lemma_trim_padded(w1, xs[i], w2);
    let tx = |p: Seq<char>| trim_chars(p);
    assert(ys.map_values(tx) =~= xs.map_values(tx));
    assert(pieces_parts(unicode_upper(), ys) =~= pieces_parts(unicode_upper(), xs)) by {
        let f = |p: Seq<char>| (unicode_upper())(trim_chars(p));
        assert(ys.map_values(f) =~= xs.map_values(f));
    }
    assert(pieces_parts(ascii_upper_fn(), ys) =~= pieces_parts(ascii_upper_fn(), xs)) by {
        let g = |p: Seq<char>| (ascii_upper_fn())(trim_chars(p));
        assert(ys.map_values(g) =~= xs.map_values(g));
    }
    if xs.len() >= 2 {
        lemma_join_not_blank(xs);
        lemma_join_not_blank(ys);
    } else {
        assert(join_pieces(xs) =~= xs[0]);
        assert(join_pieces(ys) =~= z);
    }
    lemma_agree_by_parts(unicode_upper(), join_pieces(xs), join_pieces(ys));
    lemma_agree_by_parts(ascii_upper_fn(), join_pieces(xs), join_pieces(ys));
    lemma_normalize_with(join_pieces(xs));
    lemma_normalize_with(join_pieces(ys));
}

/// Inserting a blank piece adds no part in an ASCII reading.
proof fn lemma_blank_parts(xs: Seq<Seq<char>>, i: int, w: Seq<char>)
    requires
        0 <= i <= xs.len(),
        all_whitespace(w),
    ensures
        pieces_parts(ascii_upper_fn(), xs.insert(i, w)) == pieces_parts(ascii_upper_fn(), xs),
{
    let ys = xs.insert(i, w);
    let g = |p: Seq<char>| (ascii_upper_fn())(trim_chars(p));
    let ne = |p: Seq<char>| is_nonempty(p);
    lemma_trim_blank(w);
    assert(g(w) =~= Seq::<char>::empty());
    let mx = xs.map_values(g);
    let a = mx.take(i);
    let b = mx.skip(i);
    assert(mx =~= a + b);
    assert(ys.map_values(g) =~= a + seq![g(w)] + b);
    Seq::filter_distributes_over_add(a, b, ne);
    Seq::filter_distributes_over_add(a + seq![g(w)], b, ne);
    Seq::filter_distributes_over_add(a, seq![g(w)], ne);
    let e = Seq::<Seq<char>>::empty();
    reveal_with_fuel(Seq::filter, 1);
    e.lemma_filter_push(g(w), ne);
    assert(e.push(g(w)) =~= seq![g(w)]);
    assert(seq![g(w)].filter(ne) =~= e);
    assert(a.filter(ne) + e =~= a.filter(ne));
}

/// Empty or blank pieces change nothing in an ASCII reading: inserting a
/// piece of whitespace (or an empty one, as `++` writes it) gives a text
/// that is a shortcut exactly where the first is, and the same one.
#[verifier::rlimit(30)]
pub proof fn lemma_blank_piece(xs: Seq<Seq<char>>, i: int, w: Seq<char>)
    requires
        pieces_ok(xs),
        0 <= i <= xs.len(),
        all_whitespace(w),
    ensures
        agree(normalize_ascii(join_pieces(xs)), normalize_ascii(join_pieces(xs.insert(i, w)))),
{
    let ys = xs.insert(i, w);
    assert(!char_is_whitespace('+'));
    assert(lacks_plus(w));
    assert forall|k: int| 0 <= k < ys.len() implies lacks_plus(#[trigger] ys[k]) by {
        if k < i {
            assert(ys[k] == xs[k]);
        } else if k > i {
            assert(ys[k] == xs[k - 1]);
        }
    }
    lemma_split_join(xs);
    lemma_split_join(ys);
    lemma_join_not_blank(ys);
    lemma_blank_parts(xs, i, w);
    if xs.len() >= 2 {
        lemma_join_not_blank(xs);
        lemma_agree_by_parts(ascii_upper_fn(), join_pieces(xs), join_pieces(ys));
    } else if trim_chars(join_pieces(xs)).len() > 0 {
        lemma_agree_by_parts(ascii_upper_fn(), join_pieces(xs), join_pieces(ys));
    } else {
        // A blank single piece has no parts, so the other text has none
        // either and is no shortcut.
        let g = |p: Seq<char>| (ascii_upper_fn())(trim_chars(p));
        let ne = |p: Seq<char>| is_nonempty(p);
        assert(join_pieces(xs) =~= xs[0]);
        assert(all_whitespace(xs[0])) by {
            lemma_trim_shape(xs[0]);
        }
        lemma_trim_blank(xs[0]);
        assert(g(xs[0]) =~= Seq::<char>::empty());
        let mx = xs.map_values(g);
        assert(mx =~= seq![g(xs[0])]);
        let e = Seq::<Seq<char>>::empty();
        reveal_with_fuel(Seq::filter, 1);
        e.lemma_filter_push(g(xs[0]), ne);
        assert(e.push(g(xs[0])) =~= mx);
        assert(mx.filter(ne) =~= e);
    }
    lemma_normalize_with(join_pieces(xs));
    lemma_normalize_with(join_pieces(ys));
}

proof fn lemma_plus_prefix_is_join(xs: Seq<Seq<char>>)
    requires
        xs.len() >= 1,
    ensures
        plus_prefix(xs) == join_pieces(xs) + seq!['+'],
{
    let dl = xs.drop_last();
    assert(xs =~= dl + seq![xs.last()]);
    lemma_plus_prefix_concat(dl, seq![xs.last()]);
    lemma_plus_prefix_one(xs.last());
    assert(plus_prefix(dl) + (xs.last() + seq!['+']) =~= plus_prefix(dl) + xs.last() + seq!['+']);
}

/// Every text is the text whose pieces are its `+`-separated pieces, so the
/// laws stated over pieces hold of every text.
pub proof fn lemma_text_is_its_pieces(t: Seq<char>)
    ensures
        pieces_ok(split_on(t, '+')),
        join_pieces(split_on(t, '+')) == t,
    decreases t.len(),
{
    lemma_split_on_nonempty(t, '+');
    lemma_split_pieces_lack_sep(t, '+');
    let sp = split_on(t, '+');
    assert forall|i: int| 0 <= i < sp.len() implies lacks_plus(#[trigger] sp[i]) by {
        assert forall|k: int| 0 <= k < sp[i].len() implies #[trigger] sp[i][k] != '+' by {
            assert(split_on(t, '+')[i][k] != '+');
        }
    }
    if t.len() == 0 {
        assert(sp == seq![Seq::<char>::empty()]);
        assert(sp.drop_last() =~= Seq::<Seq<char>>::empty());
        assert(plus_prefix(Seq::<Seq<char>>::empty()) == Seq::<char>::empty());
        assert(join_pieces(sp) =~= t);
    } else {
        let t0 = t.drop_last();
        let c = t.last();
        lemma_text_is_its_pieces(t0);
        let s0 = split_on(t0, '+');
        if c == '+' {
            assert(sp == s0.push(Seq::<char>::empty()));
            assert(sp.drop_last() =~= s0);
            lemma_plus_prefix_is_join(s0);
            assert(join_pieces(sp) =~= t0.push('+'));
        } else {
            let u = s0.update(s0.len() - 1, s0.last().push(c));
            assert(sp == u);
            assert(u.drop_last() =~= s0.drop_last());
            assert(join_pieces(sp) =~= (plus_prefix(s0.drop_last()) + s0.last()).push(c));
        }
        assert(t0.push(c) =~= t);
    }
}

/// Agreeing is an equivalence, so the single changes above may be made one
/// after another, in any number and order.
pub proof fn lemma_agree_composes(r1: Result<Seq<char>, HotkeyFault>, r2: Result<Seq<char>, HotkeyFault>, r3: Result<Seq<char>, HotkeyFault>)
    ensures
        agree(r1, r1),
        agree(r1, r2) ==> agree(r2, r1),
        agree(r1, r2) && agree(r2, r3) ==> agree(r1, r3),
{
}

/// One change of spelling of the shortcut text `a` into `b`, over its
/// `+`-separated pieces: swapping two neighbouring pieces, writing a piece
/// that names a modifier once more, putting whitespace around a piece,
/// inserting an empty or blank piece, or changing the case of letters (of
/// ASCII texts).
pub open spec fn spelling_step(a: Seq<char>, b: Seq<char>) -> bool {
    let xs = split_on(a, '+');
    ||| exists|i: int| 0 <= i < xs.len() - 1 && b == #[trigger] join_pieces(swapped(xs, i))
    ||| exists|i: int| 0 <= i < xs.len() && modifier_of(ascii_upper_trimmed(xs[i])) is Some
            && b == #[trigger] join_pieces(xs.push(xs[i]))
    ||| exists|i: int, w1: Seq<char>, w2: Seq<char>| 0 <= i < xs.len() && all_whitespace(w1) && all_whitespace(w2)
            && b == #[trigger] join_pieces(xs.update(i, w1 + xs[i] + w2))
    ||| exists|i: int, w: Seq<char>| 0 <= i <= xs.len() && all_whitespace(w)
            && b == #[trigger] join_pieces(xs.insert(i, w))
    ||| same_but_case(a, b)
}

/// `a` and `b` are one change of spelling apart, either way.
pub open spec fn linked(a: Seq<char>, b: Seq<char>) -> bool {
    spelling_step(a, b) || spelling_step(b, a)
}

/// Each text of `chain` is one change of spelling away from the next.
pub open spec fn respelling(chain: Seq<Seq<char>>) -> bool {
    &&& chain.len() >= 1
    &&& forall|k: int| #![trigger chain[k]] 0 <= k < chain.len() - 1 ==> linked(chain[k], chain[k + 1])
}

proof fn lemma_step_agrees(a: Seq<char>, b: Seq<char>)
    requires
        spelling_step(a, b),
    ensures
        agree(normalize_ascii(a), normalize_ascii(b)),
{
    lemma_text_is_its_pieces(a);
    let xs = split_on(a, '+');
    if exists|i: int| 0 <= i < xs.len() - 1 && b == #[trigger] join_pieces(swapped(xs, i)) {
        let i = choose|i: int| 0 <= i < xs.len() - 1 && b == #[trigger] join_pieces(swapped(xs, i));
        lemma_reordering_pieces(xs, i);
    } else if exists|i: int| 0 <= i < xs.len() && modifier_of(ascii_upper_trimmed(xs[i])) is Some
            && b == #[trigger] join_pieces(xs.push(xs[i])) {
        let i = choose|i: int| 0 <= i < xs.len() && modifier_of(ascii_upper_trimmed(xs[i])) is Some
            && b == #[trigger] join_pieces(xs.push(xs[i]));
        lemma_repeating_a_modifier(xs, i);
    } else if exists|i: int, w1: Seq<char>, w2: Seq<char>| 0 <= i < xs.len() && all_whitespace(w1) && all_whitespace(w2)
            && b == #[trigger] join_pieces(xs.update(i, w1 + xs[i] + w2)) {
        let (i, w1, w2) = choose|i: int, w1: Seq<char>, w2: Seq<char>| 0 <= i < xs.len() && all_whitespace(w1) && all_whitespace(w2)
            && b == #[trigger] join_pieces(xs.update(i, w1 + xs[i] + w2));
        lemma_whitespace_around_a_piece(xs, i, w1, w2);
    } else if exists|i: int, w: Seq<char>| 0 <= i <= xs.len() && all_whitespace(w)
            && b == #[trigger] join_pieces(xs.insert(i, w)) {
        let (i, w) = choose|i: int, w: Seq<char>| 0 <= i <= xs.len() && all_whitespace(w)
            && b == #[trigger] join_pieces(xs.insert(i, w));
        lemma_blank_piece(xs, i, w);
    } else {
        lemma_case_insensitive(a, b);
    }
}

/// A shortcut does not depend on its spelling: texts reached from one
/// another by any number of changes of spelling (reordering the pieces,
/// changing the case of letters, whitespace around pieces, empty pieces,
/// modifiers written more than once, each made or undone) are both
/// shortcuts or neither, and the same one where they are. This is the
/// reading of ASCII texts, which is `Hotkey::new`'s on them.
pub proof fn lemma_spelling_does_not_matter(chain: Seq<Seq<char>>)
    requires
        respelling(chain),
    ensures
        agree(normalize_ascii(chain[0]), normalize_ascii(chain.last())),
    decreases chain.len(),
{
    if chain.len() > 1 {
        let c0 = chain.drop_last();
        assert forall|k: int| #![trigger c0[k]] 0 <= k < c0.len() - 1 implies linked(c0[k], c0[k + 1]) by {
            assert(c0[k] == chain[k]);
            assert(c0[k + 1] == chain[k + 1]);
            assert(linked(chain[k], chain[k + 1]));
        }
        lemma_spelling_does_not_matter(c0);
        let n = chain.len() - 2;
        assert(linked(chain[n], chain[n + 1]));
        if spelling_step(chain[n], chain[n + 1]) {
            lemma_step_agrees(chain[n], chain[n + 1]);
        } else {
            lemma_step_agrees(chain[n + 1], chain[n]);
        }
        assert(c0.last() == chain[n]);
        assert(c0[0] == chain[0]);
    }
}

/// The keys a shortcut may end with: each of the function keys `F1` to
/// `F12`, each single ASCII letter or digit, each of the twenty named keys
/// (`ENTER`, `BACKSPACE`, `SPACE`, `TAB`, `CAPS`, `ESCAPE`, `NUMLOCK`,
/// `SCROLLLOCK`, `PAUSE`, `PRINTSCREEN`, `INSERT`, `DELETE`, `HOME`, `END`,
/// `PAGEUP`, `PAGEDOWN`, `UP`, `DOWN`, `LEFT`, `RIGHT`) and anything
/// starting with `NUMPAD` is accepted; and a modifier written alone is no key.
pub proof fn lemma_accepted_keys(c: char, rest: Seq<char>)
    ensures
        is_valid_key("F1"@) && is_valid_key("F2"@) && is_valid_key("F3"@) && is_valid_key("F4"@),
        is_valid_key("F5"@) && is_valid_key("F6"@) && is_valid_key("F7"@) && is_valid_key("F8"@),
        is_valid_key("F9"@) && is_valid_key("F10"@) && is_valid_key("F11"@) && is_valid_key("F12"@),
        is_valid_key("ENTER"@) && is_valid_key("BACKSPACE"@) && is_valid_key("SPACE"@) && is_valid_key("TAB"@),
        is_valid_key("CAPS"@) && is_valid_key("ESCAPE"@) && is_valid_key("NUMLOCK"@) && is_valid_key("SCROLLLOCK"@),
        is_valid_key("PAUSE"@) && is_valid_key("PRINTSCREEN"@) && is_valid_key("INSERT"@) && is_valid_key("DELETE"@),
        is_valid_key("HOME"@) && is_valid_key("END"@) && is_valid_key("PAGEUP"@) && is_valid_key("PAGEDOWN"@),
        is_valid_key("UP"@) && is_valid_key("DOWN"@) && is_valid_key("LEFT"@) && is_valid_key("RIGHT"@),
        ('0' <= c && c <= '9') || ('A' <= c && c <= 'Z') || ('a' <= c && c <= 'z') ==> is_valid_key(seq![c]),
        is_valid_key("NUMPAD"@ + rest),
        !is_key_part("CTRL"@) && !is_key_part("CONTROL"@) && !is_key_part("ALT"@) && !is_key_part("SHIFT"@),
        !is_key_part("SUPER"@) && !is_key_part("WIN"@) && !is_key_part("META"@),
{
    let t = "NUMPAD"@ + rest;
    assert(t.subrange(0, "NUMPAD"@.len() as int) =~= "NUMPAD"@);
}

} // verus!
