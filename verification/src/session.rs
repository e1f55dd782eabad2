//! The decisions of the application's window: connecting to OBS, keeping
//! the effects' shortcuts registered, playing effects, and running the
//! background music. Each operation takes what the outside world answered
//! and gives back the state that follows and the effects for the caller to
//! carry out.

use vstd::prelude::*;
use std::collections::HashMap;
use rand::RngCore;
use vstd::std_specs::iter::IteratorSpec;
use vstd::string::to_string_from_display_ensures;
use crate::bard::{BardState, transition_allowed};
use crate::config::{AppConfig, SoundpadClip};
use crate::conflict_checker::HotkeyConflictChecker;
use crate::register_hotkey::{HotkeyListener, RegisterError, register_hotkey, register_outcome, register_message};
use crate::hotkey::{Hotkey, normalize_spec};
use crate::use_cases::{find_clip, is_first_clip, no_clip};
use crate::text::same_text;
use crate::paths::{path_extension, path_file_stem, follows_dot, extension_fact, stem_fact, opt_chars};
use crate::bard::{AudioChannel, is_active};

verus! {

broadcast use {
    vstd::seq_lib::group_seq_properties,
    vstd::std_specs::hash::group_hash_axioms,
    vstd::map::group_map_axioms,
};

/// Lines of log kept; older lines are dropped.
pub const MAX_LOG_LINES: usize = 100;

/// The tabs of the window.
#[derive(Debug, Clone, Copy, PartialEq, Eq, Structural, Default)]
pub enum Tab {
    #[default]
    Soundpad,
    Bard,
    Settings,
}

/// What a click on the tray menu asks for.
#[derive(Debug, Clone, Copy, PartialEq, Eq, Structural)]
pub enum TrayAction {
    ShowWindow,
    BardToggle,
    BardSkip,
    Quit,
    NoAction,
}

/// The menu item that shows the window.
pub const MENU_SHOW: &'static str = "show_window";
/// The menu item that starts or pauses the music.
pub const MENU_BARD_TOGGLE: &'static str = "bard_toggle";
/// The menu item that skips to another track.
pub const MENU_BARD_SKIP: &'static str = "bard_skip";
/// The menu item that quits.
pub const MENU_QUIT: &'static str = "quit";

/// The action for a click on the menu item `id` (`None` where no click is
/// pending).
pub open spec fn tray_action_spec(id: Option<Seq<char>>) -> TrayAction {
    match id {
        None => TrayAction::NoAction,
        Some(i) => if i == MENU_SHOW@ {
            TrayAction::ShowWindow
        } else if i == MENU_BARD_TOGGLE@ {
            TrayAction::BardToggle
        } else if i == MENU_BARD_SKIP@ {
            TrayAction::BardSkip
        } else if i == MENU_QUIT@ {
            TrayAction::Quit
        } else {
            TrayAction::NoAction
        },
    }
}

/// The action for a click on the menu item `id` (`None` where no click is
/// pending).
pub fn tray_action_for(id: Option<&str>) -> (r: TrayAction)
    ensures
        r == tray_action_spec(match id { Some(s) => Some(s@), None => None }),
{
    match id {
        None => TrayAction::NoAction,
        Some(i) => if same_text(i, MENU_SHOW) {
            TrayAction::ShowWindow
        } else if same_text(i, MENU_BARD_TOGGLE) {
            TrayAction::BardToggle
        } else if same_text(i, MENU_BARD_SKIP) {
            TrayAction::BardSkip
        } else if same_text(i, MENU_QUIT) {
            TrayAction::Quit
        } else {
            TrayAction::NoAction
        },
    }
}

/// What the caller is to carry out.
#[derive(Debug, Clone)]
pub enum Effect {
    /// Run `PlaySoundEffect` for the effect with this id.
    PlaySoundEffect { clip_id: String },
    /// Run `ActivateBard` with this music file.
    ActivateBard { file: String },
    /// Run `SkipBardTrack` with this music file.
    SkipBardTrack { file: String },
    /// Run `PauseBard`.
    PauseBard,
    /// Show the window and give it focus.
    ShowWindow,
    /// Keep the window open but hide it.
    HideWindow,
    /// Close the window, ending the application.
    CloseWindow,
}

/// An effect over plain values.
pub enum EffectView {
    PlaySoundEffect(Seq<char>),
    ActivateBard(Seq<char>),
    SkipBardTrack(Seq<char>),
    PauseBard,
    ShowWindow,
    HideWindow,
    CloseWindow,
}

impl View for Effect {
    type V = EffectView;

    open spec fn view(&self) -> EffectView {
        match self {
            Effect::PlaySoundEffect { clip_id } => EffectView::PlaySoundEffect(clip_id@),
            Effect::ActivateBard { file } => EffectView::ActivateBard(file@),
            Effect::SkipBardTrack { file } => EffectView::SkipBardTrack(file@),
            Effect::PauseBard => EffectView::PauseBard,
            Effect::ShowWindow => EffectView::ShowWindow,
            Effect::HideWindow => EffectView::HideWindow,
            Effect::CloseWindow => EffectView::CloseWindow,
        }
    }
}

pub open spec fn effects_view(v: Seq<Effect>) -> Seq<EffectView> {
    v.map_values(|e: Effect| e@)
}

/// What a look at the pending connection attempt found.
#[derive(Debug, Clone)]
pub enum ConnectPoll {
    /// No answer yet.
    Pending,
    /// Connected.
    Connected,
    /// The attempt failed with this message.
    Failed(String),
    /// The attempt's channel closed without an answer.
    Closed,
}

/// The session over plain values.
pub struct SessionView {
    pub bard_state: BardState,
    pub connected: bool,
    pub awaiting_connection: bool,
    pub window_visible: bool,
    pub current_song: Option<Seq<char>>,
    pub logs: Seq<Seq<char>>,
    pub hotkeys: Set<Seq<char>>,
    pub clip_of: Map<u32, Seq<char>>,
    pub last_tick: Option<u128>,
    pub active_effects: u64,
}

/// `logs` with `msg` appended, the oldest line dropped beyond the limit.
pub open spec fn push_log(logs: Seq<Seq<char>>, msg: Seq<char>) -> Seq<Seq<char>> {
    let l = logs.push(msg);
    if l.len() > MAX_LOG_LINES {
        l.drop_first()
    } else {
        l
    }
}

/// The state of the window's logic between frames.
pub struct Session {
    bard_state: BardState,
    connected: bool,
    awaiting_connection: bool,
    window_visible: bool,
    current_song: Option<String>,
    logs: Vec<String>,
    hotkey_checker: HotkeyConflictChecker,
    hotkey_to_clip: HashMap<u32, String>,
    last_tick: Option<u128>,
    active_effects: u64,
}

pub open spec fn opt_text(o: Option<String>) -> Option<Seq<char>> {
    match o {
        Some(s) => Some(s@),
        None => None,
    }
}

impl View for Session {
    type V = SessionView;

    closed spec fn view(&self) -> SessionView {
        SessionView {
            bard_state: self.bard_state,
            connected: self.connected,
            awaiting_connection: self.awaiting_connection,
            window_visible: self.window_visible,
            current_song: opt_text(self.current_song),
            logs: self.logs@.map_values(|s: String| s@),
            hotkeys: self.hotkey_checker@,
            clip_of: self.hotkey_to_clip@.map_values(|s: String| s@),
            last_tick: self.last_tick,
            active_effects: self.active_effects,
        }
    }
}

impl Session {
    /// The log holds at most `MAX_LOG_LINES` lines.
    pub closed spec fn wf(&self) -> bool {
        self.logs@.len() <= MAX_LOG_LINES
    }

    /// A fresh session: music idle, not connected, window shown, nothing
    /// logged or registered.
    pub fn new() -> (r: Session)
        ensures
            r.wf(),
            r@.bard_state == BardState::Idle,
            !r@.connected,
            !r@.awaiting_connection,
            r@.window_visible,
            r@.current_song is None,
            r@.logs == Seq::<Seq<char>>::empty(),
            r@.hotkeys == Set::<Seq<char>>::empty(),
            r@.clip_of == Map::<u32, Seq<char>>::empty(),
            r@.last_tick is None,
            r@.active_effects == 0,
    {
        let r = Session {
            bard_state: BardState::Idle,
            connected: false,
            awaiting_connection: false,
            window_visible: true,
            current_song: None,
            logs: Vec::new(),
            hotkey_checker: HotkeyConflictChecker::new(),
            hotkey_to_clip: HashMap::new(),
            last_tick: None,
            active_effects: 0,
        };
        assert(r@.logs =~= Seq::<Seq<char>>::empty());
        assert(r@.clip_of =~= Map::<u32, Seq<char>>::empty());
        r
    }

    pub fn bard_state(&self) -> (r: BardState)
        ensures
            r == self@.bard_state,
    {
        self.bard_state
    }

    pub fn is_connected(&self) -> (r: bool)
        ensures
            r == self@.connected,
    {
        self.connected
    }

    pub fn is_awaiting_connection(&self) -> (r: bool)
        ensures
            r == self@.awaiting_connection,
    {
        self.awaiting_connection
    }

    pub fn is_window_visible(&self) -> (r: bool)
        ensures
            r == self@.window_visible,
    {
        self.window_visible
    }

    pub fn current_song(&self) -> (r: Option<&String>)
        ensures
            match r {
                Some(s) => self@.current_song == Some(s@),
                None => self@.current_song is None,
            },
    {
        self.current_song.as_ref()
    }

    pub fn logs(&self) -> (r: &Vec<String>)
        ensures
            r@.map_values(|s: String| s@) == self@.logs,
    {
        &self.logs
    }

    /// Appends `msg` to the log, dropping the oldest line beyond
    /// `MAX_LOG_LINES`.
    pub fn add_log(&mut self, msg: String)
        requires
            old(self).wf(),
        ensures
            final(self).wf(),
            final(self)@ == (SessionView { logs: push_log(old(self)@.logs, msg@), ..old(self)@ }),
    {
        let ghost before = self.logs@;
        self.logs.push(msg);
        if self.logs.len() > MAX_LOG_LINES {
            self.logs.remove(0);
        }
        proof {
            let l = before.map_values(|s: String| s@).push(msg@);
            assert(before.push(msg).map_values(|s: String| s@) =~= l);
            if before.len() + 1 > MAX_LOG_LINES {
                assert(self.logs@.map_values(|s: String| s@) =~= l.drop_first());
            } else {
                assert(self.logs@.map_values(|s: String| s@) =~= l);
            }
        }
    }

    fn log_text(&mut self, msg: &str)
        requires
            old(self).wf(),
        ensures
            final(self).wf(),
            final(self)@ == (SessionView { logs: push_log(old(self)@.logs, msg@), ..old(self)@ }),
    {
        self.add_log(msg.to_owned());
    }
}

/// The canonical form of a shortcut text, if it is a shortcut.
pub open spec fn canonical_of(text: Seq<char>) -> Option<Seq<char>> {
    match normalize_spec(text) {
        Ok(c) => Some(c),
        Err(_) => None,
    }
}

/// The shortcut of effect `i` is also the shortcut of an effect with
/// another id.
pub open spec fn duplicated(clips: Seq<SoundpadClip>, i: int) -> bool {
    canonical_of(clips[i].hotkey@) is Some && exists|j: int|
        0 <= j < clips.len() && #[trigger] clips[j].id@ != clips[i].id@
            && canonical_of(clips[j].hotkey@) == canonical_of(clips[i].hotkey@)
}

/// The keys that effects before position `n` take when their shortcuts are
/// registered: those of valid shortcuts that no effect with another id
/// shares.
pub open spec fn eligible_upto(clips: Seq<SoundpadClip>, n: int) -> Set<Seq<char>> {
    Set::new(|c: Seq<char>| exists|i: int| 0 <= i < n && #[trigger] canonical_of(clips[i].hotkey@) == Some(c) && !duplicated(clips, i))
}

/// The keys that the effects take when their shortcuts are registered.
pub open spec fn eligible_keys(clips: Seq<SoundpadClip>) -> Set<Seq<char>> {
    eligible_upto(clips, clips.len() as int)
}

/// Whether some effect of `clips` has id `id`.
pub open spec fn is_clip_id(clips: Seq<SoundpadClip>, id: Seq<char>) -> bool {
    exists|i: int| 0 <= i < clips.len() && #[trigger] clips[i].id@ == id
}

impl Session {
    /// The numbers of the registered shortcuts.
    fn registered_ids(&self) -> (r: Vec<u32>)
        ensures
            r@.to_set() == self.hotkey_to_clip@.dom(),
            r@.no_duplicates(),
    {
        let mut r: Vec<u32> = Vec::new();
        let ghost all = vstd::std_specs::hash::spec_keys_iter(&self.hotkey_to_clip).remaining();
        for k in it: self.hotkey_to_clip.keys()
            invariant
                it.seq() == all,
                r@ == all.take(it.index() as int).map_values(|x: &u32| *x),
            ensures
                r@ == all.map_values(|x: &u32| *x),
        {
            r.push(*k);
        }
        proof {
            let m = all.map_values(|x: &u32| *x);
            assert(all.unref().to_set() == self.hotkey_to_clip@.dom());
            assert(all.unref() =~= m);
        }
        r
    }

    /// Whether some registered number plays the effect with id `clip_id`.
    pub fn plays_clip(&self, clip_id: &str) -> (r: bool)
        ensures
            r == exists|k: u32| self@.clip_of.contains_key(k) && #[trigger] self@.clip_of[k] == clip_id@,
    {
        let ids = self.registered_ids();
        let mut i: usize = 0;
        while i < ids.len()
            invariant
                i <= ids@.len(),
                ids@.to_set() == self.hotkey_to_clip@.dom(),
                forall|j: int| 0 <= j < i ==> #[trigger] self@.clip_of[ids@[j]] != clip_id@,
            decreases ids@.len() - i,
        {
            let id = ids[i];
            assert(ids@.to_set().contains(id));
            match self.hotkey_to_clip.get(&id) {
                Some(v) => {
                    if same_text(v.as_str(), clip_id) {
                        assert(self@.clip_of.contains_key(id));
                        assert(self@.clip_of[id] == clip_id@);
                        return true;
                    }
                },
                None => {},
            }
            i = i + 1;
        }
        proof {
            assert forall|k: u32| self@.clip_of.contains_key(k) implies #[trigger] self@.clip_of[k] != clip_id@ by {
                assert(ids@.to_set().contains(k));
                let j = choose|j: int| 0 <= j < ids@.len() && ids@[j] == k;
                assert(self@.clip_of[ids@[j]] != clip_id@);
            }
        }
        false
    }

    /// Registers the shortcut of `clip` with the checker and `listener`, and
    /// remembers which effect the listener's number plays.
    pub fn register_clip_hotkey<L: HotkeyListener + ?Sized>(&mut self, clip: &SoundpadClip, listener: &mut L) -> (r: Result<(), RegisterError>)
        requires
            old(self).wf(),
        ensures
            final(self).wf(),
            exists|res: Result<u32, RegisterError>| #![trigger register_outcome(clip.hotkey@, old(self)@.hotkeys, final(self)@.hotkeys, res)]
                register_outcome(clip.hotkey@, old(self)@.hotkeys, final(self)@.hotkeys, res)
                && match res {
                    Ok(id) => r is Ok && final(self)@.clip_of == old(self)@.clip_of.insert(id, clip.id@),
                    Err(e) => r == Err::<(), RegisterError>(e) && final(self)@.clip_of == old(self)@.clip_of,
                },
            final(self)@ == (SessionView { hotkeys: final(self)@.hotkeys, clip_of: final(self)@.clip_of, ..old(self)@ }),
    {
        let res = register_hotkey(listener, &mut self.hotkey_checker, clip.hotkey.as_str());
        let ghost res_g = res;
        match res {
            Ok(id) => {
                self.hotkey_to_clip.insert(id, clip.id.clone());
                assert(self@.clip_of =~= old(self)@.clip_of.insert(id, clip.id@));
                assert(register_outcome(clip.hotkey@, old(self)@.hotkeys, self@.hotkeys, res_g));
                Ok(())
            },
            Err(e) => {
                assert(register_outcome(clip.hotkey@, old(self)@.hotkeys, self@.hotkeys, res_g));
                Err(e)
            },
        }
    }
}

/// `m` without the entries that play effect `id`.
pub open spec fn without_clip(m: Map<u32, Seq<char>>, id: Seq<char>) -> Map<u32, Seq<char>> {
    Map::new(|k: u32| m.contains_key(k) && m[k] != id, |k: u32| m[k])
}

/// The log line of an effect whose shortcut another effect shares.
pub open spec fn duplicate_line(clip: SoundpadClip) -> Seq<char> {
    "❌ Clip '"@ + clip.filename@ + "' ("@ + clip.hotkey@ + ") - hotkey duplicada entre clips"@
}

/// The log line of an effect whose shortcut could not be registered.
pub open spec fn refused_line(clip: SoundpadClip, reason: Seq<char>) -> Seq<char> {
    "❌ Clip '"@ + clip.filename@ + "' ("@ + clip.hotkey@ + ") - "@ + reason
}

/// The opening log line of a synchronization.
pub open spec fn sync_opening_line() -> Seq<char> {
    "🔄 Sincronizando hotkeys..."@
}

/// The log after the step `o` of a synchronization for effect `clip`: a
/// line where its keys are shared with another effect, a line with the
/// reason where registering it was refused, and nothing where it was
/// registered.
pub open spec fn step_log(logs: Seq<Seq<char>>, clip: SoundpadClip, o: Option<Result<u32, RegisterError>>) -> Seq<Seq<char>> {
    match o {
        None => push_log(logs, duplicate_line(clip)),
        Some(Ok(_)) => logs,
        Some(Err(e)) => push_log(logs, refused_line(clip, register_message(e))),
    }
}

/// The log after the steps `outs` of a synchronization, effect by effect.
pub open spec fn sync_log(logs: Seq<Seq<char>>, clips: Seq<SoundpadClip>, outs: Seq<Option<Result<u32, RegisterError>>>) -> Seq<Seq<char>>
    decreases outs.len(),
{
    if outs.len() == 0 {
        logs
    } else {
        step_log(sync_log(logs, clips, outs.drop_last()), clips[outs.len() - 1], outs.last())
    }
}

/// The closing log line of a synchronization.
pub open spec fn summary_line(registered: Seq<char>, refused: Seq<char>) -> Seq<char> {
    "📊 Resultado: "@ + registered + " registradas, "@ + refused + " com conflito"@
}

impl Session {
    /// Stops watching every registered shortcut and forgets them, unless
    /// none is registered.
    fn unregister_all_hotkeys<L: HotkeyListener + ?Sized>(&mut self, listener: &mut L)
        requires
            old(self).wf(),
        ensures
            final(self).wf(),
            all_unregistered(old(self)@, final(self)@),
    {
        if self.hotkey_to_clip.is_empty() {
            assert(self@.clip_of.dom() =~= self.hotkey_to_clip@.dom());
            return;
        }
        assert(self@.clip_of.dom() =~= self.hotkey_to_clip@.dom());
        let ids = self.registered_ids();
        let mut i: usize = 0;
        while i < ids.len()
            invariant
                self.wf(),
                i <= ids@.len(),
                self@ == (SessionView { logs: self@.logs, ..old(self)@ }),
            decreases ids@.len() - i,
        {
            let id = ids[i];
            match listener.unregister(id) {
                Ok(()) => {},
                Err(e) => {
                    let mut msg = "⚠️  Erro ao desregistrar hotkey ".to_owned();
                    let n = id.to_string();
                    msg.append(n.as_str());
                    msg.append(": ");
                    msg.append(e.as_str());
                    self.add_log(msg);
                },
            }
            i = i + 1;
        }
        self.hotkey_to_clip.clear();
        self.hotkey_checker.clear();
        assert(self@.clip_of =~= Map::<u32, Seq<char>>::empty());
    }

    /// Stops watching the shortcut of `clip`: takes its keys out of use and
    /// drops the numbers that play it.
    pub fn unregister_clip_hotkey<L: HotkeyListener + ?Sized>(&mut self, clip: &SoundpadClip, listener: &mut L)
        requires
            old(self).wf(),
        ensures
            final(self).wf(),
            canonical_of(clip.hotkey@) is None ==> final(self)@ == old(self)@,
            canonical_of(clip.hotkey@) matches Some(c) ==> final(self)@ == (SessionView {
                hotkeys: old(self)@.hotkeys.remove(c),
                clip_of: without_clip(old(self)@.clip_of, clip.id@),
                ..old(self)@
            }),
    {
        let hotkey = match Hotkey::new(clip.hotkey.as_str()) {
            Ok(h) => h,
            Err(_) => return,
        };
        self.hotkey_checker.unregister(&hotkey);
        let ghost m0 = self@.clip_of;
        let ids = self.registered_ids();
        let mut i: usize = 0;
        while i < ids.len()
            invariant
                self.wf(),
                i <= ids@.len(),
                ids@.to_set() == m0.dom(),
                ids@.no_duplicates(),
                self@.clip_of == Map::new(
                    |k: u32| m0.contains_key(k) && !(ids@.take(i as int).contains(k) && m0[k] == clip.id@),
                    |k: u32| m0[k],
                ),
                self@ == (SessionView { clip_of: self@.clip_of, ..old(self)@ }.hotkeys_removed(hotkey.canonical())),
            decreases ids@.len() - i,
        {
            let id = ids[i];
            proof {
                assert(ids@.take(i + 1) == ids@.take(i as int).push(id));
                assert(!ids@.take(i as int).contains(id)) by {
                    if ids@.take(i as int).contains(id) {
                        let j = choose|j: int| 0 <= j < i && ids@.take(i as int)[j] == id;
                        assert(ids@[j] == ids@[i as int]);
                    }
                }
                assert(ids@.to_set().contains(id));
            }
            let ghost cur = self.hotkey_to_clip@;
            let ghost mi = self@.clip_of;
            proof {
                assert(mi.contains_key(id));
                assert(cur.contains_key(id));
                assert(mi[id] == m0[id]);
                assert(mi[id] == cur[id]@);
            }
            let plays_clip = match self.hotkey_to_clip.get(&id) {
                Some(v) => *v == clip.id,
                None => false,
            };
            assert(plays_clip == (m0[id] == clip.id@));
            if plays_clip {
                self.hotkey_to_clip.remove(&id);
                let _ = listener.unregister(id);
                assert(self.hotkey_to_clip@ == cur.remove(id));
            } else {
                assert(self.hotkey_to_clip@ == cur);
            }
            proof {
                let target = Map::new(
                    |k: u32| m0.contains_key(k) && !(ids@.take(i + 1).contains(k) && m0[k] == clip.id@),
                    |k: u32| m0[k],
                );
                assert forall|k: u32| #[trigger] self@.clip_of.contains_key(k) <==> target.contains_key(k) by {
                    if k != id {
                        assert(ids@.take(i + 1).contains(k) <==> ids@.take(i as int).contains(k)) by {
                            if ids@.take(i + 1).contains(k) {
                                let j = choose|j: int| 0 <= j < i + 1 && #[trigger] ids@.take(i + 1)[j] == k;
                                assert(ids@.take(i as int)[j] == k);
                            }
                            if ids@.take(i as int).contains(k) {
                                let j = choose|j: int| 0 <= j < i && #[trigger] ids@.take(i as int)[j] == k;
                                assert(ids@.take(i + 1)[j] == k);
                            }
                        }
                        assert(self.hotkey_to_clip@.contains_key(k) == cur.contains_key(k));
                        assert(mi.contains_key(k) == cur.contains_key(k));
                    } else {
                        assert(ids@.take(i + 1).contains(id)) by {
                            assert(ids@.take(i + 1)[i as int] == id);
                        }
                    }
                }
                assert forall|k: u32| #[trigger] self@.clip_of.contains_key(k) implies self@.clip_of[k] == target[k] by {
                    assert(self.hotkey_to_clip@.contains_key(k));
                    assert(self@.clip_of[k] == self.hotkey_to_clip@[k]@);
                    assert(self.hotkey_to_clip@[k] == cur[k]);
                    assert(cur.contains_key(k));
                    assert(mi.contains_key(k));
                    assert(mi[k] == cur[k]@);
                    assert(mi[k] == m0[k]);
                }
                assert(self@.clip_of =~= target);
            }
            i = i + 1;
        }
        proof {
            assert(ids@.take(ids@.len() as int) == ids@);
            assert(self@.clip_of =~= without_clip(m0, clip.id@));
        }
    }
}

/// Whether an effect other than by id than `clips[i]` has the shortcut
/// `hotkey`, which is that of `clips[i]`.
fn has_duplicate(clips: &Vec<SoundpadClip>, i: usize, hotkey: &Hotkey) -> (r: bool)
    requires
        i < clips@.len(),
        canonical_of(clips@[i as int].hotkey@) == Some(hotkey.canonical()),
    ensures
        r == duplicated(clips@, i as int),
{
    let mut j: usize = 0;
    while j < clips.len()
        invariant
            i < clips@.len(),
            j <= clips@.len(),
            canonical_of(clips@[i as int].hotkey@) == Some(hotkey.canonical()),
            forall|k: int| 0 <= k < j ==> !(#[trigger] clips@[k].id@ != clips@[i as int].id@
                && canonical_of(clips@[k].hotkey@) == canonical_of(clips@[i as int].hotkey@)),
        decreases clips@.len() - j,
    {
        if clips[j].id != clips[i].id {
            match Hotkey::new(clips[j].hotkey.as_str()) {
                Ok(other) => {
                    if hotkey.conflict_with(&other) {
                        assert(clips@[j as int].id@ != clips@[i as int].id@);
                        return true;
                    }
                },
                Err(_) => {},
            }
        }
        j = j + 1;
    }
    false
}

impl Session {
    /// Registers again the shortcuts of `clips`: first forgets those
    /// registered, then registers each effect's shortcut unless another
    /// effect, by id, has the same keys; logs each refusal and a summary.
    pub fn sync_hotkeys<L: HotkeyListener + ?Sized>(&mut self, clips: &Vec<SoundpadClip>, listener: &mut L)
        requires
            old(self).wf(),
        ensures
            final(self).wf(),
            synced(old(self)@, final(self)@, clips@),
    {
        self.unregister_all_hotkeys(listener);
        let ghost mid = self@;
        self.log_text("🔄 Sincronizando hotkeys...");
        let ghost start = self@.logs;
        let ghost base = self@.hotkeys;
        assert(self@.clip_of.is_empty());
        assert(self@.clip_of =~= Map::<u32, Seq<char>>::empty());
        let ghost mut outs: Seq<Option<Result<u32, RegisterError>>> = Seq::empty();
        let mut success: usize = 0;
        let mut conflict: usize = 0;
        let mut i: usize = 0;
        while i < clips.len()
            invariant
                self.wf(),
                i <= clips@.len(),
                success + conflict == i,
                base == (if old(self)@.clip_of.is_empty() { old(self)@.hotkeys } else { Set::<Seq<char>>::empty() }),
                self@.hotkeys == base.union(eligible_upto(clips@, i as int)),
                forall|k: u32| #[trigger] self@.clip_of.contains_key(k) ==> is_clip_id(clips@, self@.clip_of[k]),
                self@ == (SessionView { logs: self@.logs, hotkeys: self@.hotkeys, clip_of: self@.clip_of, ..old(self)@ }),
                outs.len() == i,
                forall|j: int| 0 <= j < i ==> #[trigger] sync_step(base, clips@, j, outs[j]),
                self@.clip_of == mapped(clips@, outs),
                success == ok_count(outs),
                self@.logs == sync_log(start, clips@, outs),
            decreases clips@.len() - i,
        {
            let clip = &clips[i];
            let ghost before = self@.hotkeys;
            let ghost logs0 = self@.logs;
            let ghost mut o: Option<Result<u32, RegisterError>> = None;
            let mut skip = false;
            match Hotkey::new(clip.hotkey.as_str()) {
                Ok(new_hk) => {
                    if has_duplicate(clips, i, &new_hk) {
                        conflict = conflict + 1;
                        let mut msg = "❌ Clip '".to_owned();
                        msg.append(clip.filename.as_str());
                        msg.append("' (");
                        msg.append(clip.hotkey.as_str());
                        msg.append(") - hotkey duplicada entre clips");
                        assert(msg@ == duplicate_line(clips@[i as int]));
                        self.add_log(msg);
                        skip = true;
                    }
                },
                Err(_) => {},
            }
            if !skip {
                let ghost m_before = self@.clip_of;
                let ghost v_before = self@;
                let reg = self.register_clip_hotkey(clip, listener);
                proof {
                    let res = choose|res: Result<u32, RegisterError>| #![trigger register_outcome(clip.hotkey@, v_before.hotkeys, self@.hotkeys, res)]
                        register_outcome(clip.hotkey@, v_before.hotkeys, self@.hotkeys, res)
                        && match res {
                            Ok(id) => reg is Ok && self@.clip_of == v_before.clip_of.insert(id, clip.id@),
                            Err(e) => reg == Err::<(), RegisterError>(e) && self@.clip_of == v_before.clip_of,
                        };
                    o = Some(res);
                }
                match reg {
                    Ok(()) => {
                        success = success + 1;
                    },
                    Err(e) => {
                        conflict = conflict + 1;
                        let mut msg = "❌ Clip '".to_owned();
                        msg.append(clip.filename.as_str());
                        msg.append("' (");
                        msg.append(clip.hotkey.as_str());
                        msg.append(") - ");
                        let reason = e.message();
                        msg.append(reason.as_str());
                        assert(msg@ == refused_line(clips@[i as int], register_message(e)));
                        self.add_log(msg);
                    },
                }
                proof {
                    assert forall|k: u32| #[trigger] self@.clip_of.contains_key(k) implies is_clip_id(clips@, self@.clip_of[k]) by {
                        if !m_before.contains_key(k) || self@.clip_of[k] != m_before[k] {
                            assert(clips@[i as int].id@ == self@.clip_of[k]);
                        }
                    }
                }
            }
            proof {
                let e_next = eligible_upto(clips@, i + 1);
                let e_prev = eligible_upto(clips@, i as int);
                if let Some(c) = canonical_of(clips@[i as int].hotkey@) {
                    if !duplicated(clips@, i as int) {
                        assert(e_next =~= e_prev.insert(c)) by {
                            assert forall|x: Seq<char>| e_next.contains(x) implies e_prev.insert(c).contains(x) by {
                                let w = choose|w: int| 0 <= w < i + 1 && #[trigger] canonical_of(clips@[w].hotkey@) == Some(x) && !duplicated(clips@, w);
                                if w < i {
                                    assert(e_prev.contains(x));
                                }
                            }
                            assert(canonical_of(clips@[i as int].hotkey@) == Some(c));
                        }
                        assert(self@.hotkeys =~= base.union(e_next));
                    } else {
                        assert(e_next =~= e_prev) by {
                            assert forall|x: Seq<char>| e_next.contains(x) implies e_prev.contains(x) by {
                                let w = choose|w: int| 0 <= w < i + 1 && #[trigger] canonical_of(clips@[w].hotkey@) == Some(x) && !duplicated(clips@, w);
                            }
                        }
                    }
                } else {
                    assert(e_next =~= e_prev) by {
                        assert forall|x: Seq<char>| e_next.contains(x) implies e_prev.contains(x) by {
                            let w = choose|w: int| 0 <= w < i + 1 && #[trigger] canonical_of(clips@[w].hotkey@) == Some(x) && !duplicated(clips@, w);
                        }
                    }
                }
            }
            proof {
                let new_outs = outs.push(o);
                assert(new_outs.drop_last() == outs);
                assert(new_outs.last() == o);
                assert(self@.logs == step_log(logs0, clips@[i as int], o));
                assert(sync_step(base, clips@, i as int, o));
                assert forall|j: int| 0 <= j < i + 1 implies #[trigger] sync_step(base, clips@, j, new_outs[j]) by {
                    if j < i {
                        assert(new_outs[j] == outs[j]);
                    }
                }
                assert(self@.clip_of =~= mapped(clips@, new_outs));
                outs = new_outs;
            }
            i = i + 1;
        }
        let ok_text = success.to_string();
        let refused_text = conflict.to_string();
        let mut msg = "📊 Resultado: ".to_owned();
        msg.append(ok_text.as_str());
        msg.append(" registradas, ");
        msg.append(refused_text.as_str());
        msg.append(" com conflito");
        self.add_log(msg);
        assert(self@.logs.last() == summary_line(ok_text@, refused_text@));
        proof {
            assert(base == sync_base(old(self)@));
            assert(sync_steps(base, clips@, outs));
            assert(all_unregistered(old(self)@, mid));
            assert(to_string_from_display_ensures::<usize>(&success, ok_text));
            assert(to_string_from_display_ensures::<usize>(&conflict, refused_text));
        }
    }
}

/// `RngCore::try_fill_bytes` of rand's `OsRng`, read as a little-endian
/// `u64`: a random number, or `None` where the operating system's generator
/// fails. Nothing is said of the number.
#[verifier::external_body]
fn random_u64() -> (r: Option<u64>) {
    let mut bytes = [0u8; 8];
    match rand::rngs::OsRng.try_fill_bytes(&mut bytes) {
        Ok(()) => Some(u64::from_le_bytes(bytes)),
        Err(_) => None,
    }
}

/// The extensions of a list of paths, over plain values.
pub open spec fn ext_views(exts: Seq<Option<String>>) -> Seq<Option<Seq<char>>> {
    exts.map_values(|o: Option<String>| opt_chars(o))
}

/// `exts` gives, position by position, what `Path::extension` may give of
/// the entries.
pub open spec fn extensions_of(entries: Seq<String>, exts: Seq<Option<Seq<char>>>) -> bool {
    &&& exts.len() == entries.len()
    &&& forall|i: int| 0 <= i < entries.len() ==> extension_fact(entries[i]@, #[trigger] exts[i])
}

/// The entries whose extension, as `exts` gives it position by position,
/// is `wav`, in order.
pub open spec fn wav_selection(entries: Seq<String>, exts: Seq<Option<Seq<char>>>) -> Seq<String>
    decreases entries.len(),
{
    if entries.len() == 0 {
        Seq::<String>::empty()
    } else {
        let prev = wav_selection(entries.drop_last(), exts.drop_last());
        if exts[entries.len() - 1] == Some("wav"@) {
            prev.push(entries.last())
        } else {
            prev
        }
    }
}

/// Each entry picked is one of the entries whose extension is `wav`, and no
/// more are picked than there are entries.
proof fn lemma_wav_selection_members(entries: Seq<String>, exts: Seq<Option<Seq<char>>>)
    requires
        entries.len() == exts.len(),
    ensures
        wav_selection(entries, exts).len() <= entries.len(),
        forall|k: int| 0 <= k < wav_selection(entries, exts).len() ==> exists|i: int|
            0 <= i < entries.len() && entries[i] == #[trigger] wav_selection(entries, exts)[k]
                && exts[i] == Some("wav"@),
    decreases entries.len(),
{
    if entries.len() > 0 {
        let prev_e = entries.drop_last();
        let prev_x = exts.drop_last();
        lemma_wav_selection_members(prev_e, prev_x);
        let sel = wav_selection(entries, exts);
        let prev = wav_selection(prev_e, prev_x);
        assert forall|k: int| 0 <= k < sel.len() implies exists|i: int|
            0 <= i < entries.len() && entries[i] == #[trigger] sel[k] && exts[i] == Some("wav"@) by {
            if k < prev.len() {
                let i = choose|i: int| 0 <= i < prev_e.len() && prev_e[i] == #[trigger] prev[k] && prev_x[i] == Some("wav"@);
                assert(entries[i] == prev_e[i]);
                assert(exts[i] == prev_x[i]);
            } else {
                assert(entries[entries.len() - 1] == sel[k]);
            }
        }
    }
}

/// The entries whose extension, as `exts` gives it for the entry at the same
/// position, is `wav`, in order.
pub fn select_wavs(entries: &Vec<String>, exts: &Vec<Option<String>>) -> (r: Vec<String>)
    requires
        entries@.len() == exts@.len(),
    ensures
        r@ == wav_selection(entries@, ext_views(exts@)),
{
    let ghost ev = ext_views(exts@);
    let mut r: Vec<String> = Vec::new();
    let mut i: usize = 0;
    while i < entries.len()
        invariant
            entries@.len() == exts@.len(),
            ev == ext_views(exts@),
            i <= entries@.len(),
            r@ == wav_selection(entries@.take(i as int), ev.take(i as int)),
        decreases entries@.len() - i,
    {
        let is_wav = match &exts[i] {
            Some(ext) => same_text(ext.as_str(), "wav"),
            None => false,
        };
        proof {
            assert(entries@.take(i + 1).drop_last() == entries@.take(i as int));
            assert(ev.take(i + 1).drop_last() == ev.take(i as int));
            assert(ev.take(i + 1)[i as int] == ev[i as int]);
            assert(ev[i as int] == opt_chars(exts@[i as int]));
            assert(is_wav == (ev[i as int] == Some("wav"@)));
        }
        if is_wav {
            let e = entries[i].clone();
            assert(entries@.take(i + 1).last() == e);
            r.push(e);
        }
        i = i + 1;
    }
    assert(entries@.take(entries@.len() as int) == entries@);
    assert(ev.take(entries@.len() as int) == ev);
    r
}

/// The entries of `entries` whose extension is `wav`, in order: those for
/// which `Path::extension` gives `wav`.
pub fn wav_files(entries: &Vec<String>) -> (r: Vec<String>)
    ensures
        exists|exts: Seq<Option<Seq<char>>>| #![trigger wav_selection(entries@, exts)]
            extensions_of(entries@, exts) && r@ == wav_selection(entries@, exts),
        r@.len() <= entries@.len(),
        forall|k: int| 0 <= k < r@.len() ==> entries@.contains(#[trigger] r@[k]) && follows_dot(r@[k]@, "wav"@),
{
    let mut exts: Vec<Option<String>> = Vec::new();
    let mut i: usize = 0;
    while i < entries.len()
        invariant
            i <= entries@.len(),
            exts@.len() == i,
            forall|j: int| 0 <= j < i ==> extension_fact(entries@[j]@, #[trigger] ext_views(exts@)[j]),
        decreases entries@.len() - i,
    {
        let e = path_extension(entries[i].as_str());
        let ghost before = exts@;
        exts.push(e);
        proof {
            assert forall|j: int| 0 <= j < i + 1 implies extension_fact(entries@[j]@, #[trigger] ext_views(exts@)[j]) by {
                if j < i {
                    assert(ext_views(exts@)[j] == ext_views(before)[j]);
                }
            }
        }
        i = i + 1;
    }
    let r = select_wavs(entries, &exts);
    proof {
        let ev = ext_views(exts@);
        assert(extensions_of(entries@, ev));
        lemma_wav_selection_members(entries@, ev);
        assert forall|k: int| 0 <= k < r@.len() implies entries@.contains(#[trigger] r@[k]) && follows_dot(r@[k]@, "wav"@) by {
            let i = choose|i: int| 0 <= i < entries@.len() && entries@[i] == #[trigger] wav_selection(entries@, ev)[k] && ev[i] == Some("wav"@);
            assert(extension_fact(entries@[i]@, ev[i]));
            assert(entries@[i] == r@[k]);
        }
    }
    r
}

/// The log line of a track that starts.
pub open spec fn track_line(song: Seq<char>) -> Seq<char> {
    "🎶 BGM ["@ + "BGM"@ + "]: "@ + song
}

/// The log line of a folder that could not be read.
pub open spec fn folder_error_line(reason: Seq<char>) -> Seq<char> {
    "❌ Falha ao ler pasta de músicas: "@ + reason
}

/// The log line of a folder without `.wav` files.
pub open spec fn no_wav_line() -> Seq<char> {
    "❌ Nenhum .wav encontrado na pasta de músicas"@
}

/// The name a track is shown under: its file stem, or the whole path where
/// it has none.
pub open spec fn song_of(file: Seq<char>, stem: Option<Seq<char>>) -> Seq<char> {
    match stem {
        Some(s) => s,
        None => file,
    }
}

/// Picking track number `pick` among the `.wav` entries of `entries` (whose
/// extensions are `exts`), counted round: where there is none, a line says
/// so; otherwise that entry, shown under the name its stem `stem` gives,
/// becomes the current song, and a line names it.
pub open spec fn picked(
    before: SessionView,
    after: SessionView,
    entries: Seq<String>,
    exts: Seq<Option<Seq<char>>>,
    pick: usize,
    stem: Option<Seq<char>>,
    r: Option<Seq<char>>,
) -> bool {
    let sel = wav_selection(entries, exts);
    if sel.len() == 0 {
        r is None && after == with_log(before, no_wav_line())
    } else {
        let f = sel[(pick as int) % (sel.len() as int)]@;
        &&& r == Some(f)
        &&& stem_fact(f, stem)
        &&& after == with_log(SessionView { current_song: Some(song_of(f, stem)), ..before }, track_line(song_of(f, stem)))
    }
}

/// What starting a track from the folder listing `listing` with the drawn
/// number `pick` does: a line where the folder could not be read, and
/// otherwise what `picked` says, for the extensions `Path::extension` gives.
pub open spec fn track_outcome(
    before: SessionView,
    after: SessionView,
    listing: Result<Vec<String>, String>,
    pick: usize,
    r: Option<Seq<char>>,
) -> bool {
    match listing {
        Err(e) => r is None && after == with_log(before, folder_error_line(e@)),
        Ok(entries) => exists|exts: Seq<Option<Seq<char>>>, stem: Option<Seq<char>>|
            #![trigger picked(before, after, entries@, exts, pick, stem, r)]
            extensions_of(entries@, exts) && picked(before, after, entries@, exts, pick, stem, r),
    }
}

/// Starting a track from the music folder `dir` as `list` lists it, with
/// some drawn number: `r` is the file that plays, if any.
pub open spec fn listed_track<F: Fn(String) -> Result<Vec<String>, String>>(
    before: SessionView,
    after: SessionView,
    list: F,
    dir: Seq<char>,
    r: Option<Seq<char>>,
) -> bool {
    exists|d: String, listing: Result<Vec<String>, String>, pick: usize|
        #![trigger call_ensures(list, (d,), listing), track_outcome(before, after, listing, pick, r)]
        d@ == dir && call_ensures(list, (d,), listing) && track_outcome(before, after, listing, pick, r)
}

/// The position among the `.wav` entries that a number drawn from the
/// generator picks (the first where the generator gave none).
pub open spec fn pick_of(draw: Option<u64>) -> usize {
    match draw {
        Some(x) => x as usize,
        None => 0,
    }
}

/// Starting a track from the music folder `dir` as `list` lists it, with
/// the number `draw` that the generator gave: `r` is the file that plays.
pub open spec fn drawn_track<F: Fn(String) -> Result<Vec<String>, String>>(
    before: SessionView,
    after: SessionView,
    list: F,
    dir: Seq<char>,
    draw: Option<u64>,
    r: Option<Seq<char>>,
) -> bool {
    exists|d: String, listing: Result<Vec<String>, String>|
        #![trigger call_ensures(list, (d,), listing)]
        d@ == dir && call_ensures(list, (d,), listing) && track_outcome(before, after, listing, pick_of(draw), r)
}

/// Every `.wav` entry can play: the entry at position `k` is the one that
/// the generator's number `k` picks, so different numbers pick different
/// entries and no entry is left out.
pub proof fn lemma_every_wav_can_be_drawn(
    before: SessionView,
    after: SessionView,
    entries: Seq<String>,
    exts: Seq<Option<Seq<char>>>,
    k: usize,
    stem: Option<Seq<char>>,
    r: Option<Seq<char>>,
)
    requires
        k < wav_selection(entries, exts).len(),
        picked(before, after, entries, exts, pick_of(Some(k as u64)), stem, r),
    ensures
        r == Some(wav_selection(entries, exts)[k as int]@),
{
    assert(pick_of(Some(k as u64)) == k);
    let n = wav_selection(entries, exts).len() as int;
    let ki = k as int;
    assert(ki % n == ki) by (nonlinear_arith)
        requires
            0 <= ki < n,
    {
        vstd::arithmetic::div_mod::lemma_small_mod(ki as nat, n as nat);
    }
}

/// `list` may be called on any folder.
pub open spec fn lists_any<F: Fn(String) -> Result<Vec<String>, String>>(list: F) -> bool {
    forall|d: String| call_requires(list, (d,))
}

/// The file that an `ActivateBard` effect plays.
pub open spec fn activate_file(r: Option<Effect>) -> Option<Seq<char>> {
    match r {
        Some(Effect::ActivateBard { file }) => Some(file@),
        _ => None,
    }
}

/// The file that a `SkipBardTrack` effect plays.
pub open spec fn skip_file(r: Option<Effect>) -> Option<Seq<char>> {
    match r {
        Some(Effect::SkipBardTrack { file }) => Some(file@),
        _ => None,
    }
}

/// The session with lowered music back up to `Playing`.
pub open spec fn unducked(v: SessionView) -> SessionView {
    SessionView {
        bard_state: if v.bard_state == BardState::Ducked { BardState::Playing } else { v.bard_state },
        ..v
    }
}

pub open spec fn connected_warning() -> Seq<char> {
    "⚠️  OBS não conectado"@
}

/// Starting a track changes only the current song and the log.
pub proof fn lemma_track_keeps_the_rest(
    before: SessionView,
    after: SessionView,
    listing: Result<Vec<String>, String>,
    pick: usize,
    r: Option<Seq<char>>,
)
    requires
        track_outcome(before, after, listing, pick, r),
    ensures
        after == (SessionView { current_song: after.current_song, logs: after.logs, ..before }),
{
    if let Ok(entries) = listing {
        let (exts, stem) = choose|exts: Seq<Option<Seq<char>>>, stem: Option<Seq<char>>|
            #![trigger picked(before, after, entries@, exts, pick, stem, r)]
            extensions_of(entries@, exts) && picked(before, after, entries@, exts, pick, stem, r);
    }
}

/// The file a track starts with is one of the entries of the listing, and
/// its extension is `wav`.
pub proof fn lemma_track_is_a_listed_wav(
    before: SessionView,
    after: SessionView,
    entries: Vec<String>,
    pick: usize,
    r: Option<Seq<char>>,
)
    requires
        track_outcome(before, after, Ok::<Vec<String>, String>(entries), pick, r),
    ensures
        r matches Some(f) ==> exists|i: int| 0 <= i < entries@.len() && entries@[i]@ == f && follows_dot(f, "wav"@),
{
    let (exts, stem) = choose|exts: Seq<Option<Seq<char>>>, stem: Option<Seq<char>>|
        #![trigger picked(before, after, entries@, exts, pick, stem, r)]
        extensions_of(entries@, exts) && picked(before, after, entries@, exts, pick, stem, r);
    let sel = wav_selection(entries@, exts);
    lemma_wav_selection_members(entries@, exts);
    if sel.len() > 0 {
        let k = (pick as int) % (sel.len() as int);
        let i = choose|i: int| 0 <= i < entries@.len() && entries@[i] == #[trigger] wav_selection(entries@, exts)[k] && exts[i] == Some("wav"@);
        assert(extension_fact(entries@[i]@, exts[i]));
    }
}

impl Session {
    /// Starts a track from the listing `listing` of the music folder, with
    /// the drawn number `pick`: the `.wav` entry at `pick`, counted round,
    /// becomes the current song.
    pub fn start_track(&mut self, listing: Result<Vec<String>, String>, pick: usize) -> (r: Option<String>)
        requires
            old(self).wf(),
        ensures
            final(self).wf(),
            track_outcome(old(self)@, final(self)@, listing, pick, opt_chars(r)),
    {
        let ghost lst = listing;
        let entries = match listing {
            Ok(e) => e,
            Err(e) => {
                let mut msg = "❌ Falha ao ler pasta de músicas: ".to_owned();
                msg.append(e.as_str());
                self.add_log(msg);
                assert(self@ == with_log(old(self)@, folder_error_line(e@)));
                return None;
            },
        };
        let wavs = wav_files(&entries);
        let ghost exts = choose|exts: Seq<Option<Seq<char>>>| #![trigger wav_selection(entries@, exts)]
            extensions_of(entries@, exts) && wavs@ == wav_selection(entries@, exts);
        if wavs.len() == 0 {
            self.log_text("❌ Nenhum .wav encontrado na pasta de músicas");
            assert(picked(old(self)@, self@, entries@, exts, pick, None, None));
            return None;
        }
        let k = pick % wavs.len();
        let chosen = wavs[k].clone();
        let stem = path_file_stem(chosen.as_str());
        let ghost sv = opt_chars(stem);
        let song = match stem {
            Some(s) => s,
            None => chosen.clone(),
        };
        assert(song@ == song_of(chosen@, sv));
        let mut msg = "🎶 BGM [".to_owned();
        msg.append(AudioChannel::Bgm.label());
        msg.append("]: ");
        msg.append(song.as_str());
        self.current_song = Some(song.clone());
        self.add_log(msg);
        proof {
            assert(chosen == wav_selection(entries@, exts)[(pick as int) % (wavs@.len() as int)]);
            assert(picked(old(self)@, self@, entries@, exts, pick, sv, Some(chosen@)));
        }
        let r = Some(chosen);
        assert(opt_chars(r) == Some(chosen@));
        r
    }

    /// Lists the music folder with `list`, draws a number from the operating
    /// system's generator, and starts the track they give; gives the file
    /// started and, as a ghost value, the number drawn.
    fn pick_track<F: Fn(String) -> Result<Vec<String>, String>>(&mut self, config: &AppConfig, list: &F) -> (r: (Option<String>, Ghost<Option<u64>>))
        requires
            old(self).wf(),
            lists_any(*list),
        ensures
            final(self).wf(),
            listed_track(old(self)@, final(self)@, *list, config.bard.music_dir@, opt_chars(r.0)),
            drawn_track(old(self)@, final(self)@, *list, config.bard.music_dir@, r.1@, opt_chars(r.0)),
    {
        let dir = config.bard.music_dir.clone();
        let ghost d = dir;
        assert(call_requires(*list, (dir,)));
        let listing = list(dir);
        let draw = random_u64();
        let pick: usize = match draw {
            Some(x) => x as usize,
            None => 0,
        };
        assert(pick == pick_of(draw));
        let r = self.start_track(listing, pick);
        assert(track_outcome(old(self)@, self@, listing, pick, opt_chars(r)));
        (r, Ghost(draw))
    }

    /// Starts a random track of the music folder, the music coming back up
    /// from `Ducked` to `Playing` first.
    fn bard_play_random<F: Fn(String) -> Result<Vec<String>, String>>(&mut self, config: &AppConfig, list: &F) -> (r: Option<Effect>)
        requires
            old(self).wf(),
            lists_any(*list),
        ensures
            final(self).wf(),
            !old(self)@.connected ==> r is None && final(self)@ == with_log(old(self)@, connected_warning()),
            old(self)@.connected ==> listed_track(unducked(old(self)@), final(self)@, *list, config.bard.music_dir@, activate_file(r)),
            r is None || r matches Some(Effect::ActivateBard { .. }),
    {
        if !self.connected {
            self.log_text("⚠️  OBS não conectado");
            return None;
        }
        if self.bard_state == BardState::Ducked {
            self.bard_state = BardState::Playing;
        }
        let ghost mid = self@;
        assert(mid == unducked(old(self)@));
        let (picked, Ghost(_draw)) = self.pick_track(config, list);
        let ghost pv = opt_chars(picked);
        let r = match picked {
            Some(file) => Some(Effect::ActivateBard { file }),
            None => None,
        };
        assert(activate_file(r) == pv);
        r
    }

    /// Moves the playing music on to a random track of the music folder.
    pub fn bard_skip<F: Fn(String) -> Result<Vec<String>, String>>(&mut self, config: &AppConfig, list: &F) -> (r: Option<Effect>)
        requires
            old(self).wf(),
            lists_any(*list),
        ensures
            final(self).wf(),
            !is_active(old(self)@.bard_state) ==> r is None && final(self)@ == old(self)@,
            is_active(old(self)@.bard_state) && !old(self)@.connected ==> r is None && final(self)@ == with_log(old(self)@, connected_warning()),
            is_active(old(self)@.bard_state) && old(self)@.connected ==> listed_track(old(self)@, final(self)@, *list, config.bard.music_dir@, skip_file(r)),
            r is None || r matches Some(Effect::SkipBardTrack { .. }),
    {
        if !(self.bard_state == BardState::Playing || self.bard_state == BardState::Ducked) {
            return None;
        }
        if !self.connected {
            self.log_text("⚠️  OBS não conectado");
            return None;
        }
        let (picked, Ghost(_draw)) = self.pick_track(config, list);
        let ghost pv = opt_chars(picked);
        let r = match picked {
            Some(file) => Some(Effect::SkipBardTrack { file }),
            None => None,
        };
        assert(skip_file(r) == pv);
        r
    }

    /// Silences the music, where OBS is connected.
    fn bard_pause(&self) -> (r: Option<Effect>)
        ensures
            r is Some <==> self@.connected,
            r matches Some(e) ==> e@ == EffectView::PauseBard,
    {
        if self.connected {
            Some(Effect::PauseBard)
        } else {
            None
        }
    }
}

/// Forgetting every registered shortcut: nothing happens where none is
/// registered; otherwise the keys and numbers are all dropped, and only the
/// log (with a line per refusal of the listener) changes besides.
pub open spec fn all_unregistered(before: SessionView, after: SessionView) -> bool {
    if before.clip_of.is_empty() {
        after == before
    } else {
        after == (SessionView {
            logs: after.logs,
            hotkeys: Set::<Seq<char>>::empty(),
            clip_of: Map::<u32, Seq<char>>::empty(),
            ..before
        })
    }
}

/// Registering the shortcuts of `clips` anew: the registered numbers are
/// forgotten; the keys in use become those the effects take (together with
/// keys left in use where no number was registered); each number the
/// listener gave plays its effect; the log gets an opening line, a line for
/// each effect passed over or refused, and the counts of registered and
/// refused effects.
pub open spec fn synced(before: SessionView, after: SessionView, clips: Seq<SoundpadClip>) -> bool {
    let base = sync_base(before);
    &&& after.hotkeys == base.union(eligible_keys(clips))
    &&& forall|k: u32| #[trigger] after.clip_of.contains_key(k) ==> is_clip_id(clips, after.clip_of[k])
    &&& after == (SessionView { logs: after.logs, hotkeys: after.hotkeys, clip_of: after.clip_of, ..before })
    &&& exists|outs: Seq<Option<Result<u32, RegisterError>>>| #![trigger sync_steps(base, clips, outs)]
        sync_steps(base, clips, outs) && after.clip_of == mapped(clips, outs)
        && exists|mid: SessionView| #![trigger all_unregistered(before, mid)]
            all_unregistered(before, mid)
            && exists|ok: usize, refused: usize, t1: String, t2: String|
                #![trigger to_string_from_display_ensures::<usize>(&ok, t1), to_string_from_display_ensures::<usize>(&refused, t2)]
                ok == ok_count(outs) && ok + refused == clips.len()
                && to_string_from_display_ensures::<usize>(&ok, t1)
                && to_string_from_display_ensures::<usize>(&refused, t2)
                && after.logs == push_log(
                    sync_log(push_log(mid.logs, sync_opening_line()), clips, outs),
                    summary_line(t1@, t2@),
                )
}

/// The keys left in use when a synchronization starts: those in use where
/// no number was registered, none otherwise.
pub open spec fn sync_base(before: SessionView) -> Set<Seq<char>> {
    if before.clip_of.is_empty() { before.hotkeys } else { Set::<Seq<char>>::empty() }
}

/// What a synchronization did for effect `i`: `o` is `None` exactly where
/// the effect's shortcut is valid and another effect, by id, shares its
/// keys; otherwise it is the result of registering the effect's shortcut,
/// with the keys in use then and after.
pub open spec fn sync_step(base: Set<Seq<char>>, clips: Seq<SoundpadClip>, i: int, o: Option<Result<u32, RegisterError>>) -> bool {
    &&& (o is None <==> (canonical_of(clips[i].hotkey@) is Some && duplicated(clips, i)))
    &&& (o matches Some(res) ==> register_outcome(
        clips[i].hotkey@,
        base.union(eligible_upto(clips, i)),
        base.union(eligible_upto(clips, i + 1)),
        res,
    ))
}

/// `outs` says, effect by effect, what a synchronization did.
pub open spec fn sync_steps(base: Set<Seq<char>>, clips: Seq<SoundpadClip>, outs: Seq<Option<Result<u32, RegisterError>>>) -> bool {
    &&& outs.len() == clips.len()
    &&& forall|i: int| 0 <= i < clips.len() ==> #[trigger] sync_step(base, clips, i, outs[i])
}

/// The numbers the listener gave for the effects in `outs`, each mapped to
/// its effect's id, later effects taking a number over from earlier ones.
pub open spec fn mapped(clips: Seq<SoundpadClip>, outs: Seq<Option<Result<u32, RegisterError>>>) -> Map<u32, Seq<char>>
    decreases outs.len(),
{
    if outs.len() == 0 {
        Map::<u32, Seq<char>>::empty()
    } else {
        let m = mapped(clips, outs.drop_last());
        match outs.last() {
            Some(Ok(n)) => m.insert(n, clips[outs.len() - 1].id@),
            _ => m,
        }
    }
}

/// How many effects of `outs` were registered.
pub open spec fn ok_count(outs: Seq<Option<Result<u32, RegisterError>>>) -> nat
    decreases outs.len(),
{
    if outs.len() == 0 {
        0
    } else {
        ok_count(outs.drop_last()) + if outs.last() matches Some(Ok(_)) { 1nat } else { 0nat }
    }
}

/// `v` with `line` logged.
pub open spec fn with_log(v: SessionView, line: Seq<char>) -> SessionView {
    SessionView { logs: push_log(v.logs, line), ..v }
}

/// The state the music moves to when started or paused from `s`.
pub open spec fn toggle_target(s: BardState) -> BardState {
    match s {
        BardState::Idle | BardState::Paused => BardState::Playing,
        BardState::Playing | BardState::Ducked => BardState::Paused,
    }
}

/// The effects that start the file `f`, if any.
pub open spec fn activate_effects(f: Option<Seq<char>>) -> Seq<EffectView> {
    match f {
        Some(x) => seq![EffectView::ActivateBard(x)],
        None => Seq::<EffectView>::empty(),
    }
}

/// The effects that skip to the file `f`, if any.
pub open spec fn skip_effects(f: Option<Seq<char>>) -> Seq<EffectView> {
    match f {
        Some(x) => seq![EffectView::SkipBardTrack(x)],
        None => Seq::<EffectView>::empty(),
    }
}

/// What starting the music does: it plays from `now`, a random track of the
/// music folder `dir` starts (or a line says why none does), and a line
/// says the music started.
pub open spec fn started<F: Fn(String) -> Result<Vec<String>, String>>(
    before: SessionView,
    after: SessionView,
    effects: Seq<EffectView>,
    now: u128,
    list: F,
    dir: Seq<char>,
) -> bool {
    let s1 = SessionView { bard_state: BardState::Playing, last_tick: Some(now), ..before };
    exists|v: SessionView, f: Option<Seq<char>>| #![trigger listed_track(s1, v, list, dir, f)]
        listed_track(s1, v, list, dir, f) && effects == activate_effects(f)
            && after == with_log(v, "🎵 Bard iniciado"@)
}

/// What the play/pause button does.
pub open spec fn toggled<F: Fn(String) -> Result<Vec<String>, String>>(
    before: SessionView,
    after: SessionView,
    effects: Seq<EffectView>,
    now: u128,
    list: F,
    dir: Seq<char>,
) -> bool {
    if !before.connected {
        effects.len() == 0 && after == with_log(before, connected_warning())
    } else if toggle_target(before.bard_state) == BardState::Playing {
        started(before, after, effects, now, list, dir)
    } else {
        effects == seq![EffectView::PauseBard]
            && after == with_log(SessionView { bard_state: BardState::Paused, last_tick: None, ..before }, "⏸️  Bard pausado"@)
    }
}

/// What the skip button does.
pub open spec fn skipped<F: Fn(String) -> Result<Vec<String>, String>>(
    before: SessionView,
    after: SessionView,
    effects: Seq<EffectView>,
    list: F,
    dir: Seq<char>,
) -> bool {
    if !is_active(before.bard_state) {
        effects.len() == 0 && after == before
    } else if !before.connected {
        effects.len() == 0 && after == with_log(before, connected_warning())
    } else {
        exists|f: Option<Seq<char>>| #![trigger listed_track(before, after, list, dir, f)]
            listed_track(before, after, list, dir, f) && effects == skip_effects(f)
    }
}

/// The time from which the next track is counted: the last track's, or
/// `now` where none is recorded.
pub open spec fn tick_since(last_tick: Option<u128>, now: u128) -> u128 {
    match last_tick {
        Some(t) => t,
        None => now,
    }
}

/// Whether the music is due for its next track at `now` (in nanoseconds):
/// the interval has passed since the last track, counted from `now` where
/// none is recorded.
pub open spec fn track_due(last_tick: Option<u128>, now: u128, interval_secs: u64) -> bool {
    let last = match last_tick {
        Some(t) => t,
        None => now,
    };
    let elapsed: int = if now >= last { now - last } else { 0 };
    elapsed >= interval_secs * 1_000_000_000
}

/// The effect plays the effect that some registered number plays.
pub open spec fn plays_registered(clip_of: Map<u32, Seq<char>>, e: EffectView) -> bool {
    exists|id: u32| clip_of.contains_key(id) && e == EffectView::PlaySoundEffect(#[trigger] clip_of[id])
}

/// `v` with the last track's time set to `now`.
pub open spec fn ticked(v: SessionView, now: u128) -> SessionView {
    SessionView { last_tick: Some(now), ..v }
}

/// The session after effect `clip` is played: playing music is lowered.
pub open spec fn sfx_played(before: SessionView, clip: SoundpadClip) -> SessionView {
    with_log(
        SessionView {
            bard_state: if before.bard_state == BardState::Playing { BardState::Ducked } else { before.bard_state },
            active_effects: one_more(before.active_effects),
            ..before
        },
        "🔊 SFX: "@ + clip.filename@,
    )
}

/// One more effect playing (the count stops at its largest value).
pub open spec fn one_more(n: u64) -> u64 {
    if n < u64::MAX { (n + 1) as u64 } else { n }
}

/// The session after an effect has finished: one effect fewer plays, and
/// lowered music comes back up to `Playing` once none plays.
pub open spec fn effect_finished(v: SessionView) -> SessionView {
    let n: u64 = if v.active_effects > 0 { (v.active_effects - 1) as u64 } else { 0 };
    SessionView {
        active_effects: n,
        bard_state: if n == 0 && v.bard_state == BardState::Ducked { BardState::Playing } else { v.bard_state },
        ..v
    }
}

impl Session {
    /// Starts the music, or pauses it where it plays.
    pub fn bard_toggle<F: Fn(String) -> Result<Vec<String>, String>>(&mut self, config: &AppConfig, list: &F, now: u128) -> (r: Vec<Effect>)
        requires
            old(self).wf(),
            lists_any(*list),
        ensures
            final(self).wf(),
            toggled(old(self)@, final(self)@, effects_view(r@), now, *list, config.bard.music_dir@),
    {
        let mut effects: Vec<Effect> = Vec::new();
        if !self.connected {
            self.log_text("⚠️  OBS não conectado");
            assert(effects_view(effects@) =~= Seq::<EffectView>::empty());
            return effects;
        }
        let next = match self.bard_state {
            BardState::Idle | BardState::Paused => BardState::Playing,
            BardState::Playing | BardState::Ducked => BardState::Paused,
        };
        if !self.bard_state.can_transition_to(next) {
            let mut msg = "⚠️  Transição inválida: ".to_owned();
            msg.append(self.bard_state.label());
            msg.append(" → ");
            msg.append(next.label());
            self.add_log(msg);
            return effects;
        }
        self.bard_state = next;
        match next {
            BardState::Playing => {
                self.last_tick = Some(now);
                let ghost s1 = self@;
                assert(unducked(s1) == s1);
                let p = self.bard_play_random(config, list);
                let ghost f = activate_file(p);
                let ghost v = self@;
                assert(listed_track(s1, v, *list, config.bard.music_dir@, f));
                match p {
                    Some(e) => effects.push(e),
                    None => {},
                }
                self.log_text("🎵 Bard iniciado");
                assert(effects_view(effects@) =~= activate_effects(f));
            },
            _ => {
                let p = self.bard_pause();
                match p {
                    Some(e) => effects.push(e),
                    None => {},
                }
                self.last_tick = None;
                self.log_text("⏸️  Bard pausado");
                assert(effects_view(effects@) =~= seq![EffectView::PauseBard]);
            },
        }
        effects
    }

    /// Skips to another random track where the music plays.
    pub fn bard_skip_effects<F: Fn(String) -> Result<Vec<String>, String>>(&mut self, config: &AppConfig, list: &F) -> (r: Vec<Effect>)
        requires
            old(self).wf(),
            lists_any(*list),
        ensures
            final(self).wf(),
            skipped(old(self)@, final(self)@, effects_view(r@), *list, config.bard.music_dir@),
    {
        let mut effects: Vec<Effect> = Vec::new();
        let p = self.bard_skip(config, list);
        let ghost f = skip_file(p);
        match p {
            Some(e) => effects.push(e),
            None => {},
        }
        assert(effects_view(effects@) =~= skip_effects(f));
        proof {
            if is_active(old(self)@.bard_state) && old(self)@.connected {
                assert(listed_track(old(self)@, self@, *list, config.bard.music_dir@, f));
            }
        }
        effects
    }

    /// Starts the next track where the music plays, is enabled and its
    /// interval has passed since the last track (or since the music was
    /// first seen playing and enabled, where no track is recorded: that
    /// time is recorded then); forgets the last track's time where the music
    /// does not play or is not enabled.
    pub fn poll_bard_scheduler<F: Fn(String) -> Result<Vec<String>, String>>(&mut self, config: &AppConfig, list: &F, now: u128) -> (r: Option<Effect>)
        requires
            old(self).wf(),
            lists_any(*list),
        ensures
            final(self).wf(),
            !is_active(old(self)@.bard_state) || !config.bard.enabled ==> r is None
                && final(self)@ == (SessionView { last_tick: None, ..old(self)@ }),
            is_active(old(self)@.bard_state) && config.bard.enabled && !track_due(old(self)@.last_tick, now, config.bard.interval_secs)
                ==> r is None && final(self)@ == (SessionView { last_tick: Some(tick_since(old(self)@.last_tick, now)), ..old(self)@ }),
            is_active(old(self)@.bard_state) && config.bard.enabled && track_due(old(self)@.last_tick, now, config.bard.interval_secs)
                && !old(self)@.connected ==> r is None && final(self)@ == with_log(ticked(old(self)@, now), connected_warning()),
            is_active(old(self)@.bard_state) && config.bard.enabled && track_due(old(self)@.last_tick, now, config.bard.interval_secs)
                && old(self)@.connected ==> listed_track(unducked(ticked(old(self)@, now)), final(self)@, *list, config.bard.music_dir@, activate_file(r)),
            r is None || r matches Some(Effect::ActivateBard { .. }),
    {
        if !(self.bard_state == BardState::Playing || self.bard_state == BardState::Ducked) || !config.bard.enabled {
            self.last_tick = None;
            return None;
        }
        let last = match self.last_tick {
            Some(t) => t,
            None => now,
        };
        let elapsed: u128 = if now >= last { now - last } else { 0 };
        let interval: u128 = (config.bard.interval_secs as u128) * 1_000_000_000;
        if elapsed >= interval {
            assert(track_due(old(self)@.last_tick, now, config.bard.interval_secs));
            self.last_tick = Some(now);
            let ghost s1 = self@;
            assert(s1 == ticked(old(self)@, now));
            self.bard_play_random(config, list)
        } else {
            assert(!track_due(old(self)@.last_tick, now, config.bard.interval_secs));
            self.last_tick = Some(last);
            None
        }
    }

    /// Plays the effect with id `clip_id`, lowering the music where it plays.
    pub fn play_clip_by_id(&mut self, config: &AppConfig, clip_id: &str) -> (r: Option<Effect>)
        requires
            old(self).wf(),
        ensures
            final(self).wf(),
            !old(self)@.connected ==> r is None && final(self)@ == with_log(old(self)@, connected_warning()),
            old(self)@.connected && no_clip(config.soundpad.clips@, clip_id@) ==> r is None
                && final(self)@ == with_log(old(self)@, "❌ Clip '"@ + clip_id@ + "' não encontrado"@),
            forall|i: int| old(self)@.connected && is_first_clip(config.soundpad.clips@, clip_id@, i) ==>
                (r matches Some(e) && e@ == EffectView::PlaySoundEffect(clip_id@))
                && final(self)@ == sfx_played(old(self)@, config.soundpad.clips@[i]),
            r matches Some(e) ==> e@ == EffectView::PlaySoundEffect(clip_id@),
            final(self)@ == (SessionView { bard_state: final(self)@.bard_state, logs: final(self)@.logs, active_effects: final(self)@.active_effects, ..old(self)@ }),
    {
        if !self.connected {
            self.log_text("⚠️  OBS não conectado");
            return None;
        }
        let i = match find_clip(&config.soundpad.clips, clip_id) {
            Some(i) => i,
            None => {
                let mut msg = "❌ Clip '".to_owned();
                msg.append(clip_id);
                msg.append("' não encontrado");
                self.add_log(msg);
                return None;
            },
        };
        if self.bard_state == BardState::Playing {
            self.bard_state = BardState::Ducked;
        }
        if self.active_effects < u64::MAX {
            self.active_effects = self.active_effects + 1;
        }
        let clip = &config.soundpad.clips[i];
        let effect = Effect::PlaySoundEffect { clip_id: clip_id.to_owned() };
        let mut msg = "🔊 SFX: ".to_owned();
        msg.append(clip.filename.as_str());
        self.add_log(msg);
        proof {
            assert forall|j: int| is_first_clip(config.soundpad.clips@, clip_id@, j) implies j == i by {
                if j < i {
                    assert(config.soundpad.clips@[j].id@ != clip_id@);
                } else if j > i {
                    assert(config.soundpad.clips@[i as int].id@ != clip_id@);
                }
            }
        }
        Some(effect)
    }

    /// Plays the effects whose shortcuts the listener reports pressed.
    pub fn poll_hotkey_events<L: HotkeyListener + ?Sized>(&mut self, config: &AppConfig, listener: &mut L) -> (r: Vec<Effect>)
        requires
            old(self).wf(),
        ensures
            final(self).wf(),
            exists|fired: Seq<u32>| #![trigger presses_outcome(old(self)@, *config, fired)]
                final(self)@ == presses_outcome(old(self)@, *config, fired).0
                && effects_view(r@) == presses_outcome(old(self)@, *config, fired).1,
            final(self)@.hotkeys == old(self)@.hotkeys,
            final(self)@.clip_of == old(self)@.clip_of,
            final(self)@.connected == old(self)@.connected,
            final(self)@.current_song == old(self)@.current_song,
            final(self)@.last_tick == old(self)@.last_tick,
            forall|k: int| 0 <= k < r@.len() ==> plays_registered(old(self)@.clip_of, #[trigger] r@[k]@),
    {
        let fired = listener.poll_events();
        let r = self.handle_hotkey_presses(config, &fired);
        assert(self@ == presses_outcome(old(self)@, *config, fired@).0);
        r
    }

    /// Plays, in order, the effects of the shortcuts with the numbers
    /// `fired`, as reported pressed; numbers that play no effect are passed
    /// over.
    pub fn handle_hotkey_presses(&mut self, config: &AppConfig, fired: &Vec<u32>) -> (r: Vec<Effect>)
        requires
            old(self).wf(),
        ensures
            final(self).wf(),
            final(self)@ == presses_outcome(old(self)@, *config, fired@).0,
            effects_view(r@) == presses_outcome(old(self)@, *config, fired@).1,
            final(self)@.hotkeys == old(self)@.hotkeys,
            final(self)@.clip_of == old(self)@.clip_of,
            final(self)@.connected == old(self)@.connected,
            final(self)@.current_song == old(self)@.current_song,
            final(self)@.last_tick == old(self)@.last_tick,
            forall|k: int| 0 <= k < r@.len() ==> plays_registered(old(self)@.clip_of, #[trigger] r@[k]@),
    {
        let mut effects: Vec<Effect> = Vec::new();
        let mut i: usize = 0;
        while i < fired.len()
            invariant
                self.wf(),
                i <= fired@.len(),
                self@ == presses_outcome(old(self)@, *config, fired@.take(i as int)).0,
                effects_view(effects@) == presses_outcome(old(self)@, *config, fired@.take(i as int)).1,
                self@.hotkeys == old(self)@.hotkeys,
                self@.clip_of == old(self)@.clip_of,
                self@.connected == old(self)@.connected,
                self@.current_song == old(self)@.current_song,
                self@.last_tick == old(self)@.last_tick,
                forall|k: int| 0 <= k < effects@.len() ==> plays_registered(old(self)@.clip_of, #[trigger] effects@[k]@),
            decreases fired@.len() - i,
        {
            let id = fired[i];
            let ghost v1 = self@;
            let ghost before = effects@;
            proof {
                assert(fired@.take(i + 1).drop_last() == fired@.take(i as int));
                assert(fired@.take(i + 1).last() == id);
            }
            let clip_id = match self.hotkey_to_clip.get(&id) {
                Some(c) => Some(c.clone()),
                None => None,
            };
            match clip_id {
                Some(c) => {
                    assert(v1.clip_of.contains_key(id) && v1.clip_of[id] == c@);
                    let played = self.play_clip_by_id(config, c.as_str());
                    proof {
                        lemma_play_outcome(v1, *config, c@, self@, played);
                    }
                    match played {
                        Some(e) => {
                            effects.push(e);
                            proof {
                                assert(effects_view(effects@) =~= effects_view(before).push(e@));
                                assert forall|k: int| 0 <= k < effects@.len() implies plays_registered(old(self)@.clip_of, #[trigger] effects@[k]@) by {
                                    if k < before.len() {
                                        assert(effects@[k] == before[k]);
                                    } else {
                                        assert(effects@[k]@ == EffectView::PlaySoundEffect(old(self)@.clip_of[id]));
                                    }
                                }
                            }
                        },
                        None => {},
                    }
                },
                None => {
                    assert(!v1.clip_of.contains_key(id));
                },
            }
            i = i + 1;
        }
        assert(fired@.take(fired@.len() as int) == fired@);
        effects
    }

    /// An effect has finished playing: one effect fewer plays, and lowered
    /// music comes back up to `Playing` once none plays.
    pub fn on_effect_finished(&mut self)
        requires
            old(self).wf(),
        ensures
            final(self).wf(),
            final(self)@ == effect_finished(old(self)@),
    {
        if self.active_effects > 0 {
            self.active_effects = self.active_effects - 1;
        }
        if self.active_effects == 0 && self.bard_state == BardState::Ducked {
            self.bard_state = BardState::Playing;
        }
    }

    /// Starts connecting to OBS.
    pub fn start_connect(&mut self)
        requires
            old(self).wf(),
        ensures
            final(self).wf(),
            final(self)@ == with_log(SessionView { awaiting_connection: true, ..old(self)@ }, "🔗 Tentando conectar ao OBS..."@),
    {
        self.log_text("🔗 Tentando conectar ao OBS...");
        self.awaiting_connection = true;
    }

    /// Takes in what a look at the pending connection attempt found; on
    /// success registers the effects' shortcuts.
    pub fn poll_connect_result<L: HotkeyListener + ?Sized>(&mut self, event: ConnectPoll, clips: &Vec<SoundpadClip>, listener: &mut L)
        requires
            old(self).wf(),
        ensures
            final(self).wf(),
            !old(self)@.awaiting_connection ==> final(self)@ == old(self)@,
            old(self)@.awaiting_connection ==> match event {
                ConnectPoll::Pending => final(self)@ == old(self)@,
                ConnectPoll::Connected => synced(with_log(SessionView { connected: true, ..old(self)@ }, "✅ Conectado ao OBS com sucesso!"@), final(self)@, clips@),
                ConnectPoll::Failed(e) => final(self)@ == with_log(SessionView { awaiting_connection: false, ..old(self)@ }, "❌ Erro ao conectar: "@ + e@),
                ConnectPoll::Closed => final(self)@ == with_log(SessionView { awaiting_connection: false, ..old(self)@ }, "❌ Canal de conexão fechado inesperadamente"@),
            },
    {
        if !self.awaiting_connection {
            return;
        }
        match event {
            ConnectPoll::Pending => {},
            ConnectPoll::Connected => {
                self.connected = true;
                self.log_text("✅ Conectado ao OBS com sucesso!");
                self.sync_hotkeys(clips, listener);
            },
            ConnectPoll::Failed(e) => {
                let mut msg = "❌ Erro ao conectar: ".to_owned();
                msg.append(e.as_str());
                self.add_log(msg);
                self.awaiting_connection = false;
            },
            ConnectPoll::Closed => {
                self.log_text("❌ Canal de conexão fechado inesperadamente");
                self.awaiting_connection = false;
            },
        }
    }

    /// Disconnects from OBS: forgets the shortcuts and stops the music.
    pub fn disconnect<L: HotkeyListener + ?Sized>(&mut self, listener: &mut L)
        requires
            old(self).wf(),
        ensures
            final(self).wf(),
            exists|mid: SessionView| #![trigger all_unregistered(old(self)@, mid)]
                all_unregistered(old(self)@, mid)
                && final(self)@ == with_log(SessionView { connected: false, bard_state: BardState::Idle, ..mid }, "🔌 Desconectado do OBS"@),
    {
        self.unregister_all_hotkeys(listener);
        let ghost mid = self@;
        self.connected = false;
        self.bard_state = BardState::Idle;
        self.log_text("🔌 Desconectado do OBS");
        assert(all_unregistered(old(self)@, mid));
    }

    /// Carries out a click on the tray menu.
    pub fn poll_tray_action<F: Fn(String) -> Result<Vec<String>, String>>(&mut self, action: TrayAction, config: &AppConfig, list: &F, now: u128) -> (r: Vec<Effect>)
        requires
            old(self).wf(),
            lists_any(*list),
        ensures
            final(self).wf(),
            match action {
                TrayAction::ShowWindow => effects_view(r@) == seq![EffectView::ShowWindow]
                    && final(self)@ == (SessionView { window_visible: true, ..old(self)@ }),
                TrayAction::BardToggle => toggled(old(self)@, final(self)@, effects_view(r@), now, *list, config.bard.music_dir@),
                TrayAction::BardSkip => skipped(old(self)@, final(self)@, effects_view(r@), *list, config.bard.music_dir@),
                TrayAction::Quit => effects_view(r@) == seq![EffectView::CloseWindow] && final(self)@ == old(self)@,
                TrayAction::NoAction => r@.len() == 0 && final(self)@ == old(self)@,
            },
    {
        let mut effects: Vec<Effect> = Vec::new();
        match action {
            TrayAction::ShowWindow => {
                self.window_visible = true;
                effects.push(Effect::ShowWindow);
                assert(effects_view(effects@) =~= seq![EffectView::ShowWindow]);
                effects
            },
            TrayAction::BardToggle => self.bard_toggle(config, list, now),
            TrayAction::BardSkip => self.bard_skip_effects(config, list),
            TrayAction::Quit => {
                effects.push(Effect::CloseWindow);
                assert(effects_view(effects@) =~= seq![EffectView::CloseWindow]);
                effects
            },
            TrayAction::NoAction => effects,
        }
    }

    /// The user closed the window: it is hidden instead.
    pub fn on_close_requested(&mut self) -> (r: Vec<Effect>)
        ensures
            effects_view(r@) == seq![EffectView::HideWindow],
            final(self)@ == (SessionView { window_visible: false, ..old(self)@ }),
            old(self).wf() ==> final(self).wf(),
    {
        self.window_visible = false;
        let mut effects: Vec<Effect> = Vec::new();
        effects.push(Effect::HideWindow);
        assert(effects_view(effects@) =~= seq![EffectView::HideWindow]);
        effects
    }
}

/// The first position of an effect with id `id`, where there is one.
pub open spec fn first_clip_index(clips: Seq<SoundpadClip>, id: Seq<char>) -> int {
    choose|i: int| is_first_clip(clips, id, i)
}

/// What playing the effect with id `clip_id` does: a warning where OBS is
/// not connected, a line where no effect has the id, and otherwise the
/// first effect with the id plays, lowering playing music.
pub open spec fn play_outcome(v: SessionView, config: AppConfig, clip_id: Seq<char>) -> (SessionView, Option<EffectView>) {
    if !v.connected {
        (with_log(v, connected_warning()), None)
    } else if no_clip(config.soundpad.clips@, clip_id) {
        (with_log(v, "❌ Clip '"@ + clip_id + "' não encontrado"@), None)
    } else {
        (
            sfx_played(v, config.soundpad.clips@[first_clip_index(config.soundpad.clips@, clip_id)]),
            Some(EffectView::PlaySoundEffect(clip_id)),
        )
    }
}

/// What a press of the shortcut with number `id` does: nothing where the
/// number plays no effect, otherwise its effect plays.
pub open spec fn press_outcome(v: SessionView, config: AppConfig, id: u32) -> (SessionView, Option<EffectView>) {
    if v.clip_of.contains_key(id) {
        play_outcome(v, config, v.clip_of[id])
    } else {
        (v, None)
    }
}

/// The session and the effects, in order, after the presses `fired`.
pub open spec fn presses_outcome(v: SessionView, config: AppConfig, fired: Seq<u32>) -> (SessionView, Seq<EffectView>)
    decreases fired.len(),
{
    if fired.len() == 0 {
        (v, Seq::<EffectView>::empty())
    } else {
        let prev = presses_outcome(v, config, fired.drop_last());
        let step = press_outcome(prev.0, config, fired.last());
        (step.0, match step.1 {
            Some(e) => prev.1.push(e),
            None => prev.1,
        })
    }
}

/// Where some effect has id `id`, one of them comes first.
proof fn lemma_first_clip_exists(clips: Seq<SoundpadClip>, id: Seq<char>)
    requires
        !no_clip(clips, id),
    ensures
        exists|i: int| is_first_clip(clips, id, i),
    decreases clips.len(),
{
    let prev = clips.drop_last();
    if no_clip(prev, id) {
        let n = clips.len() - 1;
        assert forall|j: int| 0 <= j < n implies #[trigger] clips[j].id@ != id by {
            assert(prev[j] == clips[j]);
        }
        assert(is_first_clip(clips, id, n));
    } else {
        lemma_first_clip_exists(prev, id);
        let i = choose|i: int| is_first_clip(prev, id, i);
        assert forall|j: int| 0 <= j < i implies #[trigger] clips[j].id@ != id by {
            assert(prev[j] == clips[j]);
        }
        assert(prev[i] == clips[i]);
        assert(is_first_clip(clips, id, i));
    }
}

/// What `play_clip_by_id` promises is `play_outcome`.
proof fn lemma_play_outcome(v: SessionView, config: AppConfig, clip_id: Seq<char>, after: SessionView, r: Option<Effect>)
    requires
        !v.connected ==> r is None && after == with_log(v, connected_warning()),
        v.connected && no_clip(config.soundpad.clips@, clip_id) ==> r is None
            && after == with_log(v, "❌ Clip '"@ + clip_id + "' não encontrado"@),
        forall|i: int| v.connected && is_first_clip(config.soundpad.clips@, clip_id, i) ==>
            (r matches Some(e) && e@ == EffectView::PlaySoundEffect(clip_id))
            && after == sfx_played(v, config.soundpad.clips@[i]),
    ensures
        after == play_outcome(v, config, clip_id).0,
        match r {
            Some(e) => play_outcome(v, config, clip_id).1 == Some(e@),
            None => play_outcome(v, config, clip_id).1 is None,
        },
{
    if v.connected && !no_clip(config.soundpad.clips@, clip_id) {
        lemma_first_clip_exists(config.soundpad.clips@, clip_id);
        let i = first_clip_index(config.soundpad.clips@, clip_id);
        assert(is_first_clip(config.soundpad.clips@, clip_id, i));
    }
}

/// The play/pause button moves the music along an allowed transition, to
/// the state that `toggle_target` names, where OBS is connected; pressing it
/// twice from `Paused` or `Playing` comes back to where it started.
pub proof fn lemma_toggle_follows_transitions<F: Fn(String) -> Result<Vec<String>, String>>(
    before: SessionView,
    after: SessionView,
    effects: Seq<EffectView>,
    now: u128,
    list: F,
    dir: Seq<char>,
)
    requires
        toggled(before, after, effects, now, list, dir),
        before.connected,
    ensures
        after.bard_state == toggle_target(before.bard_state),
        transition_allowed(before.bard_state, after.bard_state),
        before.bard_state == BardState::Paused || before.bard_state == BardState::Playing
            ==> toggle_target(toggle_target(before.bard_state)) == before.bard_state,
{
    if toggle_target(before.bard_state) == BardState::Playing {
        let s1 = SessionView { bard_state: BardState::Playing, last_tick: Some(now), ..before };
        let (v, f) = choose|v: SessionView, f: Option<Seq<char>>| #![trigger listed_track(s1, v, list, dir, f)]
            listed_track(s1, v, list, dir, f) && effects == activate_effects(f)
                && after == with_log(v, "🎵 Bard iniciado"@);
        let (d, listing, pick) = choose|d: String, listing: Result<Vec<String>, String>, pick: usize|
            #![trigger call_ensures(list, (d,), listing), track_outcome(s1, v, listing, pick, f)]
            d@ == dir && call_ensures(list, (d,), listing) && track_outcome(s1, v, listing, pick, f);
        lemma_track_keeps_the_rest(s1, v, listing, pick, f);
    }
}

/// Every change the session makes to the music's state is an allowed
/// transition: playing an effect lowers playing music, the end of the last
/// effect and starting a track bring lowered music back up, and
/// disconnecting stops the music.
pub proof fn lemma_session_moves_are_allowed(v: SessionView, clip: SoundpadClip)
    ensures
        effect_finished(v).bard_state == v.bard_state || transition_allowed(v.bard_state, effect_finished(v).bard_state),
        sfx_played(v, clip).bard_state == v.bard_state
            || transition_allowed(v.bard_state, sfx_played(v, clip).bard_state),
        unducked(v).bard_state == v.bard_state || transition_allowed(v.bard_state, unducked(v).bard_state),
        v.bard_state == BardState::Idle || transition_allowed(v.bard_state, BardState::Idle),
{
}

/// Music is lowered only while effects play: where no effect plays, an
/// effect that starts and then finishes leaves the music's state as it
/// found it, and the count of playing effects back at none.
pub proof fn lemma_effect_end_restores_music(v: SessionView, clip: SoundpadClip)
    requires
        v.active_effects == 0,
        v.bard_state != BardState::Ducked,
    ensures
        effect_finished(sfx_played(v, clip)).bard_state == v.bard_state,
        effect_finished(sfx_played(v, clip)).active_effects == 0,
        sfx_played(v, clip).bard_state == BardState::Ducked <==> v.bard_state == BardState::Playing,
{
}

/// Playback keeps to the interval: once a time is recorded (by starting the
/// music, by a track, or by the scheduler first seeing the music playing
/// and enabled), a track is due exactly when the interval has passed since
/// that time; and a poll that finds none due records a time.
pub proof fn lemma_interval_playback(t: u128, now: u128, interval_secs: u64, last_tick: Option<u128>)
    ensures
        now >= t ==> (track_due(Some(t), now, interval_secs) <==> now - t >= interval_secs * 1_000_000_000),
        tick_since(last_tick, now) == (match last_tick { Some(x) => x, None => now }),
        last_tick is None ==> (track_due(last_tick, now, interval_secs) <==> interval_secs == 0),
{
}

/// The log never holds more than `MAX_LOG_LINES` lines, and a line logged
/// is the newest line.
pub proof fn lemma_log_is_bounded(logs: Seq<Seq<char>>, line: Seq<char>)
    requires
        logs.len() <= MAX_LOG_LINES,
    ensures
        push_log(logs, line).len() <= MAX_LOG_LINES,
        push_log(logs, line).last() == line,
        logs.len() < MAX_LOG_LINES ==> push_log(logs, line) == logs.push(line),
{
}

/// The play/pause button pauses audible music and starts silent music:
/// where OBS is connected and the music plays (lowered or not), pressing it
/// pauses the music, forgets the last track's time and asks only for the
/// music to be muted; where the music is idle or paused, it plays again and
/// at most a track is started.
pub proof fn lemma_play_pause<F: Fn(String) -> Result<Vec<String>, String>>(
    before: SessionView,
    after: SessionView,
    effects: Seq<EffectView>,
    now: u128,
    list: F,
    dir: Seq<char>,
)
    requires
        toggled(before, after, effects, now, list, dir),
        before.connected,
    ensures
        before.bard_state == BardState::Playing || before.bard_state == BardState::Ducked ==> {
            &&& after.bard_state == BardState::Paused
            &&& after.last_tick is None
            &&& effects == seq![EffectView::PauseBard]
        },
        before.bard_state == BardState::Idle || before.bard_state == BardState::Paused ==> {
            &&& after.bard_state == BardState::Playing
            &&& after.last_tick == Some(now)
            &&& (effects.len() == 0 || (effects.len() == 1 && effects[0] is ActivateBard))
        },
{
    if before.bard_state == BardState::Idle || before.bard_state == BardState::Paused {
        let s1 = SessionView { bard_state: BardState::Playing, last_tick: Some(now), ..before };
        let (v, f) = choose|v: SessionView, f: Option<Seq<char>>| #![trigger listed_track(s1, v, list, dir, f)]
            listed_track(s1, v, list, dir, f) && effects == activate_effects(f)
                && after == with_log(v, "🎵 Bard iniciado"@);
        let (d, listing, pick) = choose|d: String, listing: Result<Vec<String>, String>, pick: usize|
            #![trigger call_ensures(list, (d,), listing), track_outcome(s1, v, listing, pick, f)]
            d@ == dir && call_ensures(list, (d,), listing) && track_outcome(s1, v, listing, pick, f);
        lemma_track_keeps_the_rest(s1, v, listing, pick, f);
    }
}

impl SessionView {
    pub open spec fn hotkeys_removed(self, c: Seq<char>) -> SessionView {
        SessionView { hotkeys: self.hotkeys.remove(c), ..self }
    }
}

} // verus!
