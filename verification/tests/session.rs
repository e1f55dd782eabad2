use soundpad_bard::bard::BardState;
use soundpad_bard::config::{default_config, AppConfig, Level, SoundpadClip};
use soundpad_bard::hotkey::Hotkey;
use soundpad_bard::register_hotkey::HotkeyListener;
use soundpad_bard::session::{
    select_wavs, tray_action_for, wav_files, ConnectPoll, Effect, Session, Tab, TrayAction,
    MAX_LOG_LINES, MENU_BARD_SKIP, MENU_BARD_TOGGLE, MENU_QUIT, MENU_SHOW,
};

#[derive(Default)]
struct Listener {
    next: u32,
    registered: Vec<u32>,
    unregistered: Vec<u32>,
    pressed: Vec<u32>,
}

impl HotkeyListener for Listener {
    fn register(&mut self, _hotkey: &Hotkey) -> Result<u32, String> {
        self.next += 1;
        self.registered.push(self.next);
        Ok(self.next)
    }
    fn unregister(&mut self, id: u32) -> Result<(), String> {
        self.unregistered.push(id);
        Ok(())
    }
    fn poll_events(&mut self) -> Vec<u32> {
        std::mem::take(&mut self.pressed)
    }
}

#[allow(non_snake_case)]
fn Folder(listing: Result<Vec<String>, String>) -> impl Fn(String) -> Result<Vec<String>, String> {
    move |_dir: String| listing.clone()
}

fn clip(id: &str, file: &str, hotkey: &str) -> SoundpadClip {
    SoundpadClip {
        id: id.to_string(),
        filename: file.to_string(),
        hotkey: hotkey.to_string(),
        volume: Level { bits: 0.8f32.to_bits() },
    }
}

fn config() -> AppConfig {
    let mut c = default_config("/sfx".to_string(), "/music".to_string());
    c.soundpad.clips.push(clip("clip1", "beep.wav", "Ctrl+Alt+A"));
    c.soundpad.clips.push(clip("clip2", "boop.wav", "F1"));
    c
}

fn connected(listener: &mut Listener, c: &AppConfig) -> Session {
    let mut s = Session::new();
    s.start_connect();
    s.poll_connect_result(ConnectPoll::Connected, &c.soundpad.clips, listener);
    s
}

fn last_log(s: &Session) -> String {
    s.logs().last().cloned().unwrap_or_default()
}

#[test]
fn test_register_clip_hotkey() {
    let mut listener = Listener::default();
    let mut s = Session::new();
    let c = clip("clip1", "beep.wav", "Ctrl+Alt+A");
    s.register_clip_hotkey(&c, &mut listener).unwrap();
    assert!(s.plays_clip("clip1"));
}

#[test]
fn press_without_connection_warns() {
    let mut listener = Listener::default();
    let mut s = Session::new();
    let c = clip("clip1", "beep.wav", "Ctrl+Alt+A");
    s.register_clip_hotkey(&c, &mut listener).unwrap();
    assert!(!s.plays_clip("clip2"));
    let mut cfg = config();
    cfg.soundpad.clips = vec![c];
    listener.pressed = vec![1];
    let effects = s.poll_hotkey_events(&cfg, &mut listener);
    assert!(effects.is_empty());
    assert_eq!(last_log(&s), "⚠️  OBS não conectado");
}

#[test]
fn test_invalid_hotkey_format() {
    let mut listener = Listener::default();
    let mut s = Session::new();
    let c = clip("bad_clip", "beep.wav", "INVALID");
    let result = s.register_clip_hotkey(&c, &mut listener);
    assert!(result.is_err());
}

#[test]
fn fresh_session() {
    let s = Session::new();
    assert_eq!(s.bard_state(), BardState::Idle);
    assert!(!s.is_connected());
    assert!(s.is_window_visible());
    assert!(s.current_song().is_none());
    assert!(s.logs().is_empty());
    assert_eq!(Tab::default(), Tab::Soundpad);
}

#[test]
fn log_keeps_the_last_hundred_lines() {
    let mut s = Session::new();
    for i in 0..150 {
        s.add_log(format!("line {}", i));
    }
    assert_eq!(s.logs().len(), MAX_LOG_LINES);
    assert_eq!(s.logs()[0], "line 50");
    assert_eq!(s.logs()[99], "line 149");
}

#[test]
fn connecting_registers_the_shortcuts() {
    let mut listener = Listener::default();
    let c = config();
    let s = connected(&mut listener, &c);
    assert!(s.is_connected());
    assert_eq!(listener.registered, vec![1, 2]);
    assert_eq!(last_log(&s), "📊 Resultado: 2 registradas, 0 com conflito");
    assert_eq!(s.logs()[0], "🔗 Tentando conectar ao OBS...");
    assert_eq!(s.logs()[1], "✅ Conectado ao OBS com sucesso!");
}

#[test]
fn failed_and_closed_connections() {
    let mut listener = Listener::default();
    let c = config();
    let mut s = Session::new();
    s.poll_connect_result(ConnectPoll::Failed("x".to_string()), &c.soundpad.clips, &mut listener);
    assert!(s.logs().is_empty());
    s.start_connect();
    s.poll_connect_result(ConnectPoll::Pending, &c.soundpad.clips, &mut listener);
    assert!(s.is_awaiting_connection());
    s.poll_connect_result(ConnectPoll::Failed("recusado".to_string()), &c.soundpad.clips, &mut listener);
    assert_eq!(last_log(&s), "❌ Erro ao conectar: recusado");
    assert!(!s.is_awaiting_connection());
    assert!(!s.is_connected());
    s.start_connect();
    s.poll_connect_result(ConnectPoll::Closed, &c.soundpad.clips, &mut listener);
    assert_eq!(last_log(&s), "❌ Canal de conexão fechado inesperadamente");
}

#[test]
fn duplicate_shortcuts_between_clips_are_refused() {
    let mut listener = Listener::default();
    let mut c = config();
    c.soundpad.clips.push(clip("clip3", "x.wav", "alt+ctrl+a"));
    let s = connected(&mut listener, &c);
    assert_eq!(listener.registered, vec![1]);
    assert!(s.logs().iter().any(|l| l == "❌ Clip 'beep.wav' (Ctrl+Alt+A) - hotkey duplicada entre clips"));
    assert_eq!(last_log(&s), "📊 Resultado: 1 registradas, 2 com conflito");
}

#[test]
fn same_id_twice_conflicts_in_the_checker() {
    let mut listener = Listener::default();
    let mut c = config();
    c.soundpad.clips.push(clip("clip2", "again.wav", "f1"));
    c.soundpad.clips.push(clip("clip4", "bad.wav", "Nope"));
    let s = connected(&mut listener, &c);
    assert!(s
        .logs()
        .iter()
        .any(|l| l == "❌ Clip 'again.wav' (f1) - Hotkey 'F1' já está em uso (2 registradas)"));
    assert!(s.logs().iter().any(|l| l == "❌ Clip 'bad.wav' (Nope) - falha ao normalizar hotkey"));
    assert_eq!(last_log(&s), "📊 Resultado: 2 registradas, 2 com conflito");
}

#[test]
fn pressing_a_shortcut_plays_its_clip_and_ducks() {
    let mut listener = Listener::default();
    let c = config();
    let mut s = connected(&mut listener, &c);
    let folder = Folder(Ok(vec!["/music/a.wav".to_string()]));
    s.bard_toggle(&c, &folder, 0);
    assert_eq!(s.bard_state(), BardState::Playing);
    listener.pressed = vec![2, 99];
    let effects = s.poll_hotkey_events(&c, &mut listener);
    assert_eq!(effects.len(), 1);
    assert!(matches!(&effects[0], Effect::PlaySoundEffect { clip_id } if clip_id == "clip2"));
    assert_eq!(s.bard_state(), BardState::Ducked);
    assert_eq!(last_log(&s), "🔊 SFX: boop.wav");
}

#[test]
fn unknown_clip_is_logged() {
    let mut listener = Listener::default();
    let c = config();
    let mut s = connected(&mut listener, &c);
    assert!(s.play_clip_by_id(&c, "zzz").is_none());
    assert_eq!(last_log(&s), "❌ Clip 'zzz' não encontrado");
}

#[test]
fn toggle_starts_and_pauses() {
    let mut listener = Listener::default();
    let c = config();
    let mut s = connected(&mut listener, &c);
    let folder = Folder(Ok(vec![
        "/music/a.wav".to_string(),
        "/music/notes.txt".to_string(),
        "/music/b.WAV".to_string(),
    ]));
    let effects = s.bard_toggle(&c, &folder, 5);
    assert_eq!(s.bard_state(), BardState::Playing);
    assert_eq!(effects.len(), 1);
    assert!(matches!(&effects[0], Effect::ActivateBard { file } if file == "/music/a.wav"));
    assert_eq!(s.current_song().unwrap(), "a");
    let n = s.logs().len();
    assert_eq!(s.logs()[n - 2], "🎶 BGM [BGM]: a");
    assert_eq!(s.logs()[n - 1], "🎵 Bard iniciado");
    let effects = s.bard_toggle(&c, &folder, 6);
    assert_eq!(s.bard_state(), BardState::Paused);
    assert!(matches!(&effects[0], Effect::PauseBard));
    assert_eq!(last_log(&s), "⏸️  Bard pausado");
}

#[test]
fn toggle_without_connection_warns() {
    let c = config();
    let mut s = Session::new();
    let folder = Folder(Ok(vec![]));
    assert!(s.bard_toggle(&c, &folder, 0).is_empty());
    assert_eq!(s.bard_state(), BardState::Idle);
    assert_eq!(last_log(&s), "⚠️  OBS não conectado");
}

#[test]
fn empty_or_unreadable_folder() {
    let mut listener = Listener::default();
    let c = config();
    let mut s = connected(&mut listener, &c);
    let folder = Folder(Ok(vec!["/music/x.mp3".to_string()]));
    assert!(s.bard_toggle(&c, &folder, 0).is_empty());
    let n = s.logs().len();
    assert_eq!(s.logs()[n - 2], "❌ Nenhum .wav encontrado na pasta de músicas");
    assert_eq!(s.bard_state(), BardState::Playing);
    let folder = Folder(Err("sem acesso".to_string()));
    assert!(s.bard_skip(&c, &folder).is_none());
    assert_eq!(last_log(&s), "❌ Falha ao ler pasta de músicas: sem acesso");
}

#[test]
fn skip_only_while_playing() {
    let mut listener = Listener::default();
    let c = config();
    let mut s = connected(&mut listener, &c);
    let folder = Folder(Ok(vec!["/music/z.wav".to_string()]));
    assert!(s.bard_skip(&c, &folder).is_none());
    s.bard_toggle(&c, &folder, 0);
    let e = s.bard_skip(&c, &folder).unwrap();
    assert!(matches!(e, Effect::SkipBardTrack { ref file } if file == "/music/z.wav"));
}

#[test]
fn scheduler_waits_for_the_interval() {
    let mut listener = Listener::default();
    let mut c = config();
    c.bard.enabled = true;
    c.bard.interval_secs = 30;
    let mut s = connected(&mut listener, &c);
    let folder = Folder(Ok(vec!["/music/z.wav".to_string()]));
    s.bard_toggle(&c, &folder, 1_000);
    let sec: u128 = 1_000_000_000;
    assert!(s.poll_bard_scheduler(&c, &folder, 1_000 + 29 * sec).is_none());
    assert!(s.poll_bard_scheduler(&c, &folder, 1_000 + 30 * sec).is_some());
    assert!(s.poll_bard_scheduler(&c, &folder, 1_000 + 31 * sec).is_none());
    c.bard.enabled = false;
    assert!(s.poll_bard_scheduler(&c, &folder, 1_000 + 100 * sec).is_none());
}

#[test]
fn disconnect_forgets_shortcuts_and_stops_the_music() {
    let mut listener = Listener::default();
    let c = config();
    let mut s = connected(&mut listener, &c);
    let folder = Folder(Ok(vec!["/music/z.wav".to_string()]));
    s.bard_toggle(&c, &folder, 0);
    s.disconnect(&mut listener);
    assert!(!s.is_connected());
    assert_eq!(s.bard_state(), BardState::Idle);
    let mut un = listener.unregistered.clone();
    un.sort();
    assert_eq!(un, vec![1, 2]);
    assert_eq!(last_log(&s), "🔌 Desconectado do OBS");
}

#[test]
fn unregister_one_clip() {
    let mut listener = Listener::default();
    let c = config();
    let mut s = connected(&mut listener, &c);
    s.unregister_clip_hotkey(&c.soundpad.clips[0], &mut listener);
    assert_eq!(listener.unregistered, vec![1]);
    // The keys are free again.
    let again = clip("clip9", "n.wav", "Alt+Ctrl+A");
    assert!(s.register_clip_hotkey(&again, &mut listener).is_ok());
}

#[test]
fn tray_menu_items() {
    assert_eq!(tray_action_for(Some(MENU_SHOW)), TrayAction::ShowWindow);
    assert_eq!(tray_action_for(Some(MENU_BARD_TOGGLE)), TrayAction::BardToggle);
    assert_eq!(tray_action_for(Some(MENU_BARD_SKIP)), TrayAction::BardSkip);
    assert_eq!(tray_action_for(Some(MENU_QUIT)), TrayAction::Quit);
    assert_eq!(tray_action_for(Some("other")), TrayAction::NoAction);
    assert_eq!(tray_action_for(None), TrayAction::NoAction);
}

#[test]
fn tray_actions_and_closing() {
    let c = config();
    let mut s = Session::new();
    let folder = Folder(Ok(vec![]));
    let e = s.on_close_requested();
    assert!(matches!(e[0], Effect::HideWindow));
    assert!(!s.is_window_visible());
    let e = s.poll_tray_action(TrayAction::ShowWindow, &c, &folder, 0);
    assert!(matches!(e[0], Effect::ShowWindow));
    assert!(s.is_window_visible());
    let e = s.poll_tray_action(TrayAction::Quit, &c, &folder, 0);
    assert!(matches!(e[0], Effect::CloseWindow));
    assert!(s.poll_tray_action(TrayAction::NoAction, &c, &folder, 0).is_empty());
}

#[test]
fn wav_filter() {
    let entries = vec![
        "/m/a.wav".to_string(),
        "/m/.wav".to_string(),
        "/m/b.mp3".to_string(),
        "/m/c.wav".to_string(),
        "/m/d".to_string(),
    ];
    assert_eq!(wav_files(&entries), vec!["/m/a.wav".to_string(), "/m/c.wav".to_string()]);
}

#[test]
fn wav_selection_follows_the_extensions() {
    let entries = vec!["a".to_string(), "b".to_string(), "c".to_string(), "d".to_string()];
    let exts = vec![
        Some("wav".to_string()),
        Some("WAV".to_string()),
        None,
        Some("wav".to_string()),
    ];
    assert_eq!(select_wavs(&entries, &exts), vec!["a".to_string(), "d".to_string()]);
    assert!(select_wavs(&Vec::new(), &Vec::new()).is_empty());
}

#[test]
fn presses_play_their_clips_in_order() {
    let mut listener = Listener::default();
    let c = config();
    let mut s = connected(&mut listener, &c);
    let effects = s.handle_hotkey_presses(&c, &vec![2, 7, 1, 2]);
    let ids: Vec<String> = effects
        .iter()
        .map(|e| match e {
            Effect::PlaySoundEffect { clip_id } => clip_id.clone(),
            other => panic!("unexpected effect {:?}", other),
        })
        .collect();
    assert_eq!(ids, vec!["clip2".to_string(), "clip1".to_string(), "clip2".to_string()]);
    assert_eq!(last_log(&s), "🔊 SFX: boop.wav");
    assert!(s.handle_hotkey_presses(&c, &Vec::new()).is_empty());
}

#[test]
fn scheduler_counts_from_when_it_first_sees_the_music() {
    let mut listener = Listener::default();
    let mut c = config();
    c.bard.interval_secs = 30;
    let mut s = connected(&mut listener, &c);
    let folder = Folder(Ok(vec!["/music/z.wav".to_string()]));
    s.bard_toggle(&c, &folder, 0);
    let sec: u128 = 1_000_000_000;
    assert!(s.poll_bard_scheduler(&c, &folder, 5 * sec).is_none());
    c.bard.enabled = true;
    assert!(s.poll_bard_scheduler(&c, &folder, 10 * sec).is_none());
    assert!(s.poll_bard_scheduler(&c, &folder, 39 * sec).is_none());
    assert!(matches!(
        s.poll_bard_scheduler(&c, &folder, 40 * sec),
        Some(Effect::ActivateBard { file }) if file == "/music/z.wav"
    ));
}

#[test]
fn the_folder_of_the_music_is_listed() {
    let mut listener = Listener::default();
    let c = config();
    let mut s = connected(&mut listener, &c);
    let asked = std::cell::RefCell::new(Vec::new());
    let list = |dir: String| {
        asked.borrow_mut().push(dir);
        Ok(vec!["/music/notes.txt".to_string(), "/music/song.wav".to_string()])
    };
    let effects = s.bard_toggle(&c, &list, 0);
    assert_eq!(*asked.borrow(), vec!["/music".to_string()]);
    assert!(matches!(&effects[0], Effect::ActivateBard { file } if file == "/music/song.wav"));
    assert_eq!(s.current_song().cloned(), Some("song".to_string()));
}

#[test]
fn start_track_picks_round_the_wavs() {
    let mut s = Session::new();
    let entries = vec![
        "/m/a.wav".to_string(),
        "/m/b.txt".to_string(),
        "/m/c.wav".to_string(),
    ];
    assert_eq!(s.start_track(Ok(entries.clone()), 3), Some("/m/c.wav".to_string()));
    assert_eq!(s.current_song().cloned(), Some("c".to_string()));
    assert_eq!(last_log(&s), "🎶 BGM [BGM]: c");
    assert_eq!(s.start_track(Ok(entries), 4), Some("/m/a.wav".to_string()));
    assert_eq!(s.start_track(Ok(vec!["/m/b.txt".to_string()]), 0), None);
    assert_eq!(last_log(&s), "❌ Nenhum .wav encontrado na pasta de músicas");
    assert_eq!(s.start_track(Err("negado".to_string()), 0), None);
    assert_eq!(last_log(&s), "❌ Falha ao ler pasta de músicas: negado");
}

#[test]
fn sync_maps_numbers_to_clips() {
    let mut listener = Listener::default();
    let c = config();
    let s = connected(&mut listener, &c);
    assert!(s.plays_clip("clip1"));
    assert!(s.plays_clip("clip2"));
    assert_eq!(last_log(&s), "📊 Resultado: 2 registradas, 0 com conflito");
}

#[test]
fn music_comes_back_up_when_the_last_effect_ends() {
    let mut listener = Listener::default();
    let c = config();
    let mut s = connected(&mut listener, &c);
    let folder = Folder(Ok(vec!["/music/a.wav".to_string()]));
    s.bard_toggle(&c, &folder, 0);
    s.play_clip_by_id(&c, "clip1");
    s.play_clip_by_id(&c, "clip2");
    assert_eq!(s.bard_state(), BardState::Ducked);
    s.on_effect_finished();
    assert_eq!(s.bard_state(), BardState::Ducked);
    s.on_effect_finished();
    assert_eq!(s.bard_state(), BardState::Playing);
    s.on_effect_finished();
    assert_eq!(s.bard_state(), BardState::Playing);
}

#[test]
fn sync_logs_each_step() {
    let mut listener = Listener::default();
    let mut c = config();
    c.soundpad.clips.push(clip("clip3", "x.wav", "alt+ctrl+a"));
    c.soundpad.clips.push(clip("clip4", "y.wav", "nada+nada"));
    let s = connected(&mut listener, &c);
    let logs: Vec<String> = s.logs().clone();
    let n = logs.len();
    let expected = vec![
        "🔄 Sincronizando hotkeys...".to_string(),
        "❌ Clip 'beep.wav' (Ctrl+Alt+A) - hotkey duplicada entre clips".to_string(),
        "❌ Clip 'x.wav' (alt+ctrl+a) - hotkey duplicada entre clips".to_string(),
        "❌ Clip 'y.wav' (nada+nada) - falha ao normalizar hotkey".to_string(),
        "📊 Resultado: 1 registradas, 3 com conflito".to_string(),
    ];
    assert_eq!(logs[n - 5..].to_vec(), expected);
}
