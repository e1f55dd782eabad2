use soundpad_bard::config::{default_config, AppConfig, Level, SoundpadClip};
use soundpad_bard::use_cases::{
    find_clip, ActivateBard, ConfigRepository, ObsCommand, PauseBard, PlaySoundEffect,
    SkipBardTrack, UseCaseError, Volume,
};

fn config() -> AppConfig {
    let mut c = default_config("/sfx".to_string(), "/music".to_string());
    c.soundpad.clips.push(SoundpadClip {
        id: "a".to_string(),
        filename: "beep.wav".to_string(),
        hotkey: "F1".to_string(),
        volume: Level { bits: 1 },
    });
    c.soundpad.clips.push(SoundpadClip {
        id: "b".to_string(),
        filename: "boop.wav".to_string(),
        hotkey: "F2".to_string(),
        volume: Level { bits: 2 },
    });
    c.soundpad.clips.push(SoundpadClip {
        id: "a".to_string(),
        filename: "other.wav".to_string(),
        hotkey: "F3".to_string(),
        volume: Level { bits: 3 },
    });
    c
}

fn describe(cmds: &[ObsCommand]) -> Vec<String> {
    cmds.iter().map(|c| format!("{:?}", c)).collect()
}

#[test]
fn first_clip_with_the_id_is_found() {
    let c = config();
    assert_eq!(find_clip(&c.soundpad.clips, "a"), Some(0));
    assert_eq!(find_clip(&c.soundpad.clips, "b"), Some(1));
    assert_eq!(find_clip(&c.soundpad.clips, "z"), None);
}

#[test]
fn sound_effect_plan() {
    let c = config();
    let cmds = PlaySoundEffect { config: &c }.execute("b").unwrap();
    assert_eq!(cmds.len(), 8);
    match &cmds[0] {
        ObsCommand::SetVolume { source, volume } => {
            assert_eq!(source, "SoundpadSFX");
            assert_eq!(*volume, Volume::Clamped(Level { bits: 2 }));
        }
        other => panic!("{:?}", other),
    }
    match &cmds[1] {
        ObsCommand::Play { source, file } => {
            assert_eq!(source, "SoundpadSFX");
            assert_eq!(file, "/sfx/boop.wav");
        }
        other => panic!("{:?}", other),
    }
    assert!(matches!(cmds[2], ObsCommand::Wait { millis: 100 }));
    match &cmds[3] {
        ObsCommand::SetVolume { source, volume } => {
            assert_eq!(source, "BardBGM");
            assert_eq!(
                *volume,
                Volume::Ducked { base: c.bard.volume, ratio: c.bard.ducking.duck_ratio }
            );
        }
        other => panic!("{:?}", other),
    }
    assert!(matches!(&cmds[4], ObsCommand::SetFilterEnabled { enabled: true, filter, .. } if filter == "SidechainDucking"));
    assert!(matches!(cmds[5], ObsCommand::Wait { millis: 900 }));
    assert!(matches!(&cmds[6], ObsCommand::SetVolume { volume: Volume::Exact(l), .. } if *l == c.bard.volume));
    assert!(matches!(&cmds[7], ObsCommand::SetFilterEnabled { enabled: false, .. }));
}

#[test]
fn unknown_clip_is_an_error() {
    let c = config();
    let r = PlaySoundEffect { config: &c }.execute("nope");
    assert!(matches!(r, Err(UseCaseError::ClipNotFound)));
    assert_eq!(r.unwrap_err().message(), "clip nao encontrado");
}

#[test]
fn bard_track_plan() {
    let c = config();
    let cmds = ActivateBard { config: &c }.execute("song.wav").unwrap();
    assert_eq!(
        describe(&cmds),
        vec![
            format!("{:?}", ObsCommand::SetVolume { source: "BardBGM".to_string(), volume: Volume::Exact(c.bard.volume) }),
            format!("{:?}", ObsCommand::Play { source: "BardBGM".to_string(), file: "/music/song.wav".to_string() }),
        ]
    );
    // An absolute path replaces the folder.
    let cmds = ActivateBard { config: &c }.execute("/elsewhere/x.wav").unwrap();
    assert!(matches!(&cmds[1], ObsCommand::Play { file, .. } if file == "/elsewhere/x.wav"));
}

#[test]
fn pause_mutes_the_music() {
    let c = config();
    let cmds = PauseBard { config: &c }.execute();
    assert_eq!(cmds.len(), 1);
    assert!(matches!(&cmds[0], ObsCommand::SetVolume { source, volume: Volume::Mute } if source == "BardBGM"));
}

struct Saved(AppConfig);

impl ConfigRepository for Saved {
    fn load(&self) -> Result<AppConfig, String> {
        Ok(self.0.clone())
    }
    fn save(&self, _config: &AppConfig) -> Result<(), String> {
        Ok(())
    }
}

struct Broken;

impl ConfigRepository for Broken {
    fn load(&self) -> Result<AppConfig, String> {
        Err("falha ao ler".to_string())
    }
    fn save(&self, _config: &AppConfig) -> Result<(), String> {
        Err("no".to_string())
    }
}

#[test]
fn skip_uses_the_saved_settings() {
    let mut saved = config();
    saved.obs.bgm_source = "Other".to_string();
    saved.bard.music_dir = "/saved".to_string();
    let repo = Saved(saved);
    let cmds = SkipBardTrack { config: &repo }.execute("n.wav").unwrap();
    assert!(matches!(&cmds[0], ObsCommand::SetVolume { source, .. } if source == "Other"));
    assert!(matches!(&cmds[1], ObsCommand::Play { file, .. } if file == "/saved/n.wav"));
    let r = SkipBardTrack { config: &Broken }.execute("n.wav");
    match r {
        Err(e) => assert_eq!(e.message(), "falha ao ler"),
        Ok(_) => panic!("expected an error"),
    }
}

#[test]
fn a_separator_is_put_only_where_needed() {
    let mut c = config();
    c.bard.music_dir = "/music/".to_string();
    let cmds = ActivateBard { config: &c }.execute("song.wav").unwrap();
    assert!(matches!(&cmds[1], ObsCommand::Play { file, .. } if file == "/music/song.wav"));
    c.bard.music_dir = String::new();
    let cmds = ActivateBard { config: &c }.execute("song.wav").unwrap();
    assert!(matches!(&cmds[1], ObsCommand::Play { file, .. } if file == "song.wav"));
}

#[test]
fn a_folder_with_a_colon_is_joined_too() {
    let mut c = config();
    c.soundpad.sfx_dir = "C:/sfx".to_string();
    let cmds = PlaySoundEffect { config: &c }.execute("b").unwrap();
    assert!(matches!(&cmds[1], ObsCommand::Play { file, .. } if file == "C:/sfx/boop.wav"));
}
