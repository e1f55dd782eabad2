use soundpad_bard::bard::AudioChannel;
use soundpad_bard::config::{add_clip, default_config, Level, SoundpadClip, DEFAULT_BGM_VOLUME_BITS, DEFAULT_DUCK_RATIO_BITS, NEW_CLIP_VOLUME_BITS};
use soundpad_bard::repository::JsonConfigRepository;

#[test]
fn defaults() {
    let c = default_config("d/sfx".to_string(), "d/music".to_string());
    assert_eq!(c.schema_version, 1);
    assert_eq!(c.obs.host, "localhost");
    assert_eq!(c.obs.port, 4455);
    assert!(c.obs.password.is_none());
    assert_eq!(c.obs.sfx_source, "SoundpadSFX");
    assert_eq!(c.obs.bgm_source, "BardBGM");
    assert_eq!(c.obs.ducking_filter, "SidechainDucking");
    assert_eq!(c.soundpad.sfx_dir, "d/sfx");
    assert!(c.soundpad.clips.is_empty());
    assert_eq!(c.bard.music_dir, "d/music");
    assert_eq!(f32::from_bits(c.bard.volume.bits), 0.3);
    assert_eq!(c.bard.interval_secs, 30);
    assert!(!c.bard.enabled);
    assert_eq!(f32::from_bits(c.bard.ducking.duck_ratio.bits), 0.25);
    assert_eq!(c.bard.ducking.attack_ms, 100);
    assert_eq!(c.bard.ducking.release_ms, 900);
    assert_eq!(DEFAULT_BGM_VOLUME_BITS, 0.3f32.to_bits());
    assert_eq!(DEFAULT_DUCK_RATIO_BITS, 0.25f32.to_bits());
}

#[test]
fn clips_play_on_the_effects_channel() {
    let clip = SoundpadClip {
        id: "x".to_string(),
        filename: "x.wav".to_string(),
        hotkey: "F1".to_string(),
        volume: Level { bits: 0.8f32.to_bits() },
    };
    assert_eq!(clip.channel(), AudioChannel::Sfx);
}

#[test]
fn repository_paths() {
    let repo = JsonConfigRepository::new("/tmp/c.json".to_string());
    assert_eq!(repo.path(), "/tmp/c.json");
    assert_eq!(JsonConfigRepository::default_path("/proj").unwrap(), "/proj/data/config.json");
}

#[test]
fn adding_a_clip() {
    let mut clips: Vec<SoundpadClip> = Vec::new();
    let v = Level { bits: NEW_CLIP_VOLUME_BITS };
    assert_eq!(f32::from_bits(NEW_CLIP_VOLUME_BITS), 0.8);
    assert!(!add_clip(&mut clips, "", "F1", v));
    assert!(!add_clip(&mut clips, "a.wav", "", v));
    assert!(clips.is_empty());
    assert!(add_clip(&mut clips, "a.wav", "F1", v));
    assert!(add_clip(&mut clips, "b.wav", "F2", v));
    assert_eq!(clips[0].id, "clip_0");
    assert_eq!(clips[1].id, "clip_1");
    assert_eq!(clips[1].filename, "b.wav");
    assert_eq!(clips[1].hotkey, "F2");
    assert_eq!(clips[1].volume, v);
}
