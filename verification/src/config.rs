//! The application's settings: the OBS connection, the sound effects with
//! their shortcuts, and the background music with its ducking.

use vstd::prelude::*;
use vstd::string::to_string_from_display_ensures;

verus! {

/// A volume or ratio between 0 and 1, carried as the bit pattern of the
/// IEEE-754 single that the settings file holds. The library hands it on
/// unchanged; only the code that talks to OBS computes with it.
#[derive(Debug, Clone, Copy, PartialEq, Eq, Structural)]
pub struct Level {
    pub bits: u32,
}

/// How to reach OBS and which of its sources and filters to drive.
#[derive(Debug, Clone)]
pub struct ObsConfig {
    pub host: String,
    pub port: u16,
    pub password: Option<String>,
    pub sfx_source: String,
    pub bgm_source: String,
    pub ducking_filter: String,
}

/// A sound effect: its file in the effects folder, its shortcut and volume.
#[derive(Debug, Clone)]
pub struct SoundpadClip {
    pub id: String,
    pub filename: String,
    pub hotkey: String,
    pub volume: Level,
}

impl SoundpadClip {
    /// Effects play on the effects channel.
    pub fn channel(&self) -> (r: crate::bard::AudioChannel)
        ensures
            r == crate::bard::AudioChannel::Sfx,
    {
        crate::bard::AudioChannel::Sfx
    }
}

/// The effects folder and the effects.
#[derive(Debug, Clone)]
pub struct SoundpadConfig {
    pub sfx_dir: String,
    pub clips: Vec<SoundpadClip>,
}

/// How far and how fast the music is lowered under an effect.
#[derive(Debug, Clone, Copy)]
pub struct DuckingConfig {
    /// Share of the music's volume kept while lowered.
    pub duck_ratio: Level,
    pub attack_ms: u32,
    pub release_ms: u32,
}

/// The music folder, volume and schedule.
#[derive(Debug, Clone)]
pub struct BardConfig {
    pub music_dir: String,
    pub volume: Level,
    pub interval_secs: u64,
    pub enabled: bool,
    pub ducking: DuckingConfig,
}

/// All settings.
#[derive(Debug, Clone)]
pub struct AppConfig {
    pub schema_version: u32,
    pub obs: ObsConfig,
    pub soundpad: SoundpadConfig,
    pub bard: BardConfig,
}

/// The bit pattern of the single `0.3`.
pub const DEFAULT_BGM_VOLUME_BITS: u32 = 0x3e99999a;

/// The bit pattern of the single `0.25`.
pub const DEFAULT_DUCK_RATIO_BITS: u32 = 0x3e800000;

/// The settings of a first start: OBS on `localhost:4455` without password,
/// the usual source and filter names, no effects, music at 30% every 30
/// seconds but not enabled, lowered to a quarter with 100 ms attack and
/// 900 ms release; `sfx_dir` and `music_dir` are the folders for effects
/// and music.
pub fn default_config(sfx_dir: String, music_dir: String) -> (r: AppConfig)
    ensures
        r.schema_version == 1,
        r.obs.host@ == "localhost"@,
        r.obs.port == 4455,
        r.obs.password is None,
        r.obs.sfx_source@ == "SoundpadSFX"@,
        r.obs.bgm_source@ == "BardBGM"@,
        r.obs.ducking_filter@ == "SidechainDucking"@,
        r.soundpad.sfx_dir == sfx_dir,
        r.soundpad.clips@.len() == 0,
        r.bard.music_dir == music_dir,
        r.bard.volume.bits == DEFAULT_BGM_VOLUME_BITS,
        r.bard.interval_secs == 30,
        !r.bard.enabled,
        r.bard.ducking.duck_ratio.bits == DEFAULT_DUCK_RATIO_BITS,
        r.bard.ducking.attack_ms == 100,
        r.bard.ducking.release_ms == 900,
{
    AppConfig {
        schema_version: 1,
        obs: ObsConfig {
            host: "localhost".to_owned(),
            port: 4455,
            password: None,
            sfx_source: "SoundpadSFX".to_owned(),
            bgm_source: "BardBGM".to_owned(),
            ducking_filter: "SidechainDucking".to_owned(),
        },
        soundpad: SoundpadConfig { sfx_dir, clips: Vec::new() },
        bard: BardConfig {
            music_dir,
            volume: Level { bits: DEFAULT_BGM_VOLUME_BITS },
            interval_secs: 30,
            enabled: false,
            ducking: DuckingConfig {
                duck_ratio: Level { bits: DEFAULT_DUCK_RATIO_BITS },
                attack_ms: 100,
                release_ms: 900,
            },
        },
    }
}

/// The bit pattern of the single `0.8`, the volume a new effect starts at.
pub const NEW_CLIP_VOLUME_BITS: u32 = 0x3f4ccccd;

/// Adds an effect with file `filename`, shortcut `hotkey` and volume
/// `volume`, where neither text is empty; its id is `clip_` followed by the
/// number of effects before it.
pub fn add_clip(clips: &mut Vec<SoundpadClip>, filename: &str, hotkey: &str, volume: Level) -> (added: bool)
    ensures
        added == (filename@.len() > 0 && hotkey@.len() > 0),
        !added ==> final(clips)@ == old(clips)@,
        added ==> final(clips)@.len() == old(clips)@.len() + 1
            && final(clips)@.take(old(clips)@.len() as int) == old(clips)@
            && final(clips)@.last().filename@ == filename@
            && final(clips)@.last().hotkey@ == hotkey@
            && final(clips)@.last().volume == volume
            && exists|t: String| #![trigger to_string_from_display_ensures::<usize>(&old(clips).len(), t)]
                to_string_from_display_ensures::<usize>(&old(clips).len(), t)
                && final(clips)@.last().id@ == "clip_"@ + t@,
{
    if filename.unicode_len() == 0 || hotkey.unicode_len() == 0 {
        return false;
    }
    let n = clips.len();
    let count = n.to_string();
    let mut id = "clip_".to_owned();
    id.append(count.as_str());
    clips.push(SoundpadClip { id, filename: filename.to_owned(), hotkey: hotkey.to_owned(), volume });
    assert(clips@.take(n as int) =~= old(clips)@);
    true
}

} // verus!
