//! What playing an effect, starting, skipping and pausing the music ask of
//! OBS: each use case turns the settings into the list of commands that the
//! caller sends to OBS in order, stopping at the first that fails.

use vstd::prelude::*;
use crate::config::{AppConfig, Level, SoundpadClip};
use crate::paths::{join_path, plainly_relative, plain_base, joined, joined_loosely, has_verbatim_prefix};
use crate::text::same_text;
use crate::ducking::DuckingPolicy;

verus! {

/// The volume to give a source.
#[derive(Debug, Clone, Copy, PartialEq, Eq, Structural)]
pub enum Volume {
    /// The level as it is.
    Exact(Level),
    /// The level, held between 0 and 1.
    Clamped(Level),
    /// The music's level lowered by the ducking ratio while one effect plays.
    Ducked { base: Level, ratio: Level },
    /// Silence.
    Mute,
}

/// One request to OBS.
#[derive(Debug, Clone)]
pub enum ObsCommand {
    /// Set the volume of a source.
    SetVolume { source: String, volume: Volume },
    /// Load a file into a media source and play it from the start.
    Play { source: String, file: String },
    /// Wait before the next command.
    Wait { millis: u32 },
    /// Switch a filter of a source on or off.
    SetFilterEnabled { source: String, filter: String, enabled: bool },
}

/// A command over plain values.
pub enum Command {
    SetVolume(Seq<char>, Volume),
    Play(Seq<char>, Seq<char>),
    Wait(u32),
    SetFilterEnabled(Seq<char>, Seq<char>, bool),
}

impl View for ObsCommand {
    type V = Command;

    open spec fn view(&self) -> Command {
        match self {
            ObsCommand::SetVolume { source, volume } => Command::SetVolume(source@, *volume),
            ObsCommand::Play { source, file } => Command::Play(source@, file@),
            ObsCommand::Wait { millis } => Command::Wait(*millis),
            ObsCommand::SetFilterEnabled { source, filter, enabled } => Command::SetFilterEnabled(source@, filter@, *enabled),
        }
    }
}

pub open spec fn commands_view(v: Seq<ObsCommand>) -> Seq<Command> {
    v.map_values(|c: ObsCommand| c@)
}

/// Why a use case could not start.
#[derive(Debug, Clone)]
pub enum UseCaseError {
    /// No effect has the id.
    ClipNotFound,
    /// The file's path is not UTF-8.
    InvalidPath,
    /// The settings could not be loaded; the message says why.
    ConfigUnavailable(String),
}

impl UseCaseError {
    /// The message shown for the error.
    pub fn message(&self) -> (r: String)
        ensures
            r@ == (match self {
                UseCaseError::ClipNotFound => "clip nao encontrado"@,
                UseCaseError::InvalidPath => "caminho invalido"@,
                UseCaseError::ConfigUnavailable(m) => m@,
            }),
    {
        match self {
            UseCaseError::ClipNotFound => "clip nao encontrado".to_owned(),
            UseCaseError::InvalidPath => "caminho invalido".to_owned(),
            UseCaseError::ConfigUnavailable(m) => m.clone(),
        }
    }
}

/// Where the settings are kept.
pub trait ConfigRepository {
    /// The settings as last saved.
    fn load(&self) -> Result<AppConfig, String>;

    /// Keeps `config` as the settings.
    fn save(&self, config: &AppConfig) -> Result<(), String>;
}

/// `i` is the first position of an effect with id `id`.
pub open spec fn is_first_clip(clips: Seq<SoundpadClip>, id: Seq<char>, i: int) -> bool {
    0 <= i < clips.len() && clips[i].id@ == id
        && forall|j: int| 0 <= j < i ==> #[trigger] clips[j].id@ != id
}

/// No effect has id `id`.
pub open spec fn no_clip(clips: Seq<SoundpadClip>, id: Seq<char>) -> bool {
    forall|j: int| 0 <= j < clips.len() ==> #[trigger] clips[j].id@ != id
}

/// The position of the first effect with id `id`.
pub fn find_clip(clips: &Vec<SoundpadClip>, id: &str) -> (r: Option<usize>)
    ensures
        match r {
            Some(i) => is_first_clip(clips@, id@, i as int),
            None => no_clip(clips@, id@),
        },
{
    let mut i: usize = 0;
    while i < clips.len()
        invariant
            i <= clips@.len(),
            forall|j: int| 0 <= j < i ==> #[trigger] clips@[j].id@ != id@,
        decreases clips@.len() - i,
    {
        if same_text(clips[i].id.as_str(), id) {
            return Some(i);
        }
        i = i + 1;
    }
    None
}

/// The commands for an effect: set its volume and play `file` on the
/// effects source; after the attack time lower the music and switch the
/// ducking filter on; after the release time restore the music's volume
/// and switch the filter off.
pub open spec fn sound_effect_plan(config: AppConfig, clip: SoundpadClip, file: Seq<char>) -> Seq<Command> {
    seq![
        Command::SetVolume(config.obs.sfx_source@, Volume::Clamped(clip.volume)),
        Command::Play(config.obs.sfx_source@, file),
        Command::Wait(config.bard.ducking.attack_ms),
        Command::SetVolume(config.obs.bgm_source@, Volume::Ducked { base: config.bard.volume, ratio: config.bard.ducking.duck_ratio }),
        Command::SetFilterEnabled(config.obs.bgm_source@, config.obs.ducking_filter@, true),
        Command::Wait(config.bard.ducking.release_ms),
        Command::SetVolume(config.obs.bgm_source@, Volume::Exact(config.bard.volume)),
        Command::SetFilterEnabled(config.obs.bgm_source@, config.obs.ducking_filter@, false),
    ]
}

/// The commands for a music track: set the music's volume and play `file`
/// on the music source.
pub open spec fn bard_track_plan(config: AppConfig, file: Seq<char>) -> Seq<Command> {
    seq![
        Command::SetVolume(config.obs.bgm_source@, Volume::Exact(config.bard.volume)),
        Command::Play(config.obs.bgm_source@, file),
    ]
}

/// Joining `name` onto `dir` is owed to succeed: `name` is plainly relative
/// and `dir` has no verbatim prefix.
pub open spec fn join_owed(dir: Seq<char>, name: Seq<char>) -> bool {
    plainly_relative(name) && !has_verbatim_prefix(dir)
}

/// Where joining is owed, `file` is `dir` followed by `name`, directly or
/// after one separator; where `dir` has no `:` either, the separator comes
/// exactly where it is needed.
pub open spec fn file_in(dir: Seq<char>, name: Seq<char>, file: Seq<char>) -> bool {
    &&& (join_owed(dir, name) ==> joined_loosely(dir, name, file))
    &&& (join_owed(dir, name) && plain_base(dir) ==> joined(dir, name, file))
}

/// What asking for the music track `music_file` under `config` gives: the
/// commands that play the file of that name in the music folder, or
/// `InvalidPath` where the join is not owed and failed.
pub open spec fn track_result(config: AppConfig, music_file: Seq<char>, r: Result<Vec<ObsCommand>, UseCaseError>) -> bool {
    match r {
        Ok(cmds) => exists|file: Seq<char>| #![trigger bard_track_plan(config, file)]
            commands_view(cmds@) == bard_track_plan(config, file) && file_in(config.bard.music_dir@, music_file, file),
        Err(e) => e is InvalidPath && !join_owed(config.bard.music_dir@, music_file),
    }
}

/// The commands that play the effect `clip` from `file`.
pub fn sound_effect_commands(config: &AppConfig, clip: &SoundpadClip, file: String) -> (r: Vec<ObsCommand>)
    ensures
        commands_view(r@) == sound_effect_plan(*config, *clip, file@),
{
    let sfx = &config.obs.sfx_source;
    let bgm = &config.obs.bgm_source;
    let filter = &config.obs.ducking_filter;
    let policy = DuckingPolicy::from_config(&config.bard.ducking);
    let mut r: Vec<ObsCommand> = Vec::new();
    r.push(ObsCommand::SetVolume { source: sfx.clone(), volume: Volume::Clamped(clip.volume) });
    r.push(ObsCommand::Play { source: sfx.clone(), file });
    r.push(ObsCommand::Wait { millis: policy.attack_ms });
    let ducked = policy.target_volume(config.bard.volume, 1);
    r.push(ObsCommand::SetVolume { source: bgm.clone(), volume: ducked });
    r.push(ObsCommand::SetFilterEnabled { source: bgm.clone(), filter: filter.clone(), enabled: true });
    r.push(ObsCommand::Wait { millis: policy.release_ms });
    r.push(ObsCommand::SetVolume { source: bgm.clone(), volume: Volume::Exact(config.bard.volume) });
    r.push(ObsCommand::SetFilterEnabled { source: bgm.clone(), filter: filter.clone(), enabled: false });
    assert(commands_view(r@) =~= sound_effect_plan(*config, *clip, file@));
    r
}

/// The commands that play the music track `file`.
pub fn bard_track_commands(config: &AppConfig, file: String) -> (r: Vec<ObsCommand>)
    ensures
        commands_view(r@) == bard_track_plan(*config, file@),
{
    let bgm = &config.obs.bgm_source;
    let mut r: Vec<ObsCommand> = Vec::new();
    r.push(ObsCommand::SetVolume { source: bgm.clone(), volume: Volume::Exact(config.bard.volume) });
    r.push(ObsCommand::Play { source: bgm.clone(), file });
    assert(commands_view(r@) =~= bard_track_plan(*config, file@));
    r
}

/// Plays a sound effect and lowers the music meanwhile.
pub struct PlaySoundEffect<'a> {
    pub config: &'a AppConfig,
}

impl<'a> PlaySoundEffect<'a> {
    /// The commands that play the effect with id `clip_id`, found in the
    /// effects folder.
    pub fn execute(&self, clip_id: &str) -> (r: Result<Vec<ObsCommand>, UseCaseError>)
        ensures
            no_clip(self.config.soundpad.clips@, clip_id@) ==> r matches Err(UseCaseError::ClipNotFound),
            forall|i: int| is_first_clip(self.config.soundpad.clips@, clip_id@, i) ==> match r {
                Ok(cmds) => exists|file: Seq<char>| #![trigger sound_effect_plan(*self.config, self.config.soundpad.clips@[i], file)]
                    commands_view(cmds@) == sound_effect_plan(*self.config, self.config.soundpad.clips@[i], file)
                    && file_in(self.config.soundpad.sfx_dir@, self.config.soundpad.clips@[i].filename@, file),
                Err(e) => e is InvalidPath && !join_owed(self.config.soundpad.sfx_dir@, self.config.soundpad.clips@[i].filename@),
            },
    {
        let i = match find_clip(&self.config.soundpad.clips, clip_id) {
            Some(i) => i,
            None => return Err(UseCaseError::ClipNotFound),
        };
        let clip = &self.config.soundpad.clips[i];
        proof {
            assert forall|j: int| is_first_clip(self.config.soundpad.clips@, clip_id@, j) implies j == i by {
                if j < i {
                    assert(self.config.soundpad.clips@[j].id@ != clip_id@);
                } else if j > i {
                    assert(self.config.soundpad.clips@[i as int].id@ != clip_id@);
                }
            }
        }
        let file = match join_path(self.config.soundpad.sfx_dir.as_str(), clip.filename.as_str()) {
            Some(f) => f,
            None => return Err(UseCaseError::InvalidPath),
        };
        let ghost fv = file@;
        let cmds = sound_effect_commands(self.config, clip, file);
        assert(commands_view(cmds@) == sound_effect_plan(*self.config, self.config.soundpad.clips@[i as int], fv));
        Ok(cmds)
    }
}

/// Starts the music with a track of the music folder.
pub struct ActivateBard<'a> {
    pub config: &'a AppConfig,
}

impl<'a> ActivateBard<'a> {
    /// The commands that play `music_file` of the music folder.
    pub fn execute(&self, music_file: &str) -> (r: Result<Vec<ObsCommand>, UseCaseError>)
        ensures
            track_result(*self.config, music_file@, r),
    {
        match join_path(self.config.bard.music_dir.as_str(), music_file) {
            Some(f) => {
                let ghost fv = f@;
                let cmds = bard_track_commands(self.config, f);
                assert(commands_view(cmds@) == bard_track_plan(*self.config, fv));
                Ok(cmds)
            },
            None => Err(UseCaseError::InvalidPath),
        }
    }
}

/// Moves the music on to another track of the music folder, with the
/// settings as last saved.
pub struct SkipBardTrack<'a, C: ConfigRepository + ?Sized> {
    pub config: &'a C,
}

impl<'a, C: ConfigRepository + ?Sized> SkipBardTrack<'a, C> {
    /// The commands that play `next_file` of the music folder, under the
    /// settings that the repository gives: what `ActivateBard` gives for
    /// those settings.
    pub fn execute(&self, next_file: &str) -> (r: Result<Vec<ObsCommand>, UseCaseError>)
        ensures
            r matches Err(UseCaseError::ConfigUnavailable(_))
                || exists|config: AppConfig| #[trigger] track_result(config, next_file@, r),
    {
        let config = match self.config.load() {
            Ok(c) => c,
            Err(e) => return Err(UseCaseError::ConfigUnavailable(e)),
        };
        let r = ActivateBard { config: &config }.execute(next_file);
        assert(track_result(config, next_file@, r));
        r
    }
}

/// Silences the music.
pub struct PauseBard<'a> {
    pub config: &'a AppConfig,
}

impl<'a> PauseBard<'a> {
    /// The command that mutes the music source.
    pub fn execute(&self) -> (r: Vec<ObsCommand>)
        ensures
            commands_view(r@) == seq![Command::SetVolume(self.config.obs.bgm_source@, Volume::Mute)],
    {
        let mut r: Vec<ObsCommand> = Vec::new();
        r.push(ObsCommand::SetVolume { source: self.config.obs.bgm_source.clone(), volume: Volume::Mute });
        assert(commands_view(r@) =~= seq![Command::SetVolume(self.config.obs.bgm_source@, Volume::Mute)]);
        r
    }
}

/// An effect leaves the music as it found it: the last commands of an
/// effect put the music back at its own volume and switch the ducking
/// filter off, and in between the music is lowered by the ducking ratio
/// with the filter on.
pub proof fn lemma_sound_effect_restores_music(config: AppConfig, clip: SoundpadClip, file: Seq<char>)
    ensures
        ({
            let plan = sound_effect_plan(config, clip, file);
            &&& plan.len() == 8
            &&& plan[3] == Command::SetVolume(config.obs.bgm_source@, Volume::Ducked { base: config.bard.volume, ratio: config.bard.ducking.duck_ratio })
            &&& plan[4] == Command::SetFilterEnabled(config.obs.bgm_source@, config.obs.ducking_filter@, true)
            &&& plan[6] == Command::SetVolume(config.obs.bgm_source@, Volume::Exact(config.bard.volume))
            &&& plan.last() == Command::SetFilterEnabled(config.obs.bgm_source@, config.obs.ducking_filter@, false)
        }),
{
}

/// An effect plays as the settings say: first the effect's own volume and
/// file on the effects source, then a wait of the configured attack time
/// before the music is lowered, and a wait of the configured release time
/// before it is restored; the waits follow whatever the ducking settings
/// hold.
pub proof fn lemma_sound_effect_follows_the_settings(config: AppConfig, clip: SoundpadClip, file: Seq<char>)
    ensures
        ({
            let plan = sound_effect_plan(config, clip, file);
            &&& plan[0] == Command::SetVolume(config.obs.sfx_source@, Volume::Clamped(clip.volume))
            &&& plan[1] == Command::Play(config.obs.sfx_source@, file)
            &&& plan[2] == Command::Wait(config.bard.ducking.attack_ms)
            &&& plan[5] == Command::Wait(config.bard.ducking.release_ms)
        }),
        forall|c2: AppConfig| #![trigger sound_effect_plan(c2, clip, file)]
            c2.bard.ducking.attack_ms != config.bard.ducking.attack_ms
            ==> sound_effect_plan(c2, clip, file)[2] != sound_effect_plan(config, clip, file)[2],
        forall|c2: AppConfig| #![trigger sound_effect_plan(c2, clip, file)]
            c2.bard.ducking.release_ms != config.bard.ducking.release_ms
            ==> sound_effect_plan(c2, clip, file)[5] != sound_effect_plan(config, clip, file)[5],
{
}

} // verus!
