//! The background-music player's state machine, and the two audio channels.

use vstd::prelude::*;

verus! {

/// Where a sound plays: `Bgm` is the background music, `Sfx` the sound
/// effects. The music is lowered while effects play on the other channel.
#[derive(Debug, Clone, Copy, PartialEq, Eq, Structural)]
pub enum AudioChannel {
    Bgm,
    Sfx,
}

impl AudioChannel {
    /// The channel's short name, `BGM` or `SFX`.
    pub fn label(&self) -> (r: &'static str)
        ensures
            r@ == (match *self {
                AudioChannel::Bgm => "BGM"@,
                AudioChannel::Sfx => "SFX"@,
            }),
    {
        match self {
            AudioChannel::Bgm => "BGM",
            AudioChannel::Sfx => "SFX",
        }
    }
}

/// What the background music is doing. Lowering the music for an effect
/// (`Ducked`) is a state of its own, left again for `Playing`.
#[derive(Debug, Clone, Copy, PartialEq, Eq, Structural)]
pub enum BardState {
    Idle,
    Playing,
    /// Playing, lowered because effects play on the other channel.
    Ducked,
    Paused,
}

/// The allowed moves between states.
pub open spec fn transition_allowed(from: BardState, to: BardState) -> bool {
    match (from, to) {
        (BardState::Idle, BardState::Playing) => true,
        (BardState::Playing, BardState::Ducked) => true,
        (BardState::Playing, BardState::Paused) => true,
        (BardState::Playing, BardState::Idle) => true,
        (BardState::Ducked, BardState::Playing) => true,
        (BardState::Ducked, BardState::Paused) => true,
        (BardState::Ducked, BardState::Idle) => true,
        (BardState::Paused, BardState::Playing) => true,
        (BardState::Paused, BardState::Idle) => true,
        _ => false,
    }
}

/// The music is audible in this state.
pub open spec fn is_active(s: BardState) -> bool {
    s == BardState::Playing || s == BardState::Ducked
}

impl BardState {
    /// Whether the player may move from this state to `next`.
    pub fn can_transition_to(&self, next: BardState) -> (r: bool)
        ensures
            r == transition_allowed(*self, next),
    {
        match (*self, next) {
            (BardState::Idle, BardState::Playing) => true,
            (BardState::Playing, BardState::Ducked) => true,
            (BardState::Playing, BardState::Paused) => true,
            (BardState::Playing, BardState::Idle) => true,
            (BardState::Ducked, BardState::Playing) => true,
            (BardState::Ducked, BardState::Paused) => true,
            (BardState::Ducked, BardState::Idle) => true,
            (BardState::Paused, BardState::Playing) => true,
            (BardState::Paused, BardState::Idle) => true,
            _ => false,
        }
    }

    /// The state's name as the user sees it.
    pub fn label(&self) -> (r: &'static str)
        ensures
            r@ == (match *self {
                BardState::Idle => "Inativo"@,
                BardState::Playing => "Tocando"@,
                BardState::Ducked => "Ducked"@,
                BardState::Paused => "Pausado"@,
            }),
    {
        match self {
            BardState::Idle => "Inativo",
            BardState::Playing => "Tocando",
            BardState::Ducked => "Ducked",
            BardState::Paused => "Pausado",
        }
    }
}

/// No state moves to itself: every allowed move changes the state.
pub proof fn lemma_no_self_transition(s: BardState)
    ensures
        !transition_allowed(s, s),
{
}

/// Lowering the music only happens while it plays, and lowered music only
/// comes back up to `Playing`, pauses or stops: it never starts from `Idle`
/// or `Paused`.
pub proof fn lemma_ducking_only_from_playing(s: BardState)
    ensures
        transition_allowed(s, BardState::Ducked) <==> s == BardState::Playing,
        transition_allowed(BardState::Ducked, s) <==> (s == BardState::Playing || s == BardState::Paused || s == BardState::Idle),
{
}

/// From `Idle` the only move is to start playing, and every other state can
/// stop.
pub proof fn lemma_idle_moves(s: BardState)
    ensures
        transition_allowed(BardState::Idle, s) <==> s == BardState::Playing,
        s != BardState::Idle ==> transition_allowed(s, BardState::Idle),
{
}

} // verus!
