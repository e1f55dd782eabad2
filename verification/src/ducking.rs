//! The ducking rule: how loud the music is while sound effects play.

use vstd::prelude::*;
use crate::config::{DuckingConfig, Level, DEFAULT_DUCK_RATIO_BITS};
use crate::use_cases::Volume;

verus! {

/// How far and how fast the music is lowered under effects. The lowered
/// volume is a share of the music's own volume, so that it follows changes
/// of that volume.
#[derive(Debug, Clone, Copy)]
pub struct DuckingPolicy {
    /// Share of the music's volume kept while lowered.
    pub duck_ratio: Level,
    pub attack_ms: u32,
    pub release_ms: u32,
}

/// The music's volume, from its base volume `base`, while
/// `active_sfx_count` effects play: lowered by `ratio` while any plays, the
/// base volume otherwise.
pub open spec fn target_volume_spec(ratio: Level, base: Level, active_sfx_count: u32) -> Volume {
    if active_sfx_count > 0 {
        Volume::Ducked { base, ratio }
    } else {
        Volume::Exact(base)
    }
}

impl DuckingPolicy {
    /// The policy that the ducking settings describe.
    pub fn from_config(c: &DuckingConfig) -> (r: DuckingPolicy)
        ensures
            r.duck_ratio == c.duck_ratio,
            r.attack_ms == c.attack_ms,
            r.release_ms == c.release_ms,
    {
        DuckingPolicy { duck_ratio: c.duck_ratio, attack_ms: c.attack_ms, release_ms: c.release_ms }
    }

    /// The music's volume, from its base volume, while `active_sfx_count`
    /// effects play.
    pub fn target_volume(&self, bgm_base_volume: Level, active_sfx_count: u32) -> (r: Volume)
        ensures
            r == target_volume_spec(self.duck_ratio, bgm_base_volume, active_sfx_count),
    {
        if active_sfx_count > 0 {
            Volume::Ducked { base: bgm_base_volume, ratio: self.duck_ratio }
        } else {
            Volume::Exact(bgm_base_volume)
        }
    }
}

impl Default for DuckingPolicy {
    /// A quarter of the music's volume, 100 ms attack, 900 ms release.
    fn default() -> (r: Self)
        ensures
            r.duck_ratio.bits == DEFAULT_DUCK_RATIO_BITS,
            r.attack_ms == 100,
            r.release_ms == 900,
    {
        DuckingPolicy { duck_ratio: Level { bits: DEFAULT_DUCK_RATIO_BITS }, attack_ms: 100, release_ms: 900 }
    }
}

/// The music is lowered once, however many effects play: any number of
/// effects gives the volume that one gives, and with none the music keeps
/// its base volume.
pub proof fn lemma_ducked_once(ratio: Level, base: Level, active_sfx_count: u32)
    ensures
        active_sfx_count > 0 ==> target_volume_spec(ratio, base, active_sfx_count) == target_volume_spec(ratio, base, 1),
        target_volume_spec(ratio, base, 0) == Volume::Exact(base),
{
}

} // verus!
