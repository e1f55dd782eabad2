use soundpad_bard::config::{default_config, Level};
use soundpad_bard::ducking::DuckingPolicy;
use soundpad_bard::use_cases::Volume;

fn level(v: f32) -> Level {
    Level { bits: v.to_bits() }
}

fn value(v: Volume) -> f32 {
    match v {
        Volume::Exact(l) => f32::from_bits(l.bits),
        Volume::Ducked { base, ratio } => f32::from_bits(base.bits) * f32::from_bits(ratio.bits),
        other => panic!("unexpected volume {:?}", other),
    }
}

#[test]
fn duck_reduces_proportionally() {
    let policy = DuckingPolicy::default();
    assert_eq!(value(policy.target_volume(level(0.30), 1)), 0.075);
}

#[test]
fn no_sfx_keeps_base_volume() {
    let policy = DuckingPolicy::default();
    assert_eq!(value(policy.target_volume(level(0.30), 0)), 0.30);
}

#[test]
fn multiple_sfx_still_ducked_once() {
    let policy = DuckingPolicy::default();
    assert_eq!(policy.target_volume(level(0.30), 3), policy.target_volume(level(0.30), 1));
}

#[test]
fn default_policy_is_a_quarter() {
    let policy = DuckingPolicy::default();
    assert_eq!(policy.duck_ratio, level(0.25));
    assert_eq!(policy.attack_ms, 100);
    assert_eq!(policy.release_ms, 900);
}

#[test]
fn ducked_volume_carries_base_and_ratio() {
    let policy = DuckingPolicy { duck_ratio: level(0.5), attack_ms: 1, release_ms: 2 };
    assert_eq!(
        policy.target_volume(level(0.8), 2),
        Volume::Ducked { base: level(0.8), ratio: level(0.5) }
    );
    assert_eq!(policy.target_volume(level(0.8), 0), Volume::Exact(level(0.8)));
}

#[test]
fn policy_from_settings() {
    let c = default_config("sfx".to_string(), "music".to_string());
    let policy = DuckingPolicy::from_config(&c.bard.ducking);
    assert_eq!(policy.duck_ratio, c.bard.ducking.duck_ratio);
    assert_eq!(policy.attack_ms, 100);
    assert_eq!(policy.release_ms, 900);
}
