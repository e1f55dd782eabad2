use soundpad_bard::bard::{AudioChannel, BardState};
use soundpad_bard::bard::BardState::{Ducked, Idle, Paused, Playing};

#[test]
fn allowed_transitions_follow_the_table() {
    let all = [Idle, Playing, Ducked, Paused];
    let allowed = [
        (Idle, Playing),
        (Playing, Ducked),
        (Playing, Paused),
        (Playing, Idle),
        (Ducked, Playing),
        (Ducked, Paused),
        (Ducked, Idle),
        (Paused, Playing),
        (Paused, Idle),
    ];
    for from in all {
        for to in all {
            assert_eq!(from.can_transition_to(to), allowed.contains(&(from, to)), "{:?} -> {:?}", from, to);
        }
    }
}

#[test]
fn no_state_moves_to_itself() {
    for s in [BardState::Idle, BardState::Playing, BardState::Ducked, BardState::Paused] {
        assert!(!s.can_transition_to(s));
    }
}

#[test]
fn labels() {
    assert_eq!(BardState::Idle.label(), "Inativo");
    assert_eq!(BardState::Playing.label(), "Tocando");
    assert_eq!(BardState::Ducked.label(), "Ducked");
    assert_eq!(BardState::Paused.label(), "Pausado");
    assert_eq!(AudioChannel::Bgm.label(), "BGM");
    assert_eq!(AudioChannel::Sfx.label(), "SFX");
}
