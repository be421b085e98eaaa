//! Modulators and the links between them.

use tang::modulation::LfoWaveform;

#[test]
fn lfo_waveform_cycle() {
    assert_eq!(LfoWaveform::Sine.next(), LfoWaveform::Triangle);
    assert_eq!(LfoWaveform::Triangle.next(), LfoWaveform::Saw);
    assert_eq!(LfoWaveform::Saw.next(), LfoWaveform::Square);
    assert_eq!(LfoWaveform::Square.next(), LfoWaveform::Sine);
}

#[test]
fn lfo_waveform_from_str() {
    assert_eq!(LfoWaveform::from_str("sine"), Some(LfoWaveform::Sine));
    assert_eq!(LfoWaveform::from_str("TRIANGLE"), Some(LfoWaveform::Triangle));
    assert_eq!(LfoWaveform::from_str("tri"), Some(LfoWaveform::Triangle));
    assert_eq!(LfoWaveform::from_str("saw"), Some(LfoWaveform::Saw));
    assert_eq!(LfoWaveform::from_str("square"), Some(LfoWaveform::Square));
    assert_eq!(LfoWaveform::from_str("unknown"), None);
}

use tang::modulation::{
    adjust_cross_mod_index, apply_cross_mod, cross_mod_index, cross_mod_routes, fixup_cross_mod_after_remove,
    update_cross_mod_base, update_param_base, CrossModField, EnvState, ModSource, ModTarget, ModTargetKind, Modulator,
};

fn lfo() -> Modulator<i32> {
    Modulator::new(ModSource::Lfo { waveform: LfoWaveform::Sine, rate: 1, phase: 0 }, 48000, 0)
}

fn envelope() -> Modulator<i32> {
    Modulator::new(
        ModSource::Envelope {
            attack: 1,
            decay: 2,
            sustain: 3,
            release: 4,
            state: EnvState::Idle,
            level: 0,
            notes_held: 0,
        },
        48000,
        0,
    )
}

fn target(kind: ModTargetKind) -> ModTarget<i32> {
    ModTarget { kind, depth: 5, base_value: 6, param_min: 0, param_max: 9 }
}

fn gate_of(m: &Modulator<i32>) -> (EnvState, u32) {
    match m.source {
        ModSource::Envelope { state, notes_held, .. } => (state, notes_held),
        _ => panic!("no envelope"),
    }
}

#[test]
fn waveforms_go_round() {
    for w in [LfoWaveform::Sine, LfoWaveform::Triangle, LfoWaveform::Saw, LfoWaveform::Square] {
        assert_eq!(w.next().prev(), w);
        assert_eq!(w.prev().next(), w);
        assert_eq!(LfoWaveform::from_str(w.name()), Some(w));
    }
    assert_eq!(LfoWaveform::from_str("Sawtooth"), Some(LfoWaveform::Saw));
    assert_eq!(LfoWaveform::from_str("SQ"), Some(LfoWaveform::Square));
    assert_eq!(LfoWaveform::Square.to_index(), 3);
}

#[test]
fn removing_a_modulator_repairs_the_wiring() {
    let mut mods = vec![lfo(), lfo()];
    mods[0].targets.push(target(ModTargetKind::ModulatorRate { mod_index: 1 }));
    mods[0].targets.push(target(ModTargetKind::ModulatorDepth { mod_index: 2, target_index: 7 }));
    mods[1].targets.push(target(ModTargetKind::PluginParam { param_index: 1 }));
    mods[1].targets.push(target(ModTargetKind::ModulatorAttack { mod_index: 0 }));
    fixup_cross_mod_after_remove(&mut mods, 1);
    let kinds: Vec<_> = mods[0].targets.iter().map(|t| t.kind).collect();
    assert_eq!(kinds, vec![ModTargetKind::ModulatorDepth { mod_index: 1, target_index: 7 }]);
    let kinds: Vec<_> = mods[1].targets.iter().map(|t| t.kind).collect();
    assert_eq!(
        kinds,
        vec![ModTargetKind::PluginParam { param_index: 1 }, ModTargetKind::ModulatorAttack { mod_index: 0 }]
    );
}

#[test]
fn sibling_indices_are_lowered_above_the_removed_one() {
    let mut kind = ModTargetKind::ModulatorSustain { mod_index: 4 };
    adjust_cross_mod_index(&mut kind, 4);
    assert_eq!(cross_mod_index(&kind), Some(4));
    adjust_cross_mod_index(&mut kind, 3);
    assert_eq!(cross_mod_index(&kind), Some(3));
    assert_eq!(cross_mod_index(&ModTargetKind::PluginParam { param_index: 4 }), None);
}

#[test]
fn a_modulator_does_not_drive_itself() {
    let mut mods = vec![lfo(), envelope()];
    mods[0].targets.push(target(ModTargetKind::ModulatorRate { mod_index: 0 }));
    mods[0].targets.push(target(ModTargetKind::ModulatorDecay { mod_index: 1 }));
    mods[1].targets.push(target(ModTargetKind::ModulatorRate { mod_index: 0 }));
    let routes = cross_mod_routes(&mods);
    assert_eq!(routes.len(), 2);
    assert_eq!((routes[0].source, routes[0].sibling), (0, 1));
    assert_eq!((routes[1].source, routes[1].sibling), (1, 0));
    apply_cross_mod(&mut mods, &routes, &vec![80, 90]);
    assert!(matches!(mods[0].source, ModSource::Lfo { rate: 90, .. }));
    assert!(matches!(mods[1].source, ModSource::Envelope { attack: 1, decay: 80, .. }));
}

#[test]
fn setting_a_value_moves_what_is_modulated_around() {
    let mut mods = vec![lfo(), lfo()];
    mods[1].targets.push(target(ModTargetKind::ModulatorRate { mod_index: 0 }));
    mods[1].targets.push(target(ModTargetKind::PluginParam { param_index: 3 }));
    update_cross_mod_base(&mut mods, 0, CrossModField::Rate, 44);
    update_param_base(&mut mods, 3, 55);
    update_param_base(&mut mods, 4, 66);
    assert_eq!(mods[1].targets[0].base_value, 44);
    assert_eq!(mods[1].targets[1].base_value, 55);
}

#[test]
fn envelopes_follow_the_held_notes() {
    let mut m = envelope();
    m.hear(&[(0, [0x90, 60, 100]), (1, [0x90, 64, 100])]);
    assert_eq!(gate_of(&m), (EnvState::Attack, 2));
    m.hear(&[(0, [0x80, 60, 0])]);
    assert_eq!(gate_of(&m), (EnvState::Attack, 1));
    m.hear(&[(0, [0x90, 64, 0]), (0, [0xB0, 1, 1])]);
    assert_eq!(gate_of(&m), (EnvState::Release, 0));
}

#[test]
fn envelopes_go_through_their_stages() {
    assert_eq!(EnvState::Attack.advance(false), EnvState::Attack);
    assert_eq!(EnvState::Attack.advance(true), EnvState::Decay);
    assert_eq!(EnvState::Decay.advance(true), EnvState::Sustain);
    assert_eq!(EnvState::Sustain.advance(true), EnvState::Sustain);
    assert_eq!(EnvState::Release.advance(true), EnvState::Idle);
    let mut m = envelope();
    m.hear(&[(0, [0x90, 60, 100])]);
    m.settle_envelope(7, true);
    assert_eq!(gate_of(&m).0, EnvState::Decay);
    assert_eq!(m.last_output, 7);
}
