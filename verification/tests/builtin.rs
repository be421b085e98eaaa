//! Builtin plugins.

use tang::builtin::{enumerate_plugins, BuiltinInfo};

fn reverb() -> BuiltinInfo {
    BuiltinInfo { name: "Reverb", id: "builtin:reverb", param_count: 4, preset_count: 0 }
}

#[test]
fn enumerate_lists_one_oscillator() {
    let plugins = enumerate_plugins(5, reverb());
    let oscs: Vec<_> = plugins.iter().filter(|p| p.is_instrument).collect();
    assert_eq!(oscs.len(), 1, "should enumerate a single oscillator");
    assert_eq!(oscs[0].id, "builtin:osc");
}

use tang::builtin::{builtin_kind, BuiltinKind, VoiceState, Voices, Waveform};

#[test]
fn builtin_names_are_told_apart() {
    assert_eq!(builtin_kind("builtin:osc"), Some(BuiltinKind::Oscillator(Waveform::Sine)));
    assert_eq!(builtin_kind("builtin:oscillator"), Some(BuiltinKind::Oscillator(Waveform::Sine)));
    assert_eq!(builtin_kind("builtin:sine"), Some(BuiltinKind::Oscillator(Waveform::Sine)));
    assert_eq!(builtin_kind("builtin:triangle"), Some(BuiltinKind::Oscillator(Waveform::Triangle)));
    assert_eq!(builtin_kind("square"), Some(BuiltinKind::Oscillator(Waveform::Square)));
    assert_eq!(builtin_kind("builtin:reverb"), Some(BuiltinKind::Reverb));
    assert_eq!(builtin_kind("builtin:filter"), Some(BuiltinKind::Filter));
    assert_eq!(builtin_kind("builtin:flute"), None);
}

#[test]
fn all_builtins_are_listed() {
    let plugins = enumerate_plugins(5, reverb());
    let ids: Vec<_> = plugins.iter().map(|p| p.id.as_str()).collect();
    assert_eq!(ids, vec!["builtin:osc", "builtin:reverb", "builtin:filter"]);
    assert_eq!(plugins[0].param_count, 5);
    assert_eq!(plugins[1].param_count, 4);
}

#[test]
fn a_note_has_one_voice() {
    let mut voices: Voices<i32> = Voices::new();
    voices.hear([0x90, 60, 100], 0);
    voices.hear([0x90, 64, 100], 0);
    voices.hear([0x90, 60, 100], 0);
    assert_eq!(voices.list.iter().filter(|v| v.note == 60).count(), 1);
    assert_eq!(voices.list.len(), 2);
    voices.hear([0x80, 60, 0], 0);
    assert!(voices.list.iter().any(|v| v.note == 60 && v.state == VoiceState::Release));
}

#[test]
fn events_are_heard_when_they_are_due() {
    let mut voices: Voices<i32> = Voices::new();
    let events = [(0u64, [0x90u8, 60, 100]), (5, [0x90, 62, 100]), (9, [0x90, 64, 100])];
    let next = voices.hear_due(&events, 0, 5, 0);
    assert_eq!(next, 2);
    assert_eq!(voices.list.len(), 2);
    let next = voices.hear_due(&events, next, 8, 0);
    assert_eq!(next, 2);
    voices.hear_due(&events, next, 9, 0);
    // Only a voice that was let go fades away.
    voices.drop_faded(&vec![false, true, false]);
    assert_eq!(voices.list.len(), 3);
    voices.hear([0x80, 62, 0], 0);
    voices.drop_faded(&vec![false, true, false]);
    let notes: Vec<_> = voices.list.iter().map(|v| v.note).collect();
    assert_eq!(notes, vec![60, 64]);
}
