//! Recording and playing patterns.

use tang::pattern::{Pattern, PatternEvent, PatternPlayer, PlayerDefaults};

fn player() -> PatternPlayer<i32> {
    PatternPlayer::new(PlayerDefaults { sample_rate: 48000, length_beats: 4, bpm: 120, zero: 0 })
}

fn on(frame: u64, note: u8) -> PatternEvent {
    PatternEvent { frame, status: 0x90, note, velocity: 90 }
}

fn off(frame: u64, note: u8) -> PatternEvent {
    PatternEvent { frame, status: 0x80, note, velocity: 0 }
}

fn playing(looping: bool) -> PatternPlayer<i32> {
    let mut p = player();
    p.load(Pattern { events: vec![on(0, 60), off(50, 60)], length_samples: 100 }, Some(60));
    p.enabled = true;
    p.looping = looping;
    p
}

#[test]
fn a_player_without_a_pattern_lets_everything_through() {
    let mut p = player();
    let events = vec![(0u64, [0x90u8, 60, 100]), (3, [0xB0, 7, 1])];
    assert!(p.process(&events, 64, 1000).is_none());
    assert_eq!(p.output_events, events);
}

#[test]
fn recording_lets_everything_through_and_ends_by_itself() {
    let mut p = player();
    p.listening = true;
    p.start_count_in(1, 2, 10, 0);
    assert!(p.metronome_active());
    let events = vec![(0u64, [0x90u8, 62, 100])];
    assert!(p.process(&[], 40, 30).is_none());
    assert!(p.recording);
    assert!(p.process(&events, 20, 30).is_none());
    assert_eq!(p.output_events, events);
    let note = p.process(&[(5, [0x80, 62, 0])], 20, 30).unwrap();
    assert_eq!((note.kb, note.split), (1, 2));
    assert_eq!(note.base_note, Some(62));
    assert_eq!(note.events, vec![(0, 0x90, 62, 100), (25, 0x80, 62, 0)]);
    assert!(!p.metronome_active());
    assert_eq!(p.pattern.length_samples, 30);
}

#[test]
fn the_base_note_is_the_first() {
    let mut p = player();
    p.listening = true;
    p.start_count_in(0, 0, 1, 0);
    p.process(&[], 4, 100);
    p.process(&[(0, [0x90, 67, 1]), (1, [0x90, 60, 1]), (2, [0x90, 64, 1])], 10, 100);
    let note = p.stop_recording(100).unwrap();
    assert_eq!(note.base_note, Some(67));
    assert_eq!(p.base_note, Some(67));
    assert!(p.enabled);
    // A note-off alone gives no base note.
    p.start_count_in(0, 0, 1, 0);
    p.process(&[], 4, 100);
    p.process(&[(0, [0x80, 67, 0])], 10, 100);
    assert_eq!(p.stop_recording(100).unwrap().base_note, None);
}

#[test]
fn playing_follows_the_key() {
    let mut p = playing(true);
    p.process(&[(0, [0x90, 64, 100])], 60, 100);
    assert!(p.output_events.contains(&(0, [0x90, 64, 90])));
    assert!(p.output_events.iter().any(|e| e.1[0] == 0x80 && e.1[1] == 64));
    assert!(p.active_voices.is_empty());
}

#[test]
fn a_loop_starts_over_and_a_single_run_ends() {
    let mut p = playing(true);
    p.process(&[(0, [0x90, 60, 100])], 100, 100);
    p.process(&[], 100, 100);
    assert!(p.output_events.iter().any(|e| e.1[0] == 0x90));
    let mut p = playing(false);
    p.process(&[(0, [0x90, 60, 100])], 100, 100);
    p.process(&[], 100, 100);
    p.process(&[], 100, 100);
    assert!(p.output_events.is_empty());
    assert!(p.active_voices.is_empty());
}

#[test]
fn releasing_the_last_key_silences_the_pattern() {
    let mut p = playing(true);
    p.process(&[(0, [0x90, 60, 100])], 20, 100);
    assert_eq!(p.active_voices.len(), 1);
    p.process(&[(3, [0x80, 60, 0])], 20, 100);
    assert!(p.output_events.iter().any(|e| e.1[0] & 0xF0 == 0x80 && e.1[1] == 60));
    assert!(p.active_voices.is_empty());
}

#[test]
fn clearing_and_retuning() {
    let mut a = playing(true);
    let b = playing(false);
    let tune = a.copy_tune();
    a.clear();
    assert!(a.pattern.events.is_empty());
    assert!(a.base_note.is_none());
    a.retune(tune);
    assert_eq!(a.pattern.events, b.pattern.events);
    assert_eq!(a.base_note, Some(60));
}

#[test]
fn the_metronome_accents_each_bar() {
    let mut p = player();
    p.start_count_in(0, 0, 10, 0);
    let first = p.tick(0, 3);
    assert!(first.restart && first.downbeat && first.sounding);
    assert_eq!(first.remaining, 3);
    assert!(!p.tick(1, 3).restart);
    let second = p.tick(10, 3);
    assert!(second.restart && !second.downbeat);
    p.end_ticks(40);
    assert_eq!(p.metronome_pos, 40);
    assert!(p.tick(0, 3).downbeat);
}
