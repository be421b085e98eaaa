//! The virtual piano and its filter.

use tang::piano::{KeyAction, VirtualPiano};
use tang::piano_filter::{PianoFilter, PianoMode};
use tang::scale::ScaleSetting;

#[test]
fn keys_play_notes() {
    let mut piano = VirtualPiano::new(true);
    assert_eq!(piano.handle_key_event('z', KeyAction::Press), Some((0, [0x90, 48, 100])));
    assert_eq!(piano.handle_key_event('q', KeyAction::Press), Some((0, [0x90, 60, 100])));
    assert_eq!(piano.handle_key_event('z', KeyAction::Release), Some((0, [0x80, 48, 0])));
    assert_eq!(piano.held_keys, vec!['q']);
}

#[test]
fn a_held_key_does_not_sound_twice() {
    let mut piano = VirtualPiano::new(true);
    assert!(piano.handle_key_event('x', KeyAction::Press).is_some());
    assert!(piano.handle_key_event('x', KeyAction::Press).is_none());
    assert!(piano.handle_key_event('x', KeyAction::Repeat).is_none());
}

#[test]
fn brackets_change_the_octave() {
    let mut piano = VirtualPiano::new(true);
    for _ in 0..20 {
        assert!(piano.handle_key_event(']', KeyAction::Press).is_none());
    }
    assert_eq!(piano.base_octave, 8);
    assert_eq!(piano.key_to_note('p'), Some(124));
    for _ in 0..20 {
        piano.handle_key_event('[', KeyAction::Press);
    }
    assert_eq!(piano.base_octave, 0);
    assert_eq!(piano.key_to_note('z'), Some(0));
    assert_eq!(piano.key_to_note('#'), None);
}

#[test]
fn a_disabled_piano_is_silent() {
    let mut piano = VirtualPiano::new(false);
    assert!(piano.handle_key_event('z', KeyAction::Press).is_none());
    assert!(piano.held_keys.is_empty());
}

#[test]
fn all_notes_off_releases_what_is_held() {
    let mut piano = VirtualPiano::new(true);
    piano.handle_key_event('z', KeyAction::Press);
    piano.handle_key_event('c', KeyAction::Press);
    let mut messages = piano.all_notes_off();
    messages.sort();
    assert_eq!(messages, vec![(0, [0x80, 48, 0]), (0, [0x80, 52, 0])]);
    assert!(piano.all_notes_off().is_empty());
}

#[test]
fn a_locked_filter_drops_notes_outside_the_scale() {
    let mut filter = PianoFilter::new(ScaleSetting::default(), PianoMode::Highlight);
    assert!(!filter.block_note_on(61));
    filter.set_mode(PianoMode::Locked);
    assert_eq!(filter.mode(), PianoMode::Locked);
    assert!(filter.block_note_on(61));
    assert!(!filter.block_note_on(60));
    filter.set_scale(ScaleSetting { root: 1, scale_idx: 0 });
    assert_eq!(filter.scale().root, 1);
    assert!(!filter.block_note_on(61));
    assert_eq!(PianoMode::Locked.label(), "Locked");
    assert_eq!(PianoMode::Highlight.label(), "Highlight");
}
