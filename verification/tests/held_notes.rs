//! The set of held notes.

use tang::held_notes::HeldNotes;

#[test]
fn on_off() {
    let mut h = HeldNotes::new();
    assert!(!h.is_held(60));
    h.note_on(60);
    assert!(h.is_held(60));
    h.note_on(72);
    assert_eq!(h.held(), vec![60, 72]);
    h.note_off(60);
    assert!(!h.is_held(60));
    assert_eq!(h.held(), vec![72]);
}

#[test]
fn high_range() {
    let mut h = HeldNotes::new();
    h.note_on(100);
    h.note_on(127);
    assert!(h.is_held(100));
    assert!(h.is_held(127));
    assert_eq!(h.count(), 2);
}

#[test]
fn out_of_range() {
    let mut h = HeldNotes::new();
    h.note_on(200);
    assert_eq!(h.count(), 0);
}

#[test]
fn notes_find_their_bits() {
    assert_eq!(HeldNotes::bit_of(0), Some((0, 1)));
    assert_eq!(HeldNotes::bit_of(63), Some((0, 1u64 << 63)));
    assert_eq!(HeldNotes::bit_of(64), Some((1, 1)));
    assert_eq!(HeldNotes::bit_of(127), Some((1, 1u64 << 63)));
    assert_eq!(HeldNotes::bit_of(128), None);
}

#[test]
fn releasing_what_was_pressed_leaves_the_rest() {
    let mut h = HeldNotes::default();
    h.note_on(3);
    h.note_on(90);
    h.note_off(90);
    assert_eq!(h.held(), vec![3]);
    h.note_off(90);
    h.note_off(250);
    assert_eq!(h.held(), vec![3]);
}
