//! Chord detection.

use tang::chord::{detect, two_note_interval};
use tang::scale::ScaleSetting;

fn note(n: u8) -> u8 {
    n
}

#[test]
fn detects_c_major() {
    let scale = ScaleSetting::default();
    let held = vec![note(60), note(64), note(67)];
    let matches = detect(&held, &scale);
    assert!(!matches.is_empty());
    assert_eq!(matches[0].display(), "C");
    assert_eq!(matches[0].roman.as_deref(), Some("I"));
}

#[test]
fn detects_a_minor_in_c_major() {
    let scale = ScaleSetting::default();
    let held = vec![note(57), note(60), note(64)];
    let matches = detect(&held, &scale);
    assert!(matches.iter().any(|m| m.display() == "Am"));
    let am = matches.iter().find(|m| m.display() == "Am").unwrap();
    assert_eq!(am.roman.as_deref(), Some("vi"));
}

#[test]
fn detects_g7_in_c_major() {
    let scale = ScaleSetting::default();
    let held = vec![note(55), note(59), note(62), note(65)];
    let matches = detect(&held, &scale);
    let g7 = matches.iter().find(|m| m.display() == "G7").unwrap();
    assert_eq!(g7.roman.as_deref(), Some("V7"));
}

#[test]
fn interval_two_notes() {
    let s = two_note_interval(&[60, 64]).unwrap();
    assert!(s.contains("M3"));
}

#[test]
fn few_notes_make_no_chord() {
    let scale = ScaleSetting::default();
    assert!(detect(&[], &scale).is_empty());
    assert!(detect(&[60], &scale).is_empty());
    assert!(two_note_interval(&[60]).is_none());
    assert!(two_note_interval(&[60, 64, 67]).is_none());
}

#[test]
fn numeral_is_missing_outside_the_scale() {
    let scale = ScaleSetting::default();
    // C# F G# sounds C#, whose root is no tone of C major.
    let matches = detect(&[61, 65, 68], &scale);
    let m = matches.iter().find(|m| m.display() == "C#").unwrap();
    assert!(m.roman.is_none());
}

#[test]
fn octaves_do_not_change_the_chord() {
    let scale = ScaleSetting::default();
    let near = detect(&[60, 64, 67], &scale);
    let far = detect(&[36, 64, 91], &scale);
    assert_eq!(near.len(), far.len());
    assert_eq!(near[0].display(), far[0].display());
}

#[test]
fn every_degree_of_the_scale_has_a_numeral() {
    let chromatic = ScaleSetting { root: 0, scale_idx: 14 };
    // B D# F#
    let matches = detect(&[59, 63, 66], &chromatic);
    let b = matches.iter().find(|m| m.display() == "B").unwrap();
    assert_eq!(b.roman.as_deref(), Some("XII"));
    // G A# D
    let matches = detect(&[55, 58, 62], &chromatic);
    let gm = matches.iter().find(|m| m.display() == "Gm").unwrap();
    assert_eq!(gm.roman.as_deref(), Some("viii"));
    let diminished = ScaleSetting { root: 0, scale_idx: 13 };
    for root in 0..12 {
        for m in detect(&[60 + root, 63 + root, 66 + root], &diminished) {
            assert_eq!(m.roman.is_some(), diminished.contains(m.root));
        }
    }
}
