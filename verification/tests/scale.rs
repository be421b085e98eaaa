//! Scales and transposition within a key.

use tang::scale::{scale_at, ScaleSetting};

#[test]
fn parse_round_trip() {
    let s = ScaleSetting { root: 0, scale_idx: 0 };
    assert_eq!(ScaleSetting::parse(&s.short()).map(|p| (p.root, p.scale_idx)), Some((0, 0)));
    let s = ScaleSetting { root: 6, scale_idx: 4 };
    let parsed = ScaleSetting::parse(&s.short()).unwrap();
    assert_eq!(parsed.root, 6);
    assert_eq!(parsed.scale_idx, 4);
}

#[test]
fn parse_flats() {
    let p = ScaleSetting::parse("Bb minor").unwrap();
    assert_eq!(p.root, 10);
    assert_eq!(scale_at(p.scale_idx).short, "minor");
}

#[test]
fn parse_long_form() {
    let p = ScaleSetting::parse("F# Natural Minor").unwrap();
    assert_eq!(p.root, 6);
    assert_eq!(scale_at(p.scale_idx).short, "minor");
}

#[test]
fn contains_and_root() {
    let s = ScaleSetting { root: 0, scale_idx: 0 };
    assert!(s.contains(60));
    assert!(s.contains(62));
    assert!(!s.contains(61));
    assert!(s.is_root(60));
    assert!(s.is_root(72));
    assert!(!s.is_root(61));
}

#[test]
fn degree() {
    let s = ScaleSetting { root: 0, scale_idx: 0 };
    assert_eq!(s.degree(60), Some("1"));
    assert_eq!(s.degree(64), Some("3"));
    assert_eq!(s.degree(67), Some("5"));
    assert_eq!(s.degree(61), None);
}

#[test]
fn index_round_trip() {
    let s = ScaleSetting { root: 9, scale_idx: 1 };
    for note in 0..=127u8 {
        let (index, offset) = s.index_of(note);
        assert_eq!(s.note_at(index, offset), note as i32);
    }
}

#[test]
fn in_key_triad_qualities() {
    let s = ScaleSetting { root: 0, scale_idx: 0 };
    let triad = [60u8, 64, 67];
    let on = |trigger: u8| -> Vec<u8> {
        triad.iter().map(|&n| s.transpose_in_key(n, 60, trigger)).collect()
    };
    assert_eq!(on(60), vec![60, 64, 67]);
    assert_eq!(on(62), vec![62, 65, 69]);
    assert_eq!(on(64), vec![64, 67, 71]);
    assert_eq!(on(65), vec![65, 69, 72]);
    assert_eq!(on(67), vec![67, 71, 74]);
    assert_eq!(on(69), vec![69, 72, 76]);
    assert_eq!(on(71), vec![71, 74, 77]);
    assert_eq!(on(72), vec![72, 76, 79]);
    assert_eq!(on(48), vec![48, 52, 55]);
}

#[test]
fn in_key_off_scale_notes_keep_offset() {
    let s = ScaleSetting { root: 0, scale_idx: 0 };
    assert_eq!(s.transpose_in_key(63, 60, 62), 65);
    assert_eq!(s.transpose_in_key(64, 60, 61), 64);
}

#[test]
fn in_key_chromatic_scale_is_semitone_shift() {
    let s = ScaleSetting { root: 0, scale_idx: 14 };
    assert_eq!(scale_at(14).short, "chromatic");
    for &(note, from, to) in &[(60u8, 60u8, 63u8), (64, 60, 61), (67, 62, 59)] {
        let expected = (note as i32 + to as i32 - from as i32).clamp(0, 127) as u8;
        assert_eq!(s.transpose_in_key(note, from, to), expected);
    }
}

#[test]
fn in_key_pentatonic() {
    let s = ScaleSetting { root: 0, scale_idx: 9 };
    assert_eq!(scale_at(9).short, "maj pent");
    assert_eq!(s.transpose_in_key(60, 60, 62), 62);
    assert_eq!(s.transpose_in_key(64, 60, 62), 67);
    assert_eq!(s.transpose_in_key(67, 60, 62), 69);
    assert_eq!(s.transpose_in_key(69, 60, 62), 72);
}

#[test]
fn every_setting_reads_back() {
    for root in 0..12u8 {
        for scale_idx in 0..15usize {
            let s = ScaleSetting { root, scale_idx };
            let short = ScaleSetting::parse(&s.short()).unwrap();
            assert_eq!((short.root, short.scale_idx), (root, scale_idx));
            let long = ScaleSetting::parse(&s.display()).unwrap();
            assert_eq!((long.root, long.scale_idx), (root, scale_idx));
        }
    }
}

#[test]
fn nonsense_is_no_scale() {
    assert!(ScaleSetting::parse("").is_none());
    assert!(ScaleSetting::parse("H major").is_none());
    assert!(ScaleSetting::parse("C").is_none());
    assert!(ScaleSetting::parse("C nothing").is_none());
    let p = ScaleSetting::parse("  d DORIAN ").unwrap();
    assert_eq!(p.root, 2);
    assert_eq!(p.display(), "D Dorian");
}

#[test]
fn an_octave_trigger_moves_an_octave() {
    let s = ScaleSetting { root: 7, scale_idx: 3 };
    for note in 24..100u8 {
        assert_eq!(s.transpose_in_key(note, 60, 72), note + 12);
        assert_eq!(s.transpose_in_key(note, 60, 60), note);
    }
}

#[test]
fn transposition_stops_at_the_ends() {
    let s = ScaleSetting::default();
    assert_eq!(s.transpose_in_key(127, 0, 127), 127);
    assert_eq!(s.transpose_in_key(0, 127, 0), 0);
}

#[test]
fn names_read_back_in_any_case() {
    for root in 0..12 {
        for scale_idx in 0..15 {
            let setting = ScaleSetting { root, scale_idx };
            for name in [setting.short(), setting.display()] {
                for text in [name.to_ascii_uppercase(), name.to_ascii_lowercase()] {
                    let read = ScaleSetting::parse(&text).unwrap();
                    assert_eq!((read.root, read.scale_idx), (root, scale_idx));
                }
            }
        }
    }
    assert!(ScaleSetting::parse("H MAJOR").is_none());
}
