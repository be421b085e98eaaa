//! Note names and note ranges.

use tang::notes::{format_range, note_name, parse_note_name, parse_range, NoteFault, RangeError};

fn fault(name: &str) -> NoteFault {
    parse_note_name(name).unwrap_err().fault
}

#[test]
fn note_names_read_back() {
    for note in 0..=127u8 {
        assert_eq!(parse_note_name(&note_name(note)).unwrap(), note);
    }
    assert_eq!(note_name(60), "C4");
    assert_eq!(note_name(61), "C#4");
    assert_eq!(note_name(0), "C-1");
    assert_eq!(note_name(127), "G9");
}

#[test]
fn flats_and_small_letters_are_read() {
    assert_eq!(parse_note_name("Bb5").unwrap(), 82);
    assert_eq!(parse_note_name("c4").unwrap(), 60);
    assert_eq!(parse_note_name("Cb4").unwrap(), 59);
}

#[test]
fn bad_note_names_are_told_apart() {
    assert_eq!(fault(""), NoteFault::Empty);
    assert_eq!(fault("H4"), NoteFault::InvalidLetter);
    assert_eq!(fault("C"), NoteFault::InvalidOctave);
    assert_eq!(fault("C#x"), NoteFault::InvalidOctave);
    assert_eq!(fault("C4 "), NoteFault::InvalidOctave);
    assert_eq!(fault("A9"), NoteFault::OutOfRange);
    assert_eq!(fault("C-2"), NoteFault::OutOfRange);
}

#[test]
fn note_faults_have_messages() {
    assert_eq!(parse_note_name("").unwrap_err().message(), "empty note name");
    assert_eq!(parse_note_name("H4").unwrap_err().message(), "invalid note letter 'H'");
    assert_eq!(parse_note_name("Cx").unwrap_err().message(), "invalid octave in note name 'Cx'");
    assert_eq!(
        parse_note_name("A9").unwrap_err().message(),
        "note 'A9' is out of MIDI range (0-127)"
    );
}

#[test]
fn ranges_read_back() {
    for low in [12u8, 36, 60, 127] {
        for high in low..=127 {
            assert_eq!(parse_range(&format_range((low, high))).unwrap(), (low, high));
        }
    }
    assert_eq!(format_range((12, 59)), "C0-B3");
}

#[test]
fn bad_ranges_are_told_apart() {
    assert!(matches!(parse_range("C4"), Err(RangeError::Format)));
    assert!(matches!(parse_range("C4-X4"), Err(RangeError::Note(_))));
    assert!(matches!(parse_range("C4-C3"), Err(RangeError::Inverted { low: 60, high: 48 })));
    assert!(parse_range("C4").unwrap_err().message("C4").contains("C4"));
}
