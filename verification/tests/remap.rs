//! Note remapping.

use tang::remap::{NoteRemapper, RemapError, RemapRequest};

/// Requests for a pitch bend range, with the numbers that the remapper works on.
fn requests(entries: &[(&str, &str, f64)], range: f64) -> (Vec<RemapRequest>, Vec<Vec<bool>>) {
    let list = entries
        .iter()
        .map(|&(source, target, detune)| RemapRequest {
            source: source.to_string(),
            target: target.to_string(),
            exceeds: detune.abs() > range,
            bend: (8192.0 + (detune / range) * 8191.0).round() as i32,
        })
        .collect();
    let close = entries
        .iter()
        .map(|a| entries.iter().map(|b| (a.2 - b.2).abs() < 1e-9).collect())
        .collect();
    (list, close)
}

fn make(entries: &[(&str, &str, f64)], range: f64) -> Result<NoteRemapper, RemapError> {
    let (list, close) = requests(entries, range);
    NoteRemapper::from_config(&list, &close)
}

#[test]
fn remapper_from_config_valid() {
    let remapper = make(&[("G#4", "G4", 1.0), ("C#2", "D2", -0.5)], 2.0).unwrap();
    assert!(remapper.table.contains_key(&68));
    assert!(remapper.table.contains_key(&37));
}

#[test]
fn remapper_remap_note_on() {
    let remapper = make(&[("G#4", "G4", 1.0)], 2.0).unwrap();
    let input = vec![(0u64, [0x90u8, 68, 100])];
    let mut output = Vec::new();
    remapper.remap_events(&input, &mut output);
    assert_eq!(output.len(), 2);
    assert_eq!(output[0].1[0], 0x91);
    assert_eq!(output[0].1[1], 67);
    assert_eq!(output[0].1[2], 100);
    assert_eq!(output[1].1[0] & 0xF0, 0xE0);
    assert_eq!(output[1].1[0] & 0x0F, 1);
}

#[test]
fn remapper_remap_note_off() {
    let remapper = make(&[("G#4", "G4", 1.0)], 2.0).unwrap();
    let input = vec![(0u64, [0x80u8, 68, 0])];
    let mut output = Vec::new();
    remapper.remap_events(&input, &mut output);
    assert_eq!(output.len(), 1);
    assert_eq!(output[0].1[0], 0x81);
    assert_eq!(output[0].1[1], 67);
}

#[test]
fn remapper_passthrough_non_remapped() {
    let remapper = make(&[("G#4", "G4", 1.0)], 2.0).unwrap();
    let input = vec![(0u64, [0x90u8, 60, 100])];
    let mut output = Vec::new();
    remapper.remap_events(&input, &mut output);
    assert_eq!(output.len(), 1);
    assert_eq!(output[0].1, [0x90, 60, 100]);
}

#[test]
fn remapper_passthrough_non_note_events() {
    let remapper = make(&[("G#4", "G4", 1.0)], 2.0).unwrap();
    let input = vec![(0u64, [0xB0u8, 64, 127])];
    let mut output = Vec::new();
    remapper.remap_events(&input, &mut output);
    assert_eq!(output.len(), 1);
    assert_eq!(output[0].1, [0xB0, 64, 127]);
}

#[test]
fn remapper_pitch_bend_bytes_center() {
    let remapper = make(&[("C4", "C4", 0.0)], 2.0).unwrap();
    let entry = &remapper.table[&60];
    assert_eq!(entry.pitch_bend_lsb, 0);
    assert_eq!(entry.pitch_bend_msb, 64);
}

#[test]
fn remapper_pitch_bend_bytes_max() {
    let remapper = make(&[("C4", "C4", 2.0)], 2.0).unwrap();
    let entry = &remapper.table[&60];
    assert_eq!(entry.pitch_bend_lsb, 127);
    assert_eq!(entry.pitch_bend_msb, 127);
}

#[test]
fn remapper_pitch_bend_bytes_min() {
    let remapper = make(&[("C4", "C4", -2.0)], 2.0).unwrap();
    let entry = &remapper.table[&60];
    assert_eq!(entry.pitch_bend_lsb, 1);
    assert_eq!(entry.pitch_bend_msb, 0);
}

#[test]
fn remapper_shared_detune_shares_channel() {
    let remapper = make(&[("C4", "B3", 1.0), ("D4", "C#4", 1.0)], 2.0).unwrap();
    assert_eq!(remapper.table[&60].channel, remapper.table[&62].channel);
}

#[test]
fn remapper_different_detune_different_channels() {
    let remapper = make(&[("C4", "B3", 1.0), ("D4", "C#4", -0.5)], 2.0).unwrap();
    assert_ne!(remapper.table[&60].channel, remapper.table[&62].channel);
}

#[test]
fn remapper_error_detune_exceeds_range() {
    let result = make(&[("C4", "B3", 3.0)], 2.0);
    assert!(result.is_err());
    assert!(result.unwrap_err().message().contains("exceeds"));
}

#[test]
fn remapper_error_too_many_detune_values() {
    let notes = [
        "C2", "C#2", "D2", "D#2", "E2", "F2", "F#2", "G2", "G#2", "A2", "A#2", "B2", "C3", "C#3", "D3", "D#3",
    ];
    let entries: Vec<(&str, &str, f64)> =
        notes.iter().enumerate().map(|(i, &n)| (n, n, (i as f64 + 1.0) * 0.1)).collect();
    let result = make(&entries, 10.0);
    assert!(result.is_err());
    assert!(result.unwrap_err().message().contains("too many"));
}

#[test]
fn remapper_rejects_bad_note_names() {
    assert!(matches!(make(&[("H4", "C4", 0.0)], 2.0), Err(RemapError::Note(_))));
    assert!(matches!(make(&[("C4", "C", 0.0)], 2.0), Err(RemapError::Note(_))));
}

#[test]
fn remapper_without_entries_changes_nothing() {
    let remapper = make(&[], 2.0).unwrap();
    let input = vec![(3u64, [0x90u8, 60, 100]), (5, [0x80, 60, 0]), (7, [0xE0, 1, 2])];
    let mut output = vec![(9u64, [1u8, 1, 1])];
    remapper.remap_events(&input, &mut output);
    assert_eq!(output, input);
}

#[test]
fn remapper_note_off_follows_its_note_on() {
    let remapper = make(&[("G#4", "G4", 1.0), ("A4", "C4", -1.0)], 2.0).unwrap();
    let mut output = Vec::new();
    remapper.remap_events(&[(0, [0x90, 69, 90]), (4, [0x90, 69, 0])], &mut output);
    assert_eq!(output.len(), 3);
    assert_eq!(output[0].1[0] & 0x0F, output[2].1[0] & 0x0F);
    assert_eq!(output[0].1[1], output[2].1[1]);
    assert_eq!(output[2], (4, [0x92, 60, 0]));
}
