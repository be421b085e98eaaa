//! Laws of MIDI messages.
use vstd::prelude::*;

use crate::midi::{is_note, message_kind, MessageKind};

verus! {

/// The status byte tells the kind: 0x90 to 0x9F with a velocity starts a note, the same without
/// one and 0x80 to 0x8F end it, and no other status byte has to do with notes.
pub proof fn kinds_are_status_ranges(bytes: [u8; 3])
    ensures
        message_kind(bytes) == MessageKind::NoteOn <==> 0x90 <= bytes[0] <= 0x9F && bytes[2] > 0,
        message_kind(bytes) == MessageKind::NoteOff <==> 0x80 <= bytes[0] <= 0x8F || (0x90 <= bytes[0] <= 0x9F
            && bytes[2] == 0),
        is_note(bytes) <==> 0x80 <= bytes[0] <= 0x9F,
{
    let status: u8 = bytes[0];
    assert(status & 0xF0u8 == 0x90u8 <==> 0x90u8 <= status && status <= 0x9Fu8) by (bit_vector);
    assert(status & 0xF0u8 == 0x80u8 <==> 0x80u8 <= status && status <= 0x8Fu8) by (bit_vector);
}

} // verus!
