//! Three-byte MIDI messages and the one question every stage of the host asks of them:
//! does this message start a note, end one, or do something else?
use vstd::prelude::*;

verus! {

/// A MIDI message with the frame, inside the current buffer, at which it takes effect.
pub type MidiEvent = (u64, [u8; 3]);

/// What a message does, as far as note handling is concerned.
#[derive(Clone, Copy, Debug, PartialEq, Eq, Structural)]
pub enum MessageKind {
    /// Note-on with a velocity above zero.
    NoteOn,
    /// Note-off, or note-on with velocity zero.
    NoteOff,
    /// Controller, pitch bend, pressure and everything else.
    Other,
}

/// The status byte without its channel nibble.
pub open spec fn status_type(bytes: [u8; 3]) -> u8 {
    bytes[0] & 0xF0u8
}

/// The kind of a message.
pub open spec fn message_kind(bytes: [u8; 3]) -> MessageKind {
    if status_type(bytes) == 0x90 && bytes[2] > 0 {
        MessageKind::NoteOn
    } else if status_type(bytes) == 0x80 || status_type(bytes) == 0x90 {
        MessageKind::NoteOff
    } else {
        MessageKind::Other
    }
}

/// Whether a message starts or ends a note.
pub open spec fn is_note(bytes: [u8; 3]) -> bool {
    message_kind(bytes) != MessageKind::Other
}

/// The kind of `bytes`.
pub fn classify(bytes: [u8; 3]) -> (kind: MessageKind)
    ensures
        kind == message_kind(bytes),
{
    let status: u8 = bytes[0] & 0xF0;
    match status {
        0x90 if bytes[2] > 0 => MessageKind::NoteOn,
        0x80 | 0x90 => MessageKind::NoteOff,
        _ => MessageKind::Other,
    }
}

/// A note message on channel `c` is a note message whatever the channel: the channel nibble
/// takes no part in the kind.
pub proof fn kind_ignores_channel(bytes: [u8; 3], channel: u8)
    requires
        channel < 16,
    ensures
        message_kind([(bytes[0] & 0xF0u8) | channel, bytes[1], bytes[2]]) == message_kind(bytes),
{
    let status: u8 = bytes[0];
    assert(((status & 0xF0u8) | channel) & 0xF0u8 == status & 0xF0u8) by (bit_vector)
        requires
            channel < 16,
    ;
}

} // verus!
