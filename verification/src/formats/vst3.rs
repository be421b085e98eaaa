//! VST3 plugins: finding them, reading what they say of themselves, and turning MIDI into what they
//! understand.
use vstd::prelude::*;

use crate::midi::MidiEvent;
use crate::model::views;
use crate::paths::{file_stem, find_stem, join, joined, System};
use crate::plugin::{ParameterInfo, PluginInfo, Preset};
use crate::text::{
    contains, decimal, has_part, lowercase, lowered, parse_usize, push_decimal, same, same_lower, to_chars, usize_value,
};

verus! {

/// The most parameter changes that one block takes.
pub const MAX_PARAM_QUEUES: usize = 64;

/// The category of classes that process audio.
pub const AUDIO_CLASS: &'static str = "Audio Module Class";

// ---------------------------------------------------------------------------
// Events
// ---------------------------------------------------------------------------

/// An event for a plugin.
#[derive(Clone, Copy, Debug, PartialEq, Eq, Structural)]
pub enum HostEvent {
    NoteOn { channel: i16, pitch: i16, velocity: u8, offset: i32, note_id: i32 },
    NoteOff { channel: i16, pitch: i16, velocity: u8, offset: i32, note_id: i32 },
    /// A pitch bend on a channel, as its two data bytes.
    PitchBend { on: i8, lsb: i8, msb: i8, offset: i32 },
}

/// What a parameter is changed to: a plain value, or that of a controller.
#[derive(Clone, Copy, Debug)]
pub enum ChangeValue<G> {
    Plain(G),
    Controller(u8),
}

/// A change of a parameter.
#[derive(Clone, Copy, Debug)]
pub struct ParamChange<G> {
    pub id: u32,
    pub value: ChangeValue<G>,
}

/// What is kept between blocks: the identifiers of sounding notes, and which parameter each
/// controller drives.
#[derive(Debug)]
pub struct NoteTracker<G> {
    pub next_note_id: i32,
    /// For each channel the pitch and the identifier of its sounding notes, the newest last.
    pub channel_notes: Vec<Vec<(i16, i32)>>,
    pub cc_param_map: Vec<Option<u32>>,
    /// Parameter changes for the next block.
    pub pending: Vec<(u32, G)>,
}

/// The mathematical content of a [`NoteTracker`], without the pending changes.
#[verifier::ext_equal]
pub struct TrackerView {
    pub next_note_id: i32,
    pub notes: Seq<Seq<(i16, i32)>>,
    pub map: Seq<Option<u32>>,
}

impl<G> View for NoteTracker<G> {
    type V = TrackerView;

    open spec fn view(&self) -> TrackerView {
        TrackerView {
            next_note_id: self.next_note_id,
            notes: views(self.channel_notes@),
            map: self.cc_param_map@,
        }
    }
}

/// The place of the newest note of this pitch among the first `count`.
pub open spec fn newest(notes: Seq<(i16, i32)>, pitch: i16, count: int) -> Option<int>
    decreases count,
{
    if count <= 0 {
        None
    } else if notes[count - 1].0 == pitch {
        Some(count - 1)
    } else {
        newest(notes, pitch, count - 1)
    }
}

/// What comes of one MIDI message: the tracker afterwards, an event, and a controller's parameter
/// with its value.
pub struct Heard {
    pub tracker: TrackerView,
    pub event: Option<HostEvent>,
    pub change: Option<(u32, u8)>,
}

impl TrackerView {
    /// There is a list of notes for each channel.
    pub open spec fn wf(self) -> bool {
        self.notes.len() == 16
    }

    /// What comes of one MIDI message. A note-on without velocity is a note-off; a note-off takes
    /// the newest note of its pitch, and has no identifier where there is none.
    pub open spec fn heard(self, e: MidiEvent) -> Heard {
        let bytes = e.1;
        let status = bytes[0] & 0xF0u8;
        let ch = (bytes[0] & 0x0Fu8) as int;
        let channel = (bytes[0] & 0x0Fu8) as i16;
        let pitch = bytes[1] as i16;
        let offset = e.0 as i32;
        if status == 0x90 && bytes[2] > 0 {
            Heard {
                tracker: TrackerView {
                    next_note_id: self.next_note_id.wrapping_add(1),
                    notes: self.notes.update(ch, self.notes[ch].push((pitch, self.next_note_id))),
                    ..self
                },
                event: Some(
                    HostEvent::NoteOn { channel, pitch, velocity: bytes[2], offset, note_id: self.next_note_id },
                ),
                change: None,
            }
        } else if status == 0x80 || status == 0x90 {
            match newest(self.notes[ch], pitch, self.notes[ch].len() as int) {
                Some(i) => Heard {
                    tracker: TrackerView { notes: self.notes.update(ch, self.notes[ch].remove(i)), ..self },
                    event: Some(
                        HostEvent::NoteOff {
                            channel,
                            pitch,
                            velocity: bytes[2],
                            offset,
                            note_id: self.notes[ch][i].1,
                        },
                    ),
                    change: None,
                },
                None => Heard {
                    tracker: self,
                    event: Some(HostEvent::NoteOff { channel, pitch, velocity: bytes[2], offset, note_id: (-1) as i32 }),
                    change: None,
                },
            }
        } else if status == 0xE0 {
            Heard {
                tracker: self,
                event: Some(
                    HostEvent::PitchBend { on: channel as i8, lsb: bytes[1] as i8, msb: bytes[2] as i8, offset },
                ),
                change: None,
            }
        } else if status == 0xB0 {
            Heard {
                tracker: self,
                event: None,
                change: if bytes[1] < self.map.len() {
                    match self.map[bytes[1] as int] {
                        Some(id) => Some((id, bytes[2])),
                        None => None,
                    }
                } else {
                    None
                },
            }
        } else {
            Heard { tracker: self, event: None, change: None }
        }
    }

    /// The tracker after the first `count` messages.
    pub open spec fn after(self, midi: Seq<MidiEvent>, count: int) -> TrackerView
        decreases count,
    {
        if count <= 0 {
            self
        } else {
            self.after(midi, count - 1).heard(midi[count - 1]).tracker
        }
    }

    /// The events of the first `count` messages.
    pub open spec fn events(self, midi: Seq<MidiEvent>, count: int) -> Seq<HostEvent>
        decreases count,
    {
        if count <= 0 {
            Seq::empty()
        } else {
            let rest = self.events(midi, count - 1);
            match self.after(midi, count - 1).heard(midi[count - 1]).event {
                Some(event) => rest.push(event),
                None => rest,
            }
        }
    }

    /// The changes that the controllers among the first `count` messages make, behind those that
    /// there are; what is too many is dropped.
    pub open spec fn changes<G>(self, queued: Seq<ParamChange<G>>, midi: Seq<MidiEvent>, count: int) -> Seq<
        ParamChange<G>,
    >
        decreases count,
    {
        if count <= 0 {
            queued
        } else {
            let rest = self.changes(queued, midi, count - 1);
            match self.after(midi, count - 1).heard(midi[count - 1]).change {
                Some((id, value)) => if rest.len() < MAX_PARAM_QUEUES {
                    rest.push(ParamChange { id, value: ChangeValue::Controller(value) })
                } else {
                    rest
                },
                None => rest,
            }
        }
    }
}

/// The pending changes that fit into one block.
pub open spec fn queued<G>(pending: Seq<(u32, G)>) -> Seq<ParamChange<G>> {
    Seq::new(
        if pending.len() < MAX_PARAM_QUEUES {
            pending.len()
        } else {
            MAX_PARAM_QUEUES as nat
        },
        |i: int| ParamChange { id: pending[i].0, value: ChangeValue::Plain(pending[i].1) },
    )
}

impl<G: Copy> NoteTracker<G> {
    /// A tracker without notes, with this controller map.
    pub fn new(cc_param_map: Vec<Option<u32>>) -> (tracker: Self)
        ensures
            tracker@ == (TrackerView {
                next_note_id: 0,
                notes: Seq::new(16, |i: int| Seq::empty()),
                map: cc_param_map@,
            }),
            tracker@.wf(),
            tracker.pending@.len() == 0,
    {
        let mut channel_notes: Vec<Vec<(i16, i32)>> = Vec::new();
        let mut i: usize = 0;
        while i < 16
            invariant
                i <= 16,
                channel_notes@.len() == i,
                forall|k: int| 0 <= k < i ==> (#[trigger] channel_notes@[k])@ == Seq::<(i16, i32)>::empty(),
            decreases 16 - i,
        {
            channel_notes.push(Vec::new());
            i = i + 1;
        }
        assert(views(channel_notes@) =~= Seq::new(16, |i: int| Seq::<(i16, i32)>::empty()));
        NoteTracker { next_note_id: 0, channel_notes, cc_param_map, pending: Vec::new() }
    }

    fn find_newest(&self, channel: usize, pitch: i16) -> (found: Option<usize>)
        requires
            channel < self@.notes.len(),
        ensures
            match found {
                Some(i) => newest(self@.notes[channel as int], pitch, self@.notes[channel as int].len() as int) == Some(
                    i as int,
                ) && i < self@.notes[channel as int].len(),
                None => newest(
                    self@.notes[channel as int],
                    pitch,
                    self@.notes[channel as int].len() as int,
                ) is None,
            },
    {
        let notes = &self.channel_notes[channel];
        let mut i: usize = notes.len();
        while i > 0
            invariant
                i <= notes@.len(),
                notes@ == self@.notes[channel as int],
                newest(notes@, pitch, notes@.len() as int) == newest(notes@, pitch, i as int),
            decreases i,
        {
            if notes[i - 1].0 == pitch {
                return Some(i - 1);
            }
            i = i - 1;
        }
        None
    }

    fn hear(&mut self, e: MidiEvent) -> (r: (Option<HostEvent>, Option<(u32, u8)>))
        requires
            old(self)@.wf(),
        ensures
            final(self)@ == old(self)@.heard(e).tracker,
            final(self).pending == old(self).pending,
            final(self)@.wf(),
            r.0 == old(self)@.heard(e).event,
            r.1 == old(self)@.heard(e).change,
    {
        let bytes = e.1;
        let first: u8 = bytes[0];
        let status: u8 = first & 0xF0;
        let low: u8 = first & 0x0F;
        assert(first & 0x0F < 16) by (bit_vector);
        let ch: usize = low as usize;
        let channel: i16 = low as i16;
        let pitch: i16 = bytes[1] as i16;
        let offset: i32 = e.0 as i32;
        if status == 0x90 && bytes[2] > 0 {
            let note_id: i32 = self.next_note_id;
            self.next_note_id = note_id.wrapping_add(1);
            let ghost before = views(self.channel_notes@);
            self.channel_notes[ch].push((pitch, note_id));
            assert(views(self.channel_notes@) =~= before.update(ch as int, before[ch as int].push((pitch, note_id))));
            (Some(HostEvent::NoteOn { channel, pitch, velocity: bytes[2], offset, note_id }), None)
        } else if status == 0x80 || status == 0x90 {
            let note_id: i32 = match self.find_newest(ch, pitch) {
                Some(i) => {
                    let ghost before = views(self.channel_notes@);
                    let (_, id) = self.channel_notes[ch].remove(i);
                    assert(views(self.channel_notes@) =~= before.update(ch as int, before[ch as int].remove(i as int)));
                    id
                },
                None => -1,
            };
            (Some(HostEvent::NoteOff { channel, pitch, velocity: bytes[2], offset, note_id }), None)
        } else if status == 0xE0 {
            (
                Some(
                    HostEvent::PitchBend { on: channel as i8, lsb: bytes[1] as i8, msb: bytes[2] as i8, offset },
                ),
                None,
            )
        } else if status == 0xB0 {
            let cc: usize = bytes[1] as usize;
            if cc < self.cc_param_map.len() {
                match self.cc_param_map[cc] {
                    Some(id) => (None, Some((id, bytes[2]))),
                    None => (None, None),
                }
            } else {
                (None, None)
            }
        } else {
            (None, None)
        }
    }

    /// Turns the MIDI messages of a block into events and parameter changes. The pending changes
    /// come first, and are pending no longer.
    pub fn prepare(&mut self, midi: &[MidiEvent]) -> (r: (Vec<HostEvent>, Vec<ParamChange<G>>))
        requires
            old(self)@.wf(),
        ensures
            final(self)@ == old(self)@.after(midi@, midi@.len() as int),
            final(self)@.wf(),
            final(self).pending@.len() == 0,
            r.0@ == old(self)@.events(midi@, midi@.len() as int),
            r.1@ == old(self)@.changes(queued(old(self).pending@), midi@, midi@.len() as int),
            r.1@.len() <= MAX_PARAM_QUEUES,
    {
        let mut changes: Vec<ParamChange<G>> = Vec::new();
        let mut i: usize = 0;
        let ghost room = queued(self.pending@);
        while i < self.pending.len() && i < MAX_PARAM_QUEUES
            invariant
                i <= self.pending@.len(),
                i <= MAX_PARAM_QUEUES,
                *self == *old(self),
                room == queued(self.pending@),
                changes@ == room.take(i as int),
            decreases self.pending@.len() - i,
        {
            let (id, value) = self.pending[i];
            changes.push(ParamChange { id, value: ChangeValue::Plain(value) });
            assert(room.take(i + 1) =~= room.take(i as int).push(room[i as int]));
            i = i + 1;
        }
        assert(room.take(i as int) =~= room);
        self.pending.clear();
        let mut events: Vec<HostEvent> = Vec::new();
        let mut k: usize = 0;
        let ghost start = old(self)@;
        while k < midi.len()
            invariant
                k <= midi@.len(),
                self@.wf(),
                self.pending@.len() == 0,
                start == old(self)@,
                self@ == start.after(midi@, k as int),
                events@ == start.events(midi@, k as int),
                changes@ == start.changes(room, midi@, k as int),
                changes@.len() <= MAX_PARAM_QUEUES,
            decreases midi@.len() - k,
        {
            let (event, change) = self.hear(midi[k]);
            if let Some(event) = event {
                events.push(event);
            }
            if let Some((id, value)) = change {
                if changes.len() < MAX_PARAM_QUEUES {
                    changes.push(ParamChange { id, value: ChangeValue::Controller(value) });
                }
            }
            k = k + 1;
        }
        (events, changes)
    }
}

// ---------------------------------------------------------------------------
// Text
// ---------------------------------------------------------------------------

/// The items up to the first zero.
pub open spec fn until_zero(s: Seq<u16>) -> Seq<u16>
    decreases s.len(),
{
    if s.len() == 0 || s[0] == 0 {
        Seq::empty()
    } else {
        seq![s[0]] + until_zero(s.drop_first())
    }
}

/// The text of UTF-16 units: a high surrogate and a low one behind it are one character, a surrogate
/// without its partner is read as the replacement character, and any other unit is a character.
pub open spec fn utf16_text(units: Seq<u16>) -> Seq<char>
    decreases units.len(),
{
    if units.len() == 0 {
        Seq::empty()
    } else if !(0xD800 <= units[0] <= 0xDFFF) {
        seq![units[0] as char] + utf16_text(units.skip(1))
    } else if units[0] <= 0xDBFF && units.len() >= 2 && 0xDC00 <= units[1] <= 0xDFFF {
        seq![(0x10000 + (units[0] - 0xD800) * 0x400 + (units[1] - 0xDC00)) as char] + utf16_text(units.skip(2))
    } else {
        seq!['\u{FFFD}'] + utf16_text(units.skip(1))
    }
}

/// `String::from_utf16_lossy` reads UTF-16; each surrogate without its partner is read as the
/// replacement character.
pub assume_specification[ String::from_utf16_lossy ](v: &[u16]) -> (s: String)
    ensures
        s@ == utf16_text(v@),
;

/// The text in a field that a zero ends.
pub fn string128_to_string(s: &[u16]) -> (text: String)
    ensures
        text@ == utf16_text(until_zero(s@)),
{
    let mut units: Vec<u16> = Vec::new();
    let mut i: usize = 0;
    assert(s@.skip(0) =~= s@);
    while i < s.len() && s[i] != 0
        invariant
            i <= s@.len(),
            until_zero(s@) == units@ + until_zero(s@.skip(i as int)),
        decreases s@.len() - i,
    {
        assert(s@.skip(i as int).drop_first() =~= s@.skip(i + 1));
        units.push(s[i]);
        assert(until_zero(s@) =~= units@ + until_zero(s@.skip(i + 1)));
        i = i + 1;
    }
    assert(until_zero(s@) =~= units@);
    String::from_utf16_lossy(units.as_slice())
}

/// The UTF-16 units of a character.
pub open spec fn units_of(c: char) -> Seq<u16> {
    let code = c as u32;
    if code < 0x10000 {
        seq![code as u16]
    } else {
        seq![(0xD800 + (code - 0x10000) / 0x400) as u16, (0xDC00 + (code - 0x10000) % 0x400) as u16]
    }
}

/// The UTF-16 units of a text.
pub open spec fn text_units(s: Seq<char>) -> Seq<u16>
    decreases s.len(),
{
    if s.len() == 0 {
        Seq::empty()
    } else {
        text_units(s.drop_last()) + units_of(s.last())
    }
}

/// A field with a text: as many units as leave room for a zero, and zeros behind.
pub open spec fn text_field(s: Seq<char>) -> Seq<u16> {
    let units = text_units(s);
    Seq::new(
        128,
        |i: int|
            if i < units.len() && i < 127 {
                units[i]
            } else {
                0u16
            },
    )
}

/// An interface identifier as signed bytes, bit for bit.
pub fn guid_to_tuid(guid: &[u8; 16]) -> (tuid: [i8; 16])
    ensures
        forall|i: int| 0 <= i < 16 ==> #[trigger] tuid@[i] == guid@[i] as i8,
{
    let mut tuid: [i8; 16] = [0; 16];
    let mut i: usize = 0;
    while i < 16
        invariant
            i <= 16,
            forall|k: int| 0 <= k < i ==> #[trigger] tuid@[k] == guid@[k] as i8,
        decreases 16 - i,
    {
        tuid[i] = #[verifier::truncate]
        (guid[i] as i8);
        i = i + 1;
    }
    tuid
}

/// Whether a directory is a bundle: by its extension, in capitals or not.
pub fn is_bundle(extension: Option<&str>) -> (r: bool)
    ensures
        r == (match extension {
            Some(e) => lowered(e@) == "vst3"@,
            None => false,
        }),
{
    match extension {
        Some(e) => same_lower(e, "vst3"),
        None => false,
    }
}

/// A field with a text.
pub fn string_to_string128(s: &str) -> (field: Vec<u16>)
    ensures
        field@ == text_field(s@),
{
    let chars = to_chars(s);
    let mut units: Vec<u16> = Vec::new();
    let mut i: usize = 0;
    while i < chars.len()
        invariant
            i <= chars@.len(),
            units@ == text_units(chars@.take(i as int)),
        decreases chars@.len() - i,
    {
        assert(chars@.take(i + 1).drop_last() =~= chars@.take(i as int));
        let code: u32 = chars[i] as u32;
        let ghost before = units@;
        if code < 0x10000 {
            units.push(code as u16);
        } else {
            units.push((0xD800 + (code - 0x10000) / 0x400) as u16);
            units.push((0xDC00 + (code - 0x10000) % 0x400) as u16);
        }
        assert(units@ =~= before + units_of(chars@[i as int]));
        i = i + 1;
    }
    assert(chars@.take(i as int) =~= chars@);
    let mut field: Vec<u16> = Vec::new();
    let ghost whole = text_field(s@);
    let mut k: usize = 0;
    while k < 128
        invariant
            k <= 128,
            units@ == text_units(s@),
            whole == text_field(s@),
            field@ == whole.take(k as int),
        decreases 128 - k,
    {
        field.push(
            if k < units.len() && k < 127 {
                units[k]
            } else {
                0
            },
        );
        assert(whole.take(k + 1) =~= whole.take(k as int).push(whole[k as int]));
        k = k + 1;
    }
    assert(whole.take(128) =~= whole);
    field
}

/// The bytes up to the first zero, each as the character with its number.
pub open spec fn byte_text(s: Seq<u8>) -> Seq<char>
    decreases s.len(),
{
    if s.len() == 0 || s[0] == 0 {
        Seq::empty()
    } else {
        seq![s[0] as char] + byte_text(s.drop_first())
    }
}

/// The text in a field of bytes that a zero ends.
pub fn char_array_to_string(s: &[u8]) -> (text: String)
    ensures
        text@ == byte_text(s@),
{
    let mut text = String::new();
    let mut i: usize = 0;
    assert(s@.skip(0) =~= s@);
    assert(byte_text(s@) =~= text@ + byte_text(s@.skip(0)));
    while i < s.len() && s[i] != 0
        invariant
            i <= s@.len(),
            byte_text(s@) == text@ + byte_text(s@.skip(i as int)),
        decreases s@.len() - i,
    {
        assert(s@.skip(i as int).drop_first() =~= s@.skip(i + 1));
        text.push(s[i] as char);
        assert(byte_text(s@) =~= text@ + byte_text(s@.skip(i + 1)));
        i = i + 1;
    }
    assert(byte_text(s@) =~= text@);
    text
}

// ---------------------------------------------------------------------------
// Finding plugins
// ---------------------------------------------------------------------------

/// Where bundles are looked for: in the user's own directory (the home directory, or the one for
/// local application data on Windows), system-wide, and where the configuration says.
pub open spec fn search_dirs(system: System, own: Option<&str>, extra: Seq<String>) -> Seq<Seq<char>> {
    let (below, shared) = match system {
        System::Linux => (".vst3"@, seq!["/usr/lib/vst3"@, "/usr/local/lib/vst3"@]),
        System::Mac => ("Library/Audio/Plug-Ins/VST3"@, seq!["/Library/Audio/Plug-Ins/VST3"@]),
        System::Windows => ("Programs/Common/VST3"@, seq!["C:\\Program Files\\Common Files\\VST3"@]),
    };
    (match own {
        Some(own) => seq![joined(system, own@, below)],
        None => Seq::empty(),
    }) + shared + extra.map_values(|p: String| p@)
}

/// Where bundles are looked for.
pub fn vst3_search_paths(system: System, own: Option<&str>, extra: &Vec<String>) -> (paths: Vec<String>)
    ensures
        paths@.map_values(|p: String| p@) == search_dirs(system, own, extra@),
{
    let mut paths: Vec<String> = Vec::new();
    let below = match system {
        System::Linux => ".vst3",
        System::Mac => "Library/Audio/Plug-Ins/VST3",
        System::Windows => "Programs/Common/VST3",
    };
    if let Some(own) = own {
        paths.push(join(system, own, below));
    }
    match system {
        System::Linux => {
            paths.push("/usr/lib/vst3".to_owned());
            paths.push("/usr/local/lib/vst3".to_owned());
        },
        System::Mac => {
            paths.push("/Library/Audio/Plug-Ins/VST3".to_owned());
        },
        System::Windows => {
            paths.push("C:\\Program Files\\Common Files\\VST3".to_owned());
        },
    }
    let ghost fixed = paths@.map_values(|p: String| p@);
    let ghost all = extra@.map_values(|p: String| p@);
    let mut i: usize = 0;
    while i < extra.len()
        invariant
            i <= extra@.len(),
            all == extra@.map_values(|p: String| p@),
            paths@.map_values(|p: String| p@) == fixed + all.take(i as int),
        decreases extra@.len() - i,
    {
        let ghost before = paths@;
        paths.push(extra[i].clone());
        assert(paths@.map_values(|p: String| p@) =~= before.map_values(|p: String| p@).push(all[i as int]));
        assert(all.take(i + 1) =~= all.take(i as int).push(all[i as int]));
        i = i + 1;
    }
    assert(all.take(i as int) =~= all);
    assert(paths@.map_values(|p: String| p@) =~= search_dirs(system, own, extra@));
    paths
}

/// The name of a bundle without its extension; empty where it has no name.
pub open spec fn bundle_stem(system: System, bundle: Seq<char>) -> Seq<char> {
    match file_stem(system, bundle) {
        Some((start, end)) => bundle.subrange(start, end),
        None => Seq::empty(),
    }
}

/// The directory within `Contents` that holds the shared library for this system and machine.
pub open spec fn binary_dir(system: System, machine: Seq<char>) -> Seq<char> {
    match system {
        System::Linux => if machine == "aarch64"@ {
            "aarch64-linux"@
        } else {
            "x86_64-linux"@
        },
        System::Mac => "MacOS"@,
        System::Windows => if machine == "aarch64"@ {
            "aarch64-win"@
        } else {
            "x86_64-win"@
        },
    }
}

/// What the name of a shared library ends in.
pub open spec fn binary_ending(system: System) -> Seq<char> {
    match system {
        System::Linux => ".so"@,
        System::Mac => Seq::empty(),
        System::Windows => ".vst3"@,
    }
}

/// The shared library in a bundle, for this system and machine.
pub open spec fn binary_in(system: System, bundle: Seq<char>, machine: Seq<char>) -> Seq<char> {
    let dir = joined(system, joined(system, bundle, "Contents"@), binary_dir(system, machine));
    joined(system, dir, bundle_stem(system, bundle) + binary_ending(system))
}

fn stem_of(system: System, bundle: &str) -> (stem: String)
    ensures
        stem@ == bundle_stem(system, bundle@),
{
    match find_stem(system, &to_chars(bundle)) {
        Some((start, end)) => bundle.substring_char(start, end).to_owned(),
        None => String::new(),
    }
}

/// The shared library in a bundle, for this system and machine.
pub fn bundle_binary_path(system: System, bundle: &str, machine: &str) -> (path: String)
    ensures
        path@ == binary_in(system, bundle@, machine@),
{
    let arm: bool = same(machine, "aarch64");
    let place = match system {
        System::Linux => if arm {
            "aarch64-linux"
        } else {
            "x86_64-linux"
        },
        System::Mac => "MacOS",
        System::Windows => if arm {
            "aarch64-win"
        } else {
            "x86_64-win"
        },
    };
    let mut file = stem_of(system, bundle);
    match system {
        System::Linux => file.append(".so"),
        System::Mac => {},
        System::Windows => file.append(".vst3"),
    }
    assert(file@ =~= bundle_stem(system, bundle@) + binary_ending(system));
    let contents = join(system, bundle, "Contents");
    let dir = join(system, contents.as_str(), place);
    join(system, dir.as_str(), file.as_str())
}

/// Whether a bundle's name holds what is looked for, without regard to case.
pub open spec fn likely(system: System, bundle: Seq<char>, search: Seq<char>) -> bool {
    file_stem(system, bundle) is Some && has_part(lowercase(bundle_stem(system, bundle)), search)
}

/// Those of the first `count` bundles that are likely, or those that are not.
pub open spec fn sifted(system: System, bundles: Seq<String>, search: Seq<char>, wanted: bool, count: int) -> Seq<String>
    decreases count,
{
    if count <= 0 {
        Seq::empty()
    } else {
        let rest = sifted(system, bundles, search, wanted, count - 1);
        if likely(system, bundles[count - 1]@, search) == wanted {
            rest.push(bundles[count - 1])
        } else {
            rest
        }
    }
}

/// The bundles in the order in which they are opened to look for a plugin: likely ones first.
pub open spec fn search_order(system: System, bundles: Seq<String>, search: Seq<char>) -> Seq<String> {
    let count = bundles.len() as int;
    sifted(system, bundles, search, true, count) + sifted(system, bundles, search, false, count)
}

/// The bundles in the order in which they are opened to look for a plugin by this name, in lower
/// case.
pub fn order_bundles(system: System, bundles: &Vec<String>, search: &str) -> (order: Vec<String>)
    ensures
        order@ == search_order(system, bundles@, search@),
{
    let part = to_chars(search);
    let mut order: Vec<String> = Vec::new();
    let mut rest: Vec<String> = Vec::new();
    let mut i: usize = 0;
    while i < bundles.len()
        invariant
            i <= bundles@.len(),
            part@ == search@,
            order@ == sifted(system, bundles@, search@, true, i as int),
            rest@ == sifted(system, bundles@, search@, false, i as int),
        decreases bundles@.len() - i,
    {
        let bundle = &bundles[i];
        let named: bool = find_stem(system, &to_chars(bundle.as_str())).is_some();
        if named && contains(&to_chars(stem_of(system, bundle.as_str()).as_str().to_lowercase().as_str()), &part) {
            order.push(bundle.clone());
        } else {
            rest.push(bundle.clone());
        }
        i = i + 1;
    }
    order.append(&mut rest);
    order
}

/// What a bundle says of one of its classes.
#[derive(Debug)]
pub struct ClassInfo {
    pub category: String,
    pub name: String,
}

/// Whether a class is one to load: it processes audio, and its name holds what is looked for,
/// where something is.
pub open spec fn class_fits(class: ClassInfo, search: Option<&str>) -> bool {
    class.category@ == AUDIO_CLASS@ && match search {
        Some(search) => has_part(lowercase(class.name@), search@),
        None => true,
    }
}

/// The first class from `from` on that is one to load.
pub open spec fn first_class(classes: Seq<ClassInfo>, search: Option<&str>, from: int) -> Option<int>
    decreases classes.len() - from,
{
    if from < 0 || from >= classes.len() {
        None
    } else if class_fits(classes[from], search) {
        Some(from)
    } else {
        first_class(classes, search, from + 1)
    }
}

/// Whether a class is one to load.
pub fn is_wanted(class: &ClassInfo, search: Option<&str>) -> (r: bool)
    ensures
        r == class_fits(*class, search),
{
    same(class.category.as_str(), AUDIO_CLASS) && match search {
        Some(search) => contains(&to_chars(class.name.as_str().to_lowercase().as_str()), &to_chars(search)),
        None => true,
    }
}

/// The first class that is one to load.
pub fn pick_class(classes: &Vec<ClassInfo>, search: Option<&str>) -> (index: Option<usize>)
    ensures
        match index {
            Some(i) => first_class(classes@, search, 0) == Some(i as int) && i < classes@.len(),
            None => first_class(classes@, search, 0) is None,
        },
{
    let mut i: usize = 0;
    while i < classes.len()
        invariant
            i <= classes@.len(),
            first_class(classes@, search, 0) == first_class(classes@, search, i as int),
        decreases classes@.len() - i,
    {
        if is_wanted(&classes[i], search) {
            return Some(i);
        }
        i = i + 1;
    }
    None
}

/// Whether a class is an instrument: its subcategories say so.
pub fn is_class_instrument(subcategories: &str) -> (r: bool)
    ensures
        r == has_part(subcategories@, "Instrument"@),
{
    contains(&to_chars(subcategories), &to_chars("Instrument"))
}

/// The time that one class of a bundle took to scan, of the time of all; a bundle without classes
/// counts as one.
pub open spec fn scan_share(total: u64, count: nat) -> u64 {
    if count == 0 {
        total
    } else {
        (total as int / count as int) as u64
    }
}

/// Gives each class of a bundle its share of the time that the bundle took to scan.
pub fn share_scan_time(found: &mut Vec<PluginInfo>, total: u64)
    requires
        old(found)@.len() <= u64::MAX,
    ensures
        final(found)@.len() == old(found)@.len(),
        forall|i: int|
            0 <= i < old(found)@.len() ==> #[trigger] final(found)@[i] == (PluginInfo {
                scan_ms: scan_share(total, old(found)@.len()),
                ..old(found)@[i]
            }),
{
    let n: usize = found.len();
    let share: u64 = if n == 0 {
        total
    } else {
        total / n as u64
    };
    let mut i: usize = 0;
    while i < n
        invariant
            i <= n,
            n == old(found)@.len(),
            n == found@.len(),
            n > 0 ==> share == scan_share(total, old(found)@.len()),
            forall|k: int|
                0 <= k < i ==> #[trigger] found@[k] == (PluginInfo { scan_ms: share, ..old(found)@[k] }),
            forall|k: int| i <= k < n ==> #[trigger] found@[k] == old(found)@[k],
        decreases n - i,
    {
        found[i].scan_ms = share;
        i = i + 1;
    }
}

/// What is known of a class without loading it for good.
pub fn class_plugin_info(
    name: &str,
    is_instrument: bool,
    param_count: usize,
    preset_count: usize,
    path: String,
) -> (info: PluginInfo)
    ensures
        info.name@ == name@,
        info.id@ == "vst3:"@ + name@,
        info.is_instrument == is_instrument,
        info.param_count == param_count,
        info.preset_count == preset_count,
        info.path == path,
        info.scan_ms == 0,
{
    let mut id = "vst3:".to_owned();
    id.append(name);
    PluginInfo { name: name.to_owned(), id, is_instrument, param_count, preset_count, path, scan_ms: 0 }
}

// ---------------------------------------------------------------------------
// Loading
// ---------------------------------------------------------------------------

/// A parameter as a plugin tells it.
#[derive(Debug)]
pub struct RawParam<F> {
    pub id: u32,
    /// Whether it selects a program.
    pub program_change: bool,
    pub name: String,
    pub min: F,
    pub max: F,
    pub default: F,
}

/// The ordinary parameters among the first `count`, numbered from 0.
pub open spec fn shown_params<F>(raw: Seq<RawParam<F>>, count: int) -> Seq<ParameterInfo<F>>
    decreases count,
{
    if count <= 0 {
        Seq::empty()
    } else {
        let rest = shown_params(raw, count - 1);
        let p = raw[count - 1];
        if p.program_change {
            rest
        } else {
            rest.push(
                ParameterInfo { index: rest.len() as u32, name: p.name, min: p.min, max: p.max, default: p.default },
            )
        }
    }
}

/// The identifiers of the ordinary parameters among the first `count`.
pub open spec fn shown_ids<F>(raw: Seq<RawParam<F>>, count: int) -> Seq<u32>
    decreases count,
{
    if count <= 0 {
        Seq::empty()
    } else {
        let rest = shown_ids(raw, count - 1);
        if raw[count - 1].program_change {
            rest
        } else {
            rest.push(raw[count - 1].id)
        }
    }
}

/// The identifier of the last parameter among the first `count` that selects a program.
pub open spec fn program_param<F>(raw: Seq<RawParam<F>>, count: int) -> Option<u32>
    decreases count,
{
    if count <= 0 {
        None
    } else if raw[count - 1].program_change {
        Some(raw[count - 1].id)
    } else {
        program_param(raw, count - 1)
    }
}

/// What a plugin's parameters are.
#[derive(Debug)]
pub struct ParamTable<F> {
    pub params: Vec<ParameterInfo<F>>,
    pub ids: Vec<u32>,
    /// The parameter that selects a program; it is not shown.
    pub program: Option<u32>,
}

/// Sorts a plugin's parameters into those that are shown and the one that selects a program.
pub fn collect_params<F: Copy>(raw: &Vec<RawParam<F>>) -> (table: ParamTable<F>)
    requires
        raw@.len() <= u32::MAX,
    ensures
        table.params@ == shown_params(raw@, raw@.len() as int),
        table.ids@ == shown_ids(raw@, raw@.len() as int),
        table.program == program_param(raw@, raw@.len() as int),
{
    let mut params: Vec<ParameterInfo<F>> = Vec::new();
    let mut ids: Vec<u32> = Vec::new();
    let mut program: Option<u32> = None;
    let mut i: usize = 0;
    while i < raw.len()
        invariant
            i <= raw@.len() <= u32::MAX,
            params@ == shown_params(raw@, i as int),
            params@.len() <= i,
            ids@ == shown_ids(raw@, i as int),
            program == program_param(raw@, i as int),
        decreases raw@.len() - i,
    {
        let p = &raw[i];
        if p.program_change {
            program = Some(p.id);
        } else {
            ids.push(p.id);
            params.push(
                ParameterInfo {
                    index: params.len() as u32,
                    name: p.name.clone(),
                    min: p.min,
                    max: p.max,
                    default: p.default,
                },
            );
        }
        i = i + 1;
    }
    ParamTable { params, ids, program }
}

/// The presets with these names: the identifier of each is its number.
pub fn number_presets(names: Vec<String>) -> (presets: Vec<Preset>)
    ensures
        presets@.len() == names@.len(),
        forall|i: int|
            0 <= i < names@.len() ==> (#[trigger] presets@[i]).name@ == names@[i]@ && presets@[i].id@ == decimal(
                i as nat,
            ),
{
    let mut presets: Vec<Preset> = Vec::new();
    let mut i: usize = 0;
    while i < names.len()
        invariant
            i <= names@.len(),
            presets@.len() == i,
            forall|k: int|
                0 <= k < i ==> (#[trigger] presets@[k]).name@ == names@[k]@ && presets@[k].id@ == decimal(k as nat),
        decreases names@.len() - i,
    {
        let mut id = String::new();
        push_decimal(&mut id, i as u64);
        presets.push(Preset { name: names[i].clone(), id });
        i = i + 1;
    }
    presets
}

/// Why a preset cannot be loaded.
#[derive(Clone, Copy, Debug, PartialEq, Eq, Structural)]
pub enum PresetFault {
    /// The identifier is no number.
    InvalidId,
    /// No parameter selects a program.
    NoProgramChange,
    /// There are no presets.
    NoPresets,
}

impl PresetFault {
    /// The fault in words.
    pub open spec fn text(self, id: Seq<char>) -> Seq<char> {
        match self {
            PresetFault::InvalidId => "Invalid preset ID: "@ + id,
            PresetFault::NoProgramChange => "Plugin does not support program changes"@,
            PresetFault::NoPresets => "No presets available"@,
        }
    }

    /// The fault in words.
    pub fn message(self, id: &str) -> (text: String)
        ensures
            text@ == self.text(id@),
    {
        match self {
            PresetFault::InvalidId => {
                let mut text = "Invalid preset ID: ".to_owned();
                text.append(id);
                text
            },
            PresetFault::NoProgramChange => "Plugin does not support program changes".to_owned(),
            PresetFault::NoPresets => "No presets available".to_owned(),
        }
    }
}

/// How a preset is selected: this parameter goes to `at` of `of` parts.
#[derive(Clone, Copy, Debug, PartialEq, Eq, Structural)]
pub struct ProgramChoice {
    pub param: u32,
    pub at: usize,
    pub of: usize,
}

/// How the preset with this identifier is selected, of so many. The only one is at the start.
pub open spec fn program_choice(id: Seq<char>, program: Option<u32>, count: usize) -> Result<ProgramChoice, PresetFault> {
    match usize_value(id) {
        None => Err(PresetFault::InvalidId),
        Some(index) => match program {
            None => Err(PresetFault::NoProgramChange),
            Some(param) => if count == 0 {
                Err(PresetFault::NoPresets)
            } else if count == 1 {
                Ok(ProgramChoice { param, at: 0, of: 1 })
            } else {
                Ok(ProgramChoice { param, at: index, of: (count - 1) as usize })
            },
        },
    }
}

/// How the preset with this identifier is selected, of so many.
pub fn choose_preset(id: &str, program: Option<u32>, count: usize) -> (choice: Result<ProgramChoice, PresetFault>)
    ensures
        choice == program_choice(id@, program, count),
{
    match parse_usize(id) {
        None => Err(PresetFault::InvalidId),
        Some(index) => match program {
            None => Err(PresetFault::NoProgramChange),
            Some(param) => if count == 0 {
                Err(PresetFault::NoPresets)
            } else if count == 1 {
                Ok(ProgramChoice { param, at: 0, of: 1 })
            } else {
                Ok(ProgramChoice { param, at: index, of: count - 1 })
            },
        },
    }
}

/// How an audio bus is set up: its channels, and whether it is mono. Without a bus, or without an
/// answer, there are as many channels as `assumed`.
pub fn bus_channels(has_bus: bool, answer: Option<i32>, assumed: usize) -> (r: (usize, bool))
    requires
        answer matches Some(n) ==> n >= 0,
    ensures
        r == match answer {
            Some(n) => if has_bus {
                (n as usize, n == 1)
            } else {
                (assumed, false)
            },
            None => (assumed, false),
        },
{
    match answer {
        Some(n) => if has_bus {
            (n as usize, n == 1)
        } else {
            (assumed, false)
        },
        None => (assumed, false),
    }
}

// ---------------------------------------------------------------------------
// Laws
// ---------------------------------------------------------------------------

/// A note that is let go right after it was struck ends under the identifier it began with, and the
/// other notes are as before.
pub proof fn note_off_finds_its_note_on(t: TrackerView, frame_on: u64, frame_off: u64, channel: u8, pitch: u8, velocity: u8, off: u8)
    requires
        t.wf(),
        channel < 16,
        velocity > 0,
    ensures
        ({
            let on = t.heard((frame_on, [0x90u8 | channel, pitch, velocity]));
            let end = on.tracker.heard((frame_off, [0x80u8 | channel, pitch, off]));
            &&& on.event matches Some(HostEvent::NoteOn { note_id, .. })
            &&& end.event matches Some(HostEvent::NoteOff { note_id: ended, .. })
            &&& ended == note_id
            &&& end.tracker.notes == t.notes
        }),
{
    assert((0x90u8 | channel) & 0xF0u8 == 0x90u8) by (bit_vector)
        requires
            channel < 16,
    ;
    assert((0x80u8 | channel) & 0xF0u8 == 0x80u8) by (bit_vector)
        requires
            channel < 16,
    ;
    assert((0x90u8 | channel) & 0x0Fu8 == channel && (0x80u8 | channel) & 0x0Fu8 == channel) by (bit_vector)
        requires
            channel < 16,
    ;
    let on_bytes = [0x90u8 | channel, pitch, velocity];
    let off_bytes = [0x80u8 | channel, pitch, off];
    assert(on_bytes[0] == 0x90u8 | channel && on_bytes[1] == pitch && on_bytes[2] == velocity);
    assert(off_bytes[0] == 0x80u8 | channel && off_bytes[1] == pitch && off_bytes[2] == off);
    let on = t.heard((frame_on, on_bytes));
    let notes = t.notes[channel as int];
    let after = notes.push((pitch as i16, t.next_note_id));
    assert(on.tracker.notes[channel as int] == after);
    assert(newest(after, pitch as i16, after.len() as int) == Some(after.len() - 1));
    assert(after.remove(after.len() - 1) =~= notes);
    assert(t.notes.update(channel as int, after).update(channel as int, notes) =~= t.notes);
}

/// Whatever is played, there stays a list of notes for each channel.
pub proof fn hearing_keeps_channels(t: TrackerView, midi: Seq<MidiEvent>, count: int)
    requires
        t.wf(),
    ensures
        t.after(midi, count).wf(),
    decreases count,
{
    if count > 0 {
        hearing_keeps_channels(t, midi, count - 1);
        let first = (midi[count - 1].1)[0];
        assert(first & 0x0Fu8 < 16) by (bit_vector);
    }
}

/// No bundle is lost when bundles are put in order: each stands where it fits.
pub proof fn ordering_keeps_bundles(system: System, bundles: Seq<String>, search: Seq<char>)
    ensures
        search_order(system, bundles, search).len() == bundles.len(),
        forall|i: int| 0 <= i < bundles.len() ==> search_order(system, bundles, search).contains(#[trigger] bundles[i]),
{
    let n = bundles.len() as int;
    lemma_sifted(system, bundles, search, n);
    let yes = sifted(system, bundles, search, true, n);
    let no = sifted(system, bundles, search, false, n);
    assert forall|i: int| 0 <= i < bundles.len() implies search_order(system, bundles, search).contains(
        #[trigger] bundles[i],
    ) by {
        if likely(system, bundles[i]@, search) {
            let k = choose|k: int| 0 <= k < yes.len() && yes[k] == bundles[i];
            assert((yes + no)[k] == bundles[i]);
        } else {
            let k = choose|k: int| 0 <= k < no.len() && no[k] == bundles[i];
            assert((yes + no)[yes.len() + k] == bundles[i]);
        }
    }
}

proof fn lemma_sifted(system: System, bundles: Seq<String>, search: Seq<char>, count: int)
    requires
        0 <= count <= bundles.len(),
    ensures
        sifted(system, bundles, search, true, count).len() + sifted(system, bundles, search, false, count).len() == count,
        forall|i: int|
            0 <= i < count ==> sifted(system, bundles, search, likely(system, bundles[i]@, search), count).contains(
                #[trigger] bundles[i],
            ),
    decreases count,
{
    if count > 0 {
        lemma_sifted(system, bundles, search, count - 1);
        let last = bundles[count - 1];
        let here = likely(system, last@, search);
        let before = sifted(system, bundles, search, here, count - 1);
        let after = sifted(system, bundles, search, here, count);
        assert(after == before.push(last));
        assert(after[after.len() - 1] == last);
        assert forall|i: int| 0 <= i < count implies sifted(
            system,
            bundles,
            search,
            likely(system, bundles[i]@, search),
            count,
        ).contains(#[trigger] bundles[i]) by {
            if i < count - 1 {
                let list = sifted(system, bundles, search, likely(system, bundles[i]@, search), count - 1);
                assert(list.contains(bundles[i]));
                let k = choose|k: int| 0 <= k < list.len() && list[k] == bundles[i];
                assert(sifted(system, bundles, search, likely(system, bundles[i]@, search), count)[k] == bundles[i]);
            }
        }
    }
}

proof fn lemma_units_joined(a: Seq<char>, b: Seq<char>)
    ensures
        text_units(a + b) == text_units(a) + text_units(b),
    decreases b.len(),
{
    if b.len() == 0 {
        assert(a + b =~= a);
        assert(text_units(a) + text_units(b) =~= text_units(a));
    } else {
        assert((a + b).drop_last() =~= a + b.drop_last());
        lemma_units_joined(a, b.drop_last());
        assert(text_units(a) + text_units(b.drop_last()) + units_of(b.last()) =~= text_units(a) + text_units(b));
    }
}

/// The units of one character: one that is no surrogate, or a high and a low surrogate.
proof fn lemma_units_of(c: char)
    ensures
        ({
            let u = units_of(c);
            ||| u.len() == 1 && !(0xD800 <= u[0] <= 0xDFFF) && u[0] as char == c && (u[0] == 0 ==> c == '\0')
            ||| {
                &&& u.len() == 2
                &&& 0xD800 <= u[0] <= 0xDBFF
                &&& 0xDC00 <= u[1] <= 0xDFFF
                &&& (0x10000 + (u[0] - 0xD800) * 0x400 + (u[1] - 0xDC00)) as char == c
            }
        }),
{
    let code = c as u32;
    assert(code <= 0x10FFFF && !(0xD800 <= code <= 0xDFFF));
    if code >= 0x10000 {
        let over = code - 0x10000;
        assert(0 <= over / 0x400 < 0x400 && 0 <= over % 0x400 < 0x400);
        assert(over == over / 0x400 * 0x400 + over % 0x400);
    }
}

/// Reading the UTF-16 units of a text gives the text.
pub proof fn text_units_read_back(s: Seq<char>)
    ensures
        utf16_text(text_units(s)) == s,
    decreases s.len(),
{
    if s.len() > 0 {
        let c = s[0];
        let first = seq![c];
        let rest = s.drop_first();
        assert(s =~= first + rest);
        lemma_units_joined(first, rest);
        assert(first.drop_last() =~= Seq::empty());
        assert(text_units(first.drop_last()) =~= Seq::empty());
        assert(text_units(first) =~= units_of(c));
        let units = units_of(c) + text_units(rest);
        text_units_read_back(rest);
        lemma_units_of(c);
        assert(units.skip(units_of(c).len() as int) =~= text_units(rest));
    }
}

proof fn lemma_no_zero_unit(s: Seq<char>)
    requires
        forall|i: int| 0 <= i < s.len() ==> #[trigger] s[i] != '\0',
    ensures
        forall|i: int| 0 <= i < text_units(s).len() ==> #[trigger] text_units(s)[i] != 0,
    decreases s.len(),
{
    if s.len() > 0 {
        let init = s.drop_last();
        assert forall|i: int| 0 <= i < init.len() implies #[trigger] init[i] != '\0' by {
            assert(init[i] == s[i]);
        }
        lemma_no_zero_unit(init);
        assert(s[s.len() - 1] != '\0');
        lemma_units_of(s.last());
        let (before, last) = (text_units(init), units_of(s.last()));
        assert forall|i: int| 0 <= i < text_units(s).len() implies #[trigger] text_units(s)[i] != 0 by {
            if i < before.len() {
                assert(text_units(s)[i] == before[i]);
            } else {
                assert(text_units(s)[i] == last[i - before.len()]);
            }
        }
    }
}

proof fn lemma_until_zero(s: Seq<u16>, n: int)
    requires
        0 <= n < s.len(),
        s[n] == 0,
        forall|i: int| 0 <= i < n ==> #[trigger] s[i] != 0,
    ensures
        until_zero(s) == s.take(n),
    decreases n,
{
    if n == 0 {
        assert(s.take(0) =~= Seq::empty());
    } else {
        let rest = s.drop_first();
        assert forall|i: int| 0 <= i < n - 1 implies #[trigger] rest[i] != 0 by {
            assert(rest[i] == s[i + 1]);
        }
        lemma_until_zero(rest, n - 1);
        assert(seq![s[0]] + rest.take(n - 1) =~= s.take(n));
    }
}

/// A text that was put into a field is read back from it, where it holds no zero and its units leave
/// room for one.
pub proof fn field_reads_back(s: Seq<char>)
    requires
        text_units(s).len() <= 127,
        forall|i: int| 0 <= i < s.len() ==> #[trigger] s[i] != '\0',
    ensures
        utf16_text(until_zero(text_field(s))) == s,
{
    let units = text_units(s);
    let field = text_field(s);
    lemma_no_zero_unit(s);
    let n = units.len() as int;
    assert forall|i: int| 0 <= i < n implies #[trigger] field[i] != 0 by {
        assert(field[i] == units[i]);
    }
    lemma_until_zero(field, n);
    assert(field.take(n) =~= units);
    text_units_read_back(s);
}

} // verus!
