//! Note remapping for alternative tunings: single notes move to a target note on a MIDI channel of
//! their own, which a pitch bend tunes.
use vstd::prelude::*;

use std::collections::HashMap;
use crate::midi::{classify, message_kind, MessageKind, MidiEvent};
use crate::notes::{note_result, parse_note_name, parsed_note, NoteNameError};

verus! {

broadcast use vstd::std_specs::hash::group_hash_axioms;

/// How many distinct detunings there can be: one channel each, the first channel aside.
pub const MAX_DETUNES: usize = 15;

/// Where one note goes.
#[derive(Clone, Copy, Debug, PartialEq, Eq, Structural)]
pub struct RemapEntry {
    pub target_note: u8,
    pub channel: u8,
    pub pitch_bend_lsb: u8,
    pub pitch_bend_msb: u8,
}

/// Remaps single notes. A remapped note goes to its target note on one of the channels 2 to 16,
/// and a pitch bend on that channel follows its note-on. Other notes stay as they are.
#[derive(Debug)]
pub struct NoteRemapper {
    pub table: HashMap<u8, RemapEntry>,
}

impl View for NoteRemapper {
    type V = Map<u8, RemapEntry>;

    open spec fn view(&self) -> Map<u8, RemapEntry> {
        self.table@
    }
}

/// One requested remapping, with its detuning already measured against the pitch bend range.
#[derive(Debug)]
pub struct RemapRequest {
    /// Name of the note to remap.
    pub source: String,
    /// Name of the note to play.
    pub target: String,
    /// The detuning lies outside the pitch bend range.
    pub exceeds: bool,
    /// The pitch bend that the detuning asks for; 8192 is the centre.
    pub bend: i32,
}

/// Why a set of remappings cannot be had.
#[derive(Debug)]
pub enum RemapError {
    /// The detuning of this entry exceeds the pitch bend range.
    Exceeds { index: usize },
    /// There are more distinct detunings than channels.
    TooMany,
    /// A note name cannot be read.
    Note(NoteNameError),
}

impl RemapError {
    /// The kind of error in words.
    pub fn message(&self) -> (text: &'static str)
        ensures
            text@ == match self {
                RemapError::Exceeds { .. } => "detune exceeds pitch_bend_range"@,
                RemapError::TooMany => "too many distinct detune values (max 15, MIDI channels 2-16)"@,
                RemapError::Note(_) => "invalid note name"@,
            },
    {
        match self {
            RemapError::Exceeds { .. } => "detune exceeds pitch_bend_range",
            RemapError::TooMany => "too many distinct detune values (max 15, MIDI channels 2-16)",
            RemapError::Note(_) => "invalid note name",
        }
    }
}

// ---------------------------------------------------------------------------
// Building the table
// ---------------------------------------------------------------------------

/// The mathematical content of a [`RemapRequest`].
pub struct RequestView {
    pub source: Seq<char>,
    pub target: Seq<char>,
    pub exceeds: bool,
    pub bend: i32,
}

impl View for RemapRequest {
    type V = RequestView;

    open spec fn view(&self) -> RequestView {
        RequestView { source: self.source@, target: self.target@, exceeds: self.exceeds, bend: self.bend }
    }
}

/// Whether two requests have the same detuning, read from a table of comparisons.
pub open spec fn same_detune(close: Seq<Vec<bool>>, i: int, j: int) -> bool {
    close[i]@[j]
}

/// Whether `close` compares each of `n` requests with each.
pub open spec fn compares_all(close: Seq<Vec<bool>>, n: int) -> bool {
    &&& close.len() == n
    &&& forall|i: int| 0 <= i < n ==> (#[trigger] close[i])@.len() == n
}

/// The first of `groups`, from `from` on, whose detuning request `i` shares.
pub open spec fn group_of(close: Seq<Vec<bool>>, groups: Seq<usize>, i: int, from: int) -> Option<int>
    decreases groups.len() - from,
{
    if from >= groups.len() {
        None
    } else if same_detune(close, groups[from] as int, i) {
        Some(from)
    } else {
        group_of(close, groups, i, from + 1)
    }
}

/// Why the first `count` requests cannot be grouped, or the groups: one request for each distinct
/// detuning, in order of appearance.
pub enum Grouping {
    Groups(Seq<usize>),
    Exceeds(int),
    TooMany,
}

pub open spec fn grouped(requests: Seq<RemapRequest>, close: Seq<Vec<bool>>, count: int) -> Grouping
    decreases count,
{
    if count <= 0 {
        Grouping::Groups(Seq::empty())
    } else {
        match grouped(requests, close, count - 1) {
            Grouping::Groups(groups) => if requests[count - 1].exceeds {
                Grouping::Exceeds(count - 1)
            } else if group_of(close, groups, count - 1, 0) is Some {
                Grouping::Groups(groups)
            } else if groups.len() >= MAX_DETUNES {
                Grouping::TooMany
            } else {
                Grouping::Groups(groups.push((count - 1) as usize))
            },
            other => other,
        }
    }
}

/// A bend held within the fourteen bits that MIDI has for it.
pub open spec fn bend_clamped(bend: int) -> int {
    if bend < 0 {
        0
    } else if bend > 16383 {
        16383
    } else {
        bend
    }
}

/// The entry for a request that plays `target_note` in group `group`: groups have the channels from
/// the second on, the bend is split into two times seven bits.
pub open spec fn entry_for(target_note: u8, group: int, bend: i32) -> RemapEntry {
    RemapEntry {
        target_note,
        channel: (group + 1) as u8,
        pitch_bend_lsb: (bend_clamped(bend as int) % 128) as u8,
        pitch_bend_msb: (bend_clamped(bend as int) / 128) as u8,
    }
}

/// Whether both note names of a request can be read.
pub open spec fn readable(request: RemapRequest) -> bool {
    parsed_note(request.source@) is Ok && parsed_note(request.target@) is Ok
}

/// Whether the first `count` requests can all be read.
pub open spec fn readable_up_to(requests: Seq<RemapRequest>, count: int) -> bool {
    forall|k: int| 0 <= k < count ==> readable(#[trigger] requests[k])
}

/// Whether every request that gets as far as being entered shares the detuning of some group.
pub open spec fn entered_have_group(requests: Seq<RemapRequest>, close: Seq<Vec<bool>>, groups: Seq<usize>) -> bool {
    forall|i: int|
        0 <= i < requests.len() && #[trigger] readable_up_to(requests, i + 1) ==> group_of(close, groups, i, 0) is Some
}

/// The table after the first `count` requests, later ones overriding earlier ones.
pub open spec fn table_after(
    requests: Seq<RemapRequest>,
    close: Seq<Vec<bool>>,
    groups: Seq<usize>,
    count: int,
) -> Map<u8, RemapEntry>
    decreases count,
{
    if count <= 0 {
        Map::empty()
    } else {
        let r = requests[count - 1];
        table_after(requests, close, groups, count - 1).insert(
            parsed_note(r.source@)->Ok_0,
            entry_for(
                parsed_note(r.target@)->Ok_0,
                group_of(close, groups, count - 1, 0)->0,
                r.bend,
            ),
        )
    }
}

/// The first request, from `from` on, with a note name that cannot be read.
pub open spec fn first_unreadable(requests: Seq<RemapRequest>, from: int) -> Option<int>
    decreases requests.len() - from,
{
    if from >= requests.len() {
        None
    } else if !readable(requests[from]) {
        Some(from)
    } else {
        first_unreadable(requests, from + 1)
    }
}

/// What building a remapper gives.
pub open spec fn config_result(
    r: Result<NoteRemapper, RemapError>,
    requests: Seq<RemapRequest>,
    close: Seq<Vec<bool>>,
) -> bool {
    match grouped(requests, close, requests.len() as int) {
        Grouping::Exceeds(i) => r matches Err(RemapError::Exceeds { index }) && index == i,
        Grouping::TooMany => r matches Err(RemapError::TooMany),
        Grouping::Groups(groups) => match first_unreadable(requests, 0) {
            Some(i) => {
                let bad = if parsed_note(requests[i].source@) is Err {
                    requests[i].source@
                } else {
                    requests[i].target@
                };
                r matches Err(RemapError::Note(e)) && note_result(Err(e), bad)
            },
            None => r matches Ok(m) && m@ == table_after(requests, close, groups, requests.len() as int),
        },
    }
}

fn find_group(close: &Vec<Vec<bool>>, groups: &Vec<usize>, i: usize, n: usize) -> (group: Option<usize>)
    requires
        compares_all(close@, n as int),
        i < n,
        forall|k: int| 0 <= k < groups@.len() ==> #[trigger] groups@[k] < n,
    ensures
        match group {
            Some(g) => group_of(close@, groups@, i as int, 0) == Some(g as int) && g < groups@.len(),
            None => group_of(close@, groups@, i as int, 0) is None,
        },
{
    let count: usize = groups.len();
    let mut g: usize = 0;
    while g < count
        invariant
            g <= count,
            count == groups@.len(),
            compares_all(close@, n as int),
            i < n,
            forall|k: int| 0 <= k < groups@.len() ==> #[trigger] groups@[k] < n,
            group_of(close@, groups@, i as int, 0) == group_of(close@, groups@, i as int, g as int),
        decreases count - g,
    {
        if close[groups[g]][i] {
            return Some(g);
        }
        g = g + 1;
    }
    None
}

impl NoteRemapper {
    /// Builds a remapper from requests and a table that says which of them share a detuning.
    /// Each distinct detuning gets a channel, from the second on, in order of appearance.
    ///
    /// A request whose detuning is not even equal to itself has no channel; such a request must
    /// not get as far as being entered.
    pub fn from_config(requests: &Vec<RemapRequest>, close: &Vec<Vec<bool>>) -> (remapper: Result<
        NoteRemapper,
        RemapError,
    >)
        requires
            compares_all(close@, requests@.len() as int),
            grouped(requests@, close@, requests@.len() as int) matches Grouping::Groups(groups)
                ==> entered_have_group(requests@, close@, groups),
        ensures
            config_result(remapper, requests@, close@),
    {
        let n: usize = requests.len();
        let mut groups: Vec<usize> = Vec::new();
        let mut i: usize = 0;
        while i < n
            invariant
                i <= n,
                n == requests@.len(),
                compares_all(close@, n as int),
                groups@.len() <= MAX_DETUNES,
                forall|k: int| 0 <= k < groups@.len() ==> #[trigger] groups@[k] < n,
                grouped(requests@, close@, i as int) == Grouping::Groups(groups@),
            decreases n - i,
        {
            if requests[i].exceeds {
                proof {
                    lemma_grouping_stops(requests@, close@, i + 1, n as int);
                }
                return Err(RemapError::Exceeds { index: i });
            }
            if find_group(close, &groups, i, n).is_none() {
                if groups.len() >= MAX_DETUNES {
                    proof {
                        lemma_grouping_stops(requests@, close@, i + 1, n as int);
                    }
                    return Err(RemapError::TooMany);
                }
                groups.push(i);
            }
            i = i + 1;
        }
        let mut table: HashMap<u8, RemapEntry> = HashMap::new();
        let mut j: usize = 0;
        while j < n
            invariant
                j <= n,
                n == requests@.len(),
                compares_all(close@, n as int),
                groups@.len() <= MAX_DETUNES,
                forall|k: int| 0 <= k < groups@.len() ==> #[trigger] groups@[k] < n,
                grouped(requests@, close@, n as int) == Grouping::Groups(groups@),
                entered_have_group(requests@, close@, groups@),
                forall|k: int| 0 <= k < j ==> readable(#[trigger] requests@[k]),
                first_unreadable(requests@, 0) == first_unreadable(requests@, j as int),
                table@ == table_after(requests@, close@, groups@, j as int),
            decreases n - j,
        {
            let source_note: u8 = match parse_note_name(requests[j].source.as_str()) {
                Ok(note) => note,
                Err(e) => return Err(RemapError::Note(e)),
            };
            let target_note: u8 = match parse_note_name(requests[j].target.as_str()) {
                Ok(note) => note,
                Err(e) => return Err(RemapError::Note(e)),
            };
            assert(readable(requests@[j as int]));
            assert(readable_up_to(requests@, j + 1));
            if let Some(group) = find_group(close, &groups, j, n) {
                let bend: i32 = requests[j].bend;
                let held: u16 = if bend < 0 {
                    0
                } else if bend > 16383 {
                    16383
                } else {
                    bend as u16
                };
                table.insert(
                    source_note,
                    RemapEntry {
                        target_note,
                        channel: group as u8 + 1,
                        pitch_bend_lsb: (held % 128) as u8,
                        pitch_bend_msb: (held / 128) as u8,
                    },
                );
            }
            j = j + 1;
        }
        Ok(NoteRemapper { table })
    }
}

/// Once grouping has failed it stays failed.
proof fn lemma_grouping_stops(requests: Seq<RemapRequest>, close: Seq<Vec<bool>>, i: int, n: int)
    requires
        i <= n,
        !(grouped(requests, close, i) is Groups),
    ensures
        grouped(requests, close, n) == grouped(requests, close, i),
    decreases n - i,
{
    if i < n {
        lemma_grouping_stops(requests, close, i, n - 1);
    }
}

// ---------------------------------------------------------------------------
// Remapping events
// ---------------------------------------------------------------------------

/// What becomes of one event.
pub open spec fn remapped_event(table: Map<u8, RemapEntry>, event: MidiEvent) -> Seq<MidiEvent> {
    let (frame, bytes) = event;
    let kind = message_kind(bytes);
    if kind == MessageKind::Other || !table.dom().contains(bytes[1]) {
        seq![event]
    } else {
        let e = table[bytes[1]];
        if kind == MessageKind::NoteOn {
            seq![
                (frame, [0x90u8 | e.channel, e.target_note, bytes[2]]),
                (frame, [0xE0u8 | e.channel, e.pitch_bend_lsb, e.pitch_bend_msb]),
            ]
        } else {
            seq![(frame, [(bytes[0] & 0xF0u8) | e.channel, e.target_note, bytes[2]])]
        }
    }
}

/// What becomes of a run of events.
pub open spec fn remapped_events(table: Map<u8, RemapEntry>, events: Seq<MidiEvent>) -> Seq<MidiEvent>
    decreases events.len(),
{
    if events.len() == 0 {
        Seq::empty()
    } else {
        remapped_events(table, events.drop_last()) + remapped_event(table, events.last())
    }
}

impl NoteRemapper {
    /// Remaps events into `output`, which is emptied first. A remapped note-on is followed by the
    /// pitch bend of its channel; a remapped note-off goes to the same note and channel; all else
    /// passes through.
    pub fn remap_events(&self, input: &[MidiEvent], output: &mut Vec<MidiEvent>)
        ensures
            final(output)@ == remapped_events(self@, input@),
    {
        output.clear();
        let n: usize = input.len();
        let mut i: usize = 0;
        while i < n
            invariant
                i <= n,
                n == input@.len(),
                output@ == remapped_events(self@, input@.take(i as int)),
            decreases n - i,
        {
            let (frame, bytes) = input[i];
            let ghost before = output@;
            proof {
                assert(input@.take(i + 1).drop_last() =~= input@.take(i as int));
            }
            let kind = classify(bytes);
            match kind {
                MessageKind::Other => {
                    output.push((frame, bytes));
                },
                _ => {
                    match self.table.get(&bytes[1]) {
                        Some(entry) => {
                            if kind == MessageKind::NoteOn {
                                output.push((frame, [0x90 | entry.channel, entry.target_note, bytes[2]]));
                                output.push(
                                    (
                                        frame,
                                        [0xE0 | entry.channel, entry.pitch_bend_lsb, entry.pitch_bend_msb],
                                    ),
                                );
                            } else {
                                output.push(
                                    (
                                        frame,
                                        [(bytes[0] & 0xF0) | entry.channel, entry.target_note, bytes[2]],
                                    ),
                                );
                            }
                        },
                        None => {
                            output.push((frame, bytes));
                        },
                    }
                },
            }
            assert(output@ =~= before + remapped_event(self@, input@[i as int]));
            i = i + 1;
        }
        proof {
            assert(input@.take(n as int) =~= input@);
        }
    }
}

// ---------------------------------------------------------------------------
// Laws
// ---------------------------------------------------------------------------

/// An event that starts or ends no remapped note passes through unchanged.
pub proof fn other_events_pass_through(table: Map<u8, RemapEntry>, event: MidiEvent)
    requires
        message_kind(event.1) == MessageKind::Other || !table.dom().contains(event.1[1]),
    ensures
        remapped_event(table, event) == seq![event],
{
}

/// A remapper without entries changes nothing.
pub proof fn empty_table_is_identity(events: Seq<MidiEvent>)
    ensures
        remapped_events(Map::empty(), events) == events,
    decreases events.len(),
{
    if events.len() > 0 {
        empty_table_is_identity(events.drop_last());
        assert(remapped_events(Map::empty(), events) =~= events);
    }
}

/// Remapping moves no event in time: what an event becomes stands at the event's frame.
pub proof fn remapping_keeps_frames(table: Map<u8, RemapEntry>, event: MidiEvent, k: int)
    requires
        0 <= k < remapped_event(table, event).len(),
    ensures
        remapped_event(table, event)[k].0 == event.0,
{
}

/// A note-on and the note-off for the same key reach the same note on the same channel.
pub proof fn note_off_follows_note_on(table: Map<u8, RemapEntry>, on: MidiEvent, off: MidiEvent)
    requires
        message_kind(on.1) == MessageKind::NoteOn,
        message_kind(off.1) == MessageKind::NoteOff,
        on.1[1] == off.1[1],
        table.dom().contains(on.1[1]),
        table[on.1[1]].channel < 16,
    ensures
        remapped_event(table, on)[0].1[1] == remapped_event(table, off)[0].1[1],
        remapped_event(table, on)[0].1[0] & 0x0Fu8 == remapped_event(table, off)[0].1[0] & 0x0Fu8,
        message_kind(remapped_event(table, off)[0].1) == MessageKind::NoteOff,
{
    let c: u8 = table[on.1[1]].channel;
    let status: u8 = off.1[0];
    assert((0x90u8 | c) & 0x0Fu8 == ((status & 0xF0u8) | c) & 0x0Fu8 && ((status & 0xF0u8) | c) & 0xF0u8 == status
        & 0xF0u8) by (bit_vector)
        requires
            c < 16,
    ;
}

proof fn lemma_group_of_bound(close: Seq<Vec<bool>>, groups: Seq<usize>, i: int, from: int)
    requires
        0 <= from,
    ensures
        group_of(close, groups, i, from) matches Some(g) ==> from <= g < groups.len() && same_detune(
            close,
            groups[g] as int,
            i,
        ),
    decreases groups.len() - from,
{
    if from < groups.len() && !same_detune(close, groups[from] as int, i) {
        lemma_group_of_bound(close, groups, i, from + 1);
    }
}

/// Every entry is fit to be sent: its channel is one of the channels 2 to 16, its note and bend
/// bytes are MIDI data bytes.
pub proof fn entries_are_midi(
    requests: Seq<RemapRequest>,
    close: Seq<Vec<bool>>,
    groups: Seq<usize>,
    count: int,
    note: u8,
)
    requires
        0 <= count <= requests.len(),
        groups.len() <= MAX_DETUNES,
        readable_up_to(requests, count),
        entered_have_group(requests, close, groups),
        table_after(requests, close, groups, count).dom().contains(note),
    ensures
        ({
            let e = table_after(requests, close, groups, count)[note];
            1 <= e.channel <= 15 && e.target_note <= 127 && e.pitch_bend_lsb <= 127 && e.pitch_bend_msb <= 127
        }),
    decreases count,
{
    if count > 0 {
        let r = requests[count - 1];
        assert(readable_up_to(requests, (count - 1) + 1));
        assert(readable(r));
        lemma_group_of_bound(close, groups, count - 1, 0);
        if note != parsed_note(r.source@)->Ok_0 {
            assert(readable_up_to(requests, count - 1));
            entries_are_midi(requests, close, groups, count - 1, note);
        }
    }
}

/// Requests of one group share a channel, requests of different groups do not.
pub proof fn channels_follow_groups(a: u8, b: u8, group_a: int, group_b: int, bend_a: i32, bend_b: i32)
    requires
        0 <= group_a < MAX_DETUNES,
        0 <= group_b < MAX_DETUNES,
    ensures
        entry_for(a, group_a, bend_a).channel == entry_for(b, group_b, bend_b).channel <==> group_a == group_b,
{
}

} // verus!
