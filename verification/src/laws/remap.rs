//! Laws of note remapping.
use vstd::prelude::*;

use crate::laws::midi::kinds_are_status_ranges;
use crate::midi::MidiEvent;
use crate::notes::parsed_note;
use crate::remap::{
    compares_all, config_result, first_unreadable, group_of, grouped, readable, remapped_event,
     remapped_events, same_detune, table_after, Grouping, NoteRemapper, RemapEntry, RemapError,
    RemapRequest,
};

verus! {

// ---------------------------------------------------------------------------
// Which requests can be met
// ---------------------------------------------------------------------------

proof fn lemma_first_unreadable(requests: Seq<RemapRequest>, from: int)
    requires
        0 <= from,
    ensures
        match first_unreadable(requests, from) {
            Some(i) => from <= i < requests.len() && !readable(requests[i]) && forall|k: int|
                from <= k < i ==> readable(#[trigger] requests[k]),
            None => forall|k: int| from <= k < requests.len() ==> readable(#[trigger] requests[k]),
        },
    decreases requests.len() - from,
{
    if from < requests.len() && readable(requests[from]) {
        lemma_first_unreadable(requests, from + 1);
    }
}

proof fn lemma_grouped(requests: Seq<RemapRequest>, close: Seq<Vec<bool>>, count: int)
    requires
        0 <= count <= requests.len(),
    ensures
        match grouped(requests, close, count) {
            Grouping::Groups(groups) => {
                &&& groups.len() <= count
                &&& groups.len() <= 15
                &&& forall|k: int| 0 <= k < count ==> !(#[trigger] requests[k]).exceeds
                &&& count <= usize::MAX ==> forall|k: int| 0 <= k < groups.len() ==> #[trigger] groups[k] < count
            },
            Grouping::Exceeds(i) => 0 <= i < count && requests[i].exceeds && forall|k: int|
                0 <= k < i ==> !(#[trigger] requests[k]).exceeds,
            Grouping::TooMany => count > 15,
        },
    decreases count,
{
    if count > 0 {
        lemma_grouped(requests, close, count - 1);
    }
}

/// Requests are met only if every detuning lies within the pitch bend range and every note name
/// can be read; a detuning that does not is reported with the first such request.
pub proof fn met_requests_are_in_range(
    r: Result<NoteRemapper, RemapError>,
    requests: Seq<RemapRequest>,
    close: Seq<Vec<bool>>,
)
    requires
        config_result(r, requests, close),
    ensures
        r is Ok ==> forall|k: int|
            0 <= k < requests.len() ==> !(#[trigger] requests[k]).exceeds && parsed_note(requests[k].source@) is Ok
                && parsed_note(requests[k].target@) is Ok,
        r matches Err(RemapError::Exceeds { index }) ==> index < requests.len() && requests[index as int].exceeds
            && forall|k: int| 0 <= k < index ==> !(#[trigger] requests[k]).exceeds,
        r matches Err(RemapError::TooMany) ==> requests.len() > 15,
        r matches Err(RemapError::Note(_)) ==> (forall|k: int|
            0 <= k < requests.len() ==> !(#[trigger] requests[k]).exceeds) && exists|k: int|
            0 <= k < requests.len() && (parsed_note((#[trigger] requests[k]).source@) is Err || parsed_note(
                requests[k].target@,
            ) is Err),
{
    lemma_grouped(requests, close, requests.len() as int);
    lemma_first_unreadable(requests, 0);
    match first_unreadable(requests, 0) {
        Some(i) => {
            assert(!readable(requests[i]));
        },
        None => {
            assert forall|k: int| 0 <= k < requests.len() implies parsed_note((#[trigger] requests[k]).source@) is Ok
                && parsed_note(requests[k].target@) is Ok by {
                assert(readable(requests[k]));
            }
        },
    }
}

/// Up to fifteen requests with readable names and detunings in range are always met.
pub proof fn ordinary_requests_are_met(
    r: Result<NoteRemapper, RemapError>,
    requests: Seq<RemapRequest>,
    close: Seq<Vec<bool>>,
)
    requires
        config_result(r, requests, close),
        requests.len() <= 15,
        forall|k: int|
            0 <= k < requests.len() ==> !(#[trigger] requests[k]).exceeds && parsed_note(requests[k].source@) is Ok
                && parsed_note(requests[k].target@) is Ok,
    ensures
        r is Ok,
{
    met_requests_are_in_range(r, requests, close);
}

// ---------------------------------------------------------------------------
// What a remapped note becomes
// ---------------------------------------------------------------------------

proof fn lemma_group_found(close: Seq<Vec<bool>>, groups: Seq<usize>, i: int, from: int)
    requires
        0 <= from,
    ensures
        match group_of(close, groups, i, from) {
            Some(g) => from <= g < groups.len() && same_detune(close, groups[g] as int, i) && forall|k: int|
                from <= k < g ==> !same_detune(close, #[trigger] groups[k] as int, i),
            None => forall|k: int| from <= k < groups.len() ==> !same_detune(close, #[trigger] groups[k] as int, i),
        },
    decreases groups.len() - from,
{
    if from < groups.len() && !same_detune(close, groups[from] as int, i) {
        lemma_group_found(close, groups, i, from + 1);
    }
}

proof fn lemma_last_request_stands(
    requests: Seq<RemapRequest>,
    close: Seq<Vec<bool>>,
    groups: Seq<usize>,
    count: int,
    j: int,
    note: u8,
)
    requires
        0 <= j < count <= requests.len(),
        parsed_note(requests[j].source@) is Ok && parsed_note(requests[j].source@)->Ok_0 == note,
        parsed_note(requests[j].target@) is Ok,
        forall|k: int| j < k < count ==> parsed_note((#[trigger] requests[k]).source@)->Ok_0 != note,
        group_of(close, groups, j, 0) is Some,
        groups.len() <= 15,
    ensures
        ({
            let table = table_after(requests, close, groups, count);
            let e = table[note];
            let bend = requests[j].bend;
            &&& table.dom().contains(note)
            &&& e.target_note == parsed_note(requests[j].target@)->Ok_0
            &&& e.channel == group_of(close, groups, j, 0)->0 + 1
            &&& 1 <= e.channel <= 15
            &&& e.pitch_bend_lsb <= 127 && e.pitch_bend_msb <= 127
            &&& e.pitch_bend_lsb + 128 * e.pitch_bend_msb == if bend < 0 {
                0
            } else if bend > 16383 {
                16383
            } else {
                bend as int
            }
        }),
    decreases count,
{
    lemma_group_found(close, groups, j, 0);
    if j < count - 1 {
        lemma_last_request_stands(requests, close, groups, count - 1, j, note);
        assert(parsed_note(requests[count - 1].source@)->Ok_0 != note);
    }
}

proof fn lemma_or_is_plus(status: u8, channel: u8)
    requires
        channel < 16,
    ensures
        0x90u8 | channel == 0x90 + channel,
        0xE0u8 | channel == 0xE0 + channel,
        (status & 0xF0u8) | channel == (status & 0xF0u8) + channel,
        0x80 <= status <= 0x8F ==> status & 0xF0u8 == 0x80u8,
        0x90 <= status <= 0x9F ==> status & 0xF0u8 == 0x90u8,
{
    assert(0x90u8 | channel == 0x90u8 + channel && 0xE0u8 | channel == 0xE0u8 + channel && (status & 0xF0u8) | channel
        == (status & 0xF0u8) + channel) by (bit_vector)
        requires
            channel < 16,
    ;
    assert((0x80u8 <= status && status <= 0x8Fu8 ==> status & 0xF0u8 == 0x80u8) && (0x90u8 <= status && status <= 0x9Fu8
        ==> status & 0xF0u8 == 0x90u8)) by (bit_vector);
}

/// A note-on for a remapped key goes to the note asked for, at its velocity, on a channel from the
/// second on, and is followed by a pitch bend on the same channel. The bend carries what was asked,
/// held within fourteen bits: its first data byte counts ones, its second counts 128s. The note-off
/// goes to the same note on the same channel and stays a note-off. Of several requests for one key
/// the last counts.
pub proof fn remapped_notes_carry_their_requests(
    r: Result<NoteRemapper, RemapError>,
    requests: Seq<RemapRequest>,
    close: Seq<Vec<bool>>,
    j: int,
    on: MidiEvent,
    off: MidiEvent,
)
    requires
        config_result(r, requests, close),
        r is Ok,
        compares_all(close, requests.len() as int),
        forall|k: int| 0 <= k < requests.len() ==> same_detune(close, k, k),
        requests.len() <= usize::MAX,
        0 <= j < requests.len(),
        parsed_note(requests[j].source@) is Ok,
        forall|k: int|
            j < k < requests.len() ==> parsed_note((#[trigger] requests[k]).source@) != parsed_note(
                requests[j].source@,
            ),
        0x90 <= on.1[0] <= 0x9F && on.1[2] > 0,
        0x80 <= off.1[0] <= 0x8F || (0x90 <= off.1[0] <= 0x9F && off.1[2] == 0),
        on.1[1] == parsed_note(requests[j].source@)->Ok_0,
        off.1[1] == on.1[1],
    ensures
        ({
            let table = r->Ok_0@;
            let down = remapped_events(table, seq![on]);
            let up = remapped_events(table, seq![off]);
            let bend = requests[j].bend;
            let channel = down[0].1[0] - 0x90;
            let target = parsed_note(requests[j].target@);
            &&& down.len() == 2
            &&& 1 <= channel <= 15
            &&& down[0].0 == on.0 && down[1].0 == on.0
            &&& target is Ok && down[0].1[1] == target->Ok_0
            &&& down[0].1[2] == on.1[2]
            &&& down[1].1[0] == 0xE0 + channel
            &&& down[1].1[1] <= 127 && down[1].1[2] <= 127
            &&& down[1].1[1] + 128 * down[1].1[2] == if bend < 0 {
                0
            } else if bend > 16383 {
                16383
            } else {
                bend as int
            }
            &&& up.len() == 1
            &&& up[0].0 == off.0
            &&& up[0].1[0] == channel + if off.1[0] <= 0x8F {
                0x80int
            } else {
                0x90
            }
            &&& up[0].1[1] == target->Ok_0
            &&& up[0].1[2] == off.1[2]
        }),
{
    let n = requests.len() as int;
    let note = on.1[1];
    met_requests_are_in_range(r, requests, close);
    lemma_grouped(requests, close, n);
    lemma_first_unreadable(requests, 0);
    let groups = grouped(requests, close, n)->Groups_0;
    lemma_every_request_has_a_group(requests, close, n, j);
    assert forall|k: int| j < k < n implies parsed_note((#[trigger] requests[k]).source@)->Ok_0 != note by {
        assert(parsed_note(requests[k].source@) is Ok);
        assert(parsed_note(requests[k].source@) != parsed_note(requests[j].source@));
    }
    assert(parsed_note(requests[j].target@) is Ok);
    lemma_last_request_stands(requests, close, groups, n, j, note);
    lemma_entry_sounds(r->Ok_0@, on, off);
}

proof fn lemma_entry_sounds(table: Map<u8, RemapEntry>, on: MidiEvent, off: MidiEvent)
    requires
        table.dom().contains(on.1[1]),
        1 <= table[on.1[1]].channel <= 15,
        0x90 <= on.1[0] <= 0x9F && on.1[2] > 0,
        0x80 <= off.1[0] <= 0x8F || (0x90 <= off.1[0] <= 0x9F && off.1[2] == 0),
        off.1[1] == on.1[1],
    ensures
        ({
            let e = table[on.1[1]];
            let down = remapped_events(table, seq![on]);
            let up = remapped_events(table, seq![off]);
            &&& down.len() == 2
            &&& down[0].0 == on.0 && down[1].0 == on.0
            &&& down[0].1[0] == 0x90 + e.channel
            &&& down[0].1[1] == e.target_note
            &&& down[0].1[2] == on.1[2]
            &&& down[1].1[0] == 0xE0 + e.channel
            &&& down[1].1[1] == e.pitch_bend_lsb
            &&& down[1].1[2] == e.pitch_bend_msb
            &&& up.len() == 1
            &&& up[0].0 == off.0
            &&& up[0].1[0] == e.channel + if off.1[0] <= 0x8F {
                0x80int
            } else {
                0x90
            }
            &&& up[0].1[1] == e.target_note
            &&& up[0].1[2] == off.1[2]
        }),
{
    kinds_are_status_ranges(on.1);
    kinds_are_status_ranges(off.1);
    lemma_or_is_plus(off.1[0], table[on.1[1]].channel);
    assert(seq![on].drop_last() =~= Seq::<MidiEvent>::empty());
    assert(seq![off].drop_last() =~= Seq::<MidiEvent>::empty());
    reveal_with_fuel(remapped_events, 2);
    assert(remapped_events(table, seq![on]) =~= remapped_event(table, on));
    assert(remapped_events(table, seq![off]) =~= remapped_event(table, off));
}

proof fn lemma_every_request_has_a_group(requests: Seq<RemapRequest>, close: Seq<Vec<bool>>, count: int, j: int)
    requires
        0 <= j < count <= requests.len() <= usize::MAX,
        grouped(requests, close, count) is Groups,
        forall|k: int| 0 <= k < requests.len() ==> same_detune(close, k, k),
    ensures
        group_of(close, grouped(requests, close, count)->Groups_0, j, 0) is Some,
        j == count - 1 || group_of(close, grouped(requests, close, count)->Groups_0, j, 0) == group_of(
            close,
            grouped(requests, close, count - 1)->Groups_0,
            j,
            0,
        ),
    decreases count,
{
    let groups = grouped(requests, close, count)->Groups_0;
    let before = grouped(requests, close, count - 1)->Groups_0;
    lemma_group_found(close, groups, j, 0);
    lemma_group_found(close, before, j, 0);
    if j < count - 1 {
        lemma_every_request_has_a_group(requests, close, count - 1, j);
        let g = group_of(close, before, j, 0)->0;
        assert(groups[g] == before[g]);
        assert(same_detune(close, groups[g] as int, j));
        let h = group_of(close, groups, j, 0)->0;
        if h < g {
            assert(groups[h] == before[h]);
        }
    } else {
        if group_of(close, before, j, 0) is None {
            assert(groups[groups.len() - 1] == j);
            assert(same_detune(close, j, j));
        }
    }
}

/// Whether a table of comparisons is that of an equality: everything equals itself, and what equals
/// the same equals each other.
pub open spec fn compares_as_equal(close: Seq<Vec<bool>>, n: int) -> bool {
    &&& forall|i: int| 0 <= i < n ==> #[trigger] same_detune(close, i, i)
    &&& forall|i: int, j: int, k: int|
        #![trigger same_detune(close, i, j), same_detune(close, i, k)]
        0 <= i < n && 0 <= j < n && 0 <= k < n && same_detune(close, i, j) ==> same_detune(close, i, k)
            == same_detune(close, j, k)
}

proof fn lemma_groups_differ(requests: Seq<RemapRequest>, close: Seq<Vec<bool>>, count: int)
    requires
        0 <= count <= requests.len() <= usize::MAX,
        grouped(requests, close, count) is Groups,
    ensures
        ({
            let groups = grouped(requests, close, count)->Groups_0;
            &&& forall|a: int, b: int|
                0 <= a < b < groups.len() ==> !same_detune(
                    close,
                    #[trigger] groups[a] as int,
                    #[trigger] groups[b] as int,
                )
            &&& forall|k: int| 0 <= k < groups.len() ==> #[trigger] groups[k] < count
        }),
    decreases count,
{
    if count > 0 {
        lemma_groups_differ(requests, close, count - 1);
        let before = grouped(requests, close, count - 1)->Groups_0;
        lemma_group_found(close, before, count - 1, 0);
    }
}

/// Requests share a channel exactly when they share a detuning.
pub proof fn channels_are_shared_by_detuning(
    requests: Seq<RemapRequest>,
    close: Seq<Vec<bool>>,
    i: int,
    j: int,
)
    requires
        requests.len() <= usize::MAX,
        grouped(requests, close, requests.len() as int) is Groups,
        compares_as_equal(close, requests.len() as int),
        0 <= i < requests.len(),
        0 <= j < requests.len(),
    ensures
        ({
            let groups = grouped(requests, close, requests.len() as int)->Groups_0;
            group_of(close, groups, i, 0) == group_of(close, groups, j, 0) <==> same_detune(close, i, j)
        }),
{
    let n = requests.len() as int;
    let groups = grouped(requests, close, n)->Groups_0;
    lemma_every_request_has_a_group(requests, close, n, i);
    lemma_every_request_has_a_group(requests, close, n, j);
    lemma_group_found(close, groups, i, 0);
    lemma_group_found(close, groups, j, 0);
    lemma_groups_differ(requests, close, n);
    let a = group_of(close, groups, i, 0)->0;
    let b = group_of(close, groups, j, 0)->0;
    let x = groups[a] as int;
    let y = groups[b] as int;
    assert(x < n && y < n);
    assert(same_detune(close, x, i));
    assert(same_detune(close, y, j));
    assert(same_detune(close, x, x));
    assert(same_detune(close, y, y));
    assert(same_detune(close, i, i));
    assert(same_detune(close, j, j));
    assert(same_detune(close, x, j) == same_detune(close, i, j));
    if a == b {
        assert(same_detune(close, x, j));
    } else if same_detune(close, i, j) {
        assert(same_detune(close, x, j));
        assert(same_detune(close, x, y) == same_detune(close, j, y));
        assert(same_detune(close, y, x) == same_detune(close, j, x));
        assert(same_detune(close, y, j) ==> same_detune(close, y, y) == same_detune(close, j, y));
        if a < b {
            assert(!same_detune(close, groups[a] as int, groups[b] as int));
        } else {
            assert(same_detune(close, x, j) ==> same_detune(close, x, x) == same_detune(close, j, x));
            assert(!same_detune(close, groups[b] as int, groups[a] as int));
        }
    }
}

/// The first detuning has the second MIDI channel, and each detuning that is new has the channel
/// after the last one given.
pub proof fn channels_are_given_in_order(requests: Seq<RemapRequest>, close: Seq<Vec<bool>>, count: int)
    requires
        0 < count <= requests.len() <= usize::MAX,
        grouped(requests, close, count) is Groups,
        forall|k: int| 0 <= k < requests.len() ==> same_detune(close, k, k),
    ensures
        ({
            let before = grouped(requests, close, count - 1)->Groups_0;
            let groups = grouped(requests, close, count)->Groups_0;
            let group = group_of(close, groups, count - 1, 0)->0;
            &&& grouped(requests, close, count - 1) is Groups
            &&& if exists|k: int| 0 <= k < before.len() && same_detune(close, #[trigger] before[k] as int, count - 1) {
                groups == before && group < before.len()
            } else {
                groups == before.push((count - 1) as usize) && group == before.len()
            }
            &&& count == 1 ==> group == 0
        }),
{
    let before = grouped(requests, close, count - 1)->Groups_0;
    let groups = grouped(requests, close, count)->Groups_0;
    lemma_group_found(close, before, count - 1, 0);
    lemma_group_found(close, groups, count - 1, 0);
    lemma_every_request_has_a_group(requests, close, count, count - 1);
    let group = group_of(close, groups, count - 1, 0)->0;
    if group_of(close, before, count - 1, 0) is None {
        if group < before.len() {
            assert(groups[group] == before[group]);
        }
    } else {
        let g = group_of(close, before, count - 1, 0)->0;
        assert(same_detune(close, before[g] as int, count - 1));
    }
}

proof fn lemma_table_keys(
    requests: Seq<RemapRequest>,
    close: Seq<Vec<bool>>,
    groups: Seq<usize>,
    count: int,
    note: u8,
)
    requires
        0 <= count <= requests.len(),
        forall|k: int| 0 <= k < count ==> parsed_note((#[trigger] requests[k]).source@) is Ok,
    ensures
        table_after(requests, close, groups, count).dom().contains(note) <==> exists|k: int|
            0 <= k < count && parsed_note((#[trigger] requests[k]).source@)->Ok_0 == note,
    decreases count,
{
    if count > 0 {
        lemma_table_keys(requests, close, groups, count - 1, note);
        let last = requests[count - 1];
        if parsed_note(last.source@)->Ok_0 == note {
            assert(parsed_note(requests[count - 1].source@)->Ok_0 == note);
        }
    }
}

/// Only keys that were asked for are remapped.
pub proof fn only_requested_keys_are_remapped(
    r: Result<NoteRemapper, RemapError>,
    requests: Seq<RemapRequest>,
    close: Seq<Vec<bool>>,
    event: MidiEvent,
)
    requires
        config_result(r, requests, close),
        r is Ok,
        event.1[0] < 0x80 || event.1[0] > 0x9F || forall|k: int|
            0 <= k < requests.len() ==> parsed_note((#[trigger] requests[k]).source@)->Ok_0 != event.1[1],
    ensures
        remapped_events(r->Ok_0@, seq![event]) == seq![event],
{
    met_requests_are_in_range(r, requests, close);
    lemma_grouped(requests, close, requests.len() as int);
    lemma_first_unreadable(requests, 0);
    let groups = grouped(requests, close, requests.len() as int)->Groups_0;
    lemma_table_keys(requests, close, groups, requests.len() as int, event.1[1]);
    kinds_are_status_ranges(event.1);
    assert(seq![event].drop_last() =~= Seq::<MidiEvent>::empty());
    reveal_with_fuel(remapped_events, 2);
    assert(remapped_events(r->Ok_0@, seq![event]) =~= seq![event]);
}

/// Events are remapped one by one, in order: what a buffer becomes is what its parts become, one
/// after the other.
pub proof fn events_are_remapped_in_order(table: Map<u8, RemapEntry>, a: Seq<MidiEvent>, b: Seq<MidiEvent>)
    ensures
        remapped_events(table, Seq::empty()).len() == 0,
        remapped_events(table, a + b) == remapped_events(table, a) + remapped_events(table, b),
    decreases b.len(),
{
    if b.len() == 0 {
        assert(a + b =~= a);
        assert(remapped_events(table, a) + remapped_events(table, b) =~= remapped_events(table, a));
    } else {
        events_are_remapped_in_order(table, a, b.drop_last());
        assert((a + b).drop_last() =~= a + b.drop_last());
        assert(remapped_events(table, a + b) =~= remapped_events(table, a) + remapped_events(table, b));
    }
}

} // verus!
