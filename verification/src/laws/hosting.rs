//! Laws of the plugin formats: events, voices, parameters and presets.
use vstd::prelude::*;

use crate::builtin::{due_count, still_sounding, voice_of, voiced, voiced_run, Voice, VoiceState};
use crate::formats::clap::{channel_sum, plugin_with_id, preset_choice, told, LoadFault, PresetData};
use crate::formats::lv2::{port_param, port_values, port_with, preset_with, ControlPort};
use crate::formats::vst3::{
    newest, program_choice, program_param, queued, shown_ids, shown_params, TrackerView,
};
use crate::laws::midi::kinds_are_status_ranges;
use crate::midi::MidiEvent;
use crate::plugin::Preset;
use crate::text::usize_value;

verus! {

// ---------------------------------------------------------------------------
// VST3 events
// ---------------------------------------------------------------------------

proof fn lemma_status(status: u8)
    ensures
        (status & 0xF0u8) == 0x90u8 <==> 0x90 <= status <= 0x9F,
        (status & 0xF0u8) == 0x80u8 <==> 0x80 <= status <= 0x8F,
        (status & 0xF0u8) == 0xE0u8 <==> 0xE0 <= status <= 0xEF,
        (status & 0xF0u8) == 0xB0u8 <==> 0xB0 <= status <= 0xBF,
        status & 0x0Fu8 == status % 16,
{
    assert(((status & 0xF0u8) == 0x90u8 <==> 0x90u8 <= status && status <= 0x9Fu8) && ((status & 0xF0u8) == 0x80u8
        <==> 0x80u8 <= status && status <= 0x8Fu8) && ((status & 0xF0u8) == 0xE0u8 <==> 0xE0u8 <= status && status
        <= 0xEFu8) && ((status & 0xF0u8) == 0xB0u8 <==> 0xB0u8 <= status && status <= 0xBFu8) && status & 0x0Fu8
        == status % 16) by (bit_vector);
}

/// A note-on reaches a plugin on its channel, with its pitch, velocity and frame, under an
/// identifier that is remembered for its note-off; the next note gets the next identifier.
pub proof fn note_ons_are_told_and_remembered(t: TrackerView, e: MidiEvent)
    requires
        t.wf(),
        0x90 <= e.1[0] <= 0x9F,
        e.1[2] > 0,
        e.0 <= i32::MAX,
        t.next_note_id < i32::MAX,
    ensures
        ({
            let h = t.heard(e);
            let ch = e.1[0] - 0x90;
            let n = h.event->0;
            &&& h.event is Some && n is NoteOn && h.change is None
            &&& n->NoteOn_channel == ch
            &&& n->NoteOn_pitch == e.1[1]
            &&& n->NoteOn_velocity == e.1[2]
            &&& n->NoteOn_offset == e.0
            &&& n->NoteOn_note_id == t.next_note_id
            &&& h.tracker.next_note_id == t.next_note_id + 1
            &&& h.tracker.notes.len() == 16
            &&& h.tracker.notes[ch] == t.notes[ch].push((e.1[1] as i16, t.next_note_id))
            &&& forall|c: int| 0 <= c < 16 && c != ch ==> #[trigger] h.tracker.notes[c] == t.notes[c]
            &&& h.tracker.map == t.map
        }),
{
    lemma_status(e.1[0]);
}

proof fn lemma_newest(notes: Seq<(i16, i32)>, pitch: i16, count: int)
    requires
        0 <= count <= notes.len(),
    ensures
        match newest(notes, pitch, count) {
            Some(i) => 0 <= i < count && notes[i].0 == pitch && forall|k: int|
                i < k < count ==> (#[trigger] notes[k]).0 != pitch,
            None => forall|k: int| 0 <= k < count ==> (#[trigger] notes[k]).0 != pitch,
        },
    decreases count,
{
    if count > 0 && notes[count - 1].0 != pitch {
        lemma_newest(notes, pitch, count - 1);
    }
}

/// A note-off carries the identifier of the newest note of its pitch on its channel, which is then
/// forgotten; where none sounds it has none, and nothing is forgotten.
pub proof fn note_offs_end_the_newest_note(t: TrackerView, e: MidiEvent, i: int)
    requires
        t.wf(),
        0x80 <= e.1[0] <= 0x8F || (0x90 <= e.1[0] <= 0x9F && e.1[2] == 0),
        e.0 <= i32::MAX,
    ensures
        ({
            let h = t.heard(e);
            let ch = e.1[0] % 16;
            let notes = t.notes[ch as int];
            let n = h.event->0;
            let latest = 0 <= i < notes.len() && notes[i].0 == e.1[1] && forall|k: int|
                i < k < notes.len() ==> (#[trigger] notes[k]).0 != e.1[1];
            let none = forall|k: int| 0 <= k < notes.len() ==> (#[trigger] notes[k]).0 != e.1[1];
            &&& h.event is Some && n is NoteOff && h.change is None
            &&& n->NoteOff_channel == ch
            &&& n->NoteOff_pitch == e.1[1]
            &&& n->NoteOff_velocity == e.1[2]
            &&& n->NoteOff_offset == e.0
            &&& latest ==> n->NoteOff_note_id == notes[i].1 && h.tracker.notes[ch as int] == notes.remove(i)
            &&& none ==> n->NoteOff_note_id == -1 && h.tracker == t
            &&& h.tracker.next_note_id == t.next_note_id
            &&& h.tracker.map == t.map
            &&& forall|c: int| 0 <= c < 16 && c != ch ==> #[trigger] h.tracker.notes[c] == t.notes[c]
        }),
{
    lemma_status(e.1[0]);
    let notes = t.notes[(e.1[0] % 16) as int];
    lemma_newest(notes, e.1[1] as i16, notes.len() as int);
    if let Some(j) = newest(notes, e.1[1] as i16, notes.len() as int) {
        if 0 <= i < notes.len() && notes[i].0 == e.1[1] && forall|k: int|
            i < k < notes.len() ==> (#[trigger] notes[k]).0 != e.1[1] {
            if i < j {
                assert(notes[j].0 != e.1[1]);
            } else if j < i {
                assert(notes[i].0 != e.1[1] as i16);
            }
        } else {
            assert(notes[j].0 == e.1[1]);
        }
    }
}

/// A pitch bend reaches a plugin as it is: its first data byte as the lower, its second as the upper
/// part, on its channel and at its frame.
pub proof fn pitch_bends_are_told_as_they_are(t: TrackerView, e: MidiEvent)
    requires
        t.wf(),
        0xE0 <= e.1[0] <= 0xEF,
        e.1[1] <= 127,
        e.1[2] <= 127,
        e.0 <= i32::MAX,
    ensures
        ({
            let h = t.heard(e);
            let n = h.event->0;
            &&& h.tracker == t
            &&& h.change is None
            &&& h.event is Some && n is PitchBend
            &&& n->on == e.1[0] - 0xE0
            &&& n->lsb == e.1[1]
            &&& n->msb == e.1[2]
            &&& n->PitchBend_offset == e.0
        }),
{
    lemma_status(e.1[0]);
}

/// A controller changes the parameter that is mapped to it, to its value; one that is mapped to none
/// changes nothing.
pub proof fn controllers_change_their_parameter(t: TrackerView, e: MidiEvent)
    requires
        t.wf(),
        0xB0 <= e.1[0] <= 0xBF,
    ensures
        t.heard(e).tracker == t,
        t.heard(e).event is None,
        e.1[1] < t.map.len() && t.map[e.1[1] as int] is Some ==> t.heard(e).change == Some(
            (t.map[e.1[1] as int]->0, e.1[2]),
        ),
        e.1[1] >= t.map.len() || t.map[e.1[1] as int] is None ==> t.heard(e).change is None,
{
    lemma_status(e.1[0]);
}

/// The messages of a block are heard one after the other, and what each becomes stands behind what
/// the ones before it became.
pub proof fn blocks_are_heard_in_order(t: TrackerView, midi: Seq<MidiEvent>, count: int)
    requires
        0 <= count < midi.len(),
    ensures
        t.after(midi, 0) == t,
        t.events(midi, 0).len() == 0,
        t.after(midi, count + 1) == t.after(midi, count).heard(midi[count]).tracker,
        t.events(midi, count + 1) == match t.after(midi, count).heard(midi[count]).event {
            Some(n) => t.events(midi, count).push(n),
            None => t.events(midi, count),
        },
{
}

/// Changes that wait are handed on in order, up to 64 of them.
pub proof fn waiting_changes_are_handed_on<G>(pending: Seq<(u32, G)>, i: int)
    requires
        0 <= i < pending.len(),
        i < 64,
    ensures
        pending.len() <= 64 ==> queued(pending).len() == pending.len(),
        pending.len() > 64 ==> queued(pending).len() == 64,
        queued(pending)[i].id == pending[i].0,
        queued(pending)[i].value is Plain && queued(pending)[i].value->Plain_0 == pending[i].1,
{
}

// ---------------------------------------------------------------------------
// VST3 parameters and presets
// ---------------------------------------------------------------------------

proof fn lemma_shown<F>(
    raw: Seq<crate::formats::vst3::RawParam<F>>,
    count: int,
    keep: spec_fn(crate::formats::vst3::RawParam<F>) -> bool,
)
    requires
        0 <= count <= raw.len() <= u32::MAX,
        forall|p: crate::formats::vst3::RawParam<F>| #[trigger] keep(p) <==> !p.program_change,
    ensures
        ({
            let kept = raw.take(count).filter(keep);
            let params = shown_params(raw, count);
            let ids = shown_ids(raw, count);
            &&& kept.len() <= count
            &&& params.len() == kept.len() && ids.len() == kept.len()
            &&& forall|i: int|
                0 <= i < kept.len() ==> {
                    let p = #[trigger] params[i];
                    p.index == i && p.name == kept[i].name && p.min == kept[i].min && p.max == kept[i].max && p.default
                        == kept[i].default && ids[i] == kept[i].id
                }
        }),
    decreases count,
{
    reveal(Seq::filter);
    if count > 0 {
        lemma_shown(raw, count - 1, keep);
        let p = raw[count - 1];
        assert(keep(p) <==> !p.program_change);
        assert(raw.take(count).drop_last() =~= raw.take(count - 1));
        let before = shown_params(raw, count - 1);
        let kept = raw.take(count).filter(keep);
        let kept_before = raw.take(count - 1).filter(keep);
        let params = shown_params(raw, count);
        let ids = shown_ids(raw, count);
        assert forall|i: int| 0 <= i < kept.len() implies {
            let p = #[trigger] params[i];
            p.index == i && p.name == kept[i].name && p.min == kept[i].min && p.max == kept[i].max && p.default
                == kept[i].default && ids[i] == kept[i].id
        } by {
            if i < before.len() {
                assert(params[i] == before[i]);
                assert(kept[i] == kept_before[i]);
                assert(ids[i] == shown_ids(raw, count - 1)[i]);
            }
        }
    }
}

/// The parameters that are shown are those that select no program, in order and numbered from zero,
/// and the identifier at each number is that of the parameter there.
pub proof fn ordinary_parameters_are_shown<F>(raw: Seq<crate::formats::vst3::RawParam<F>>)
    requires
        raw.len() <= u32::MAX,
    ensures
        ({
            let kept = raw.filter(|p: crate::formats::vst3::RawParam<F>| !p.program_change);
            let params = shown_params(raw, raw.len() as int);
            let ids = shown_ids(raw, raw.len() as int);
            &&& params.len() == kept.len() && ids.len() == kept.len()
            &&& forall|i: int|
                0 <= i < kept.len() ==> {
                    let p = #[trigger] params[i];
                    p.index == i && p.name == kept[i].name && p.min == kept[i].min && p.max == kept[i].max && p.default
                        == kept[i].default && ids[i] == kept[i].id
                }
        }),
{
    let keep = |p: crate::formats::vst3::RawParam<F>| !p.program_change;
    assert(raw.take(raw.len() as int) =~= raw);
    lemma_shown(raw, raw.len() as int, keep);
}

/// The parameter that selects programs is the last one that does.
pub proof fn programs_are_selected_by_the_last<F>(raw: Seq<crate::formats::vst3::RawParam<F>>, count: int, i: int)
    requires
        0 <= count <= raw.len(),
    ensures
        0 <= i < count && raw[i].program_change && (forall|k: int|
            i < k < count ==> !(#[trigger] raw[k]).program_change) ==> program_param(raw, count) == Some(raw[i].id),
        (forall|k: int| 0 <= k < count ==> !(#[trigger] raw[k]).program_change) ==> program_param(raw, count) is None,
    decreases count,
{
    if count > 0 {
        programs_are_selected_by_the_last(raw, count - 1, i);
        if forall|k: int| 0 <= k < count ==> !(#[trigger] raw[k]).program_change {
            assert(!raw[count - 1].program_change);
        }
        if 0 <= i < count - 1 && forall|k: int| i < k < count ==> !(#[trigger] raw[k]).program_change {
            assert(!raw[count - 1].program_change);
        }
    }
}

/// A preset is chosen by its number, as so many steps of one fewer than there are; without a number,
/// a parameter that selects it or any preset it cannot be.
pub proof fn presets_are_chosen_by_number(id: Seq<char>, program: Option<u32>, count: usize)
    ensures
        usize_value(id) is None ==> program_choice(id, program, count) is Err,
        program is None ==> program_choice(id, program, count) is Err,
        count == 0 ==> program_choice(id, program, count) is Err,
        usize_value(id) is Some && program is Some && count > 0 ==> program_choice(id, program, count) is Ok,
        usize_value(id) is Some && program is Some && count > 1 ==> {
            let c = program_choice(id, program, count)->Ok_0;
            c.param == program->0 && c.at == usize_value(id)->0 && c.of == count - 1
        },
        usize_value(id) is Some && program is Some && count == 1 ==> {
            let c = program_choice(id, program, count)->Ok_0;
            c.param == program->0 && c.at == 0
        },
{
}

// ---------------------------------------------------------------------------
// CLAP
// ---------------------------------------------------------------------------

/// The channels of a plugin's ports lie one port after the other without a gap.
pub proof fn ports_lie_side_by_side(ports: Seq<u32>, i: int)
    requires
        0 <= i < ports.len(),
    ensures
        channel_sum(ports, 0) == 0,
        channel_sum(ports, i + 1) == channel_sum(ports, i) + ports[i],
{
}

/// The plugin that an identifier means is the first of the bundle that has it.
pub proof fn identifiers_mean_the_first_plugin(ids: Seq<Option<String>>, id: Seq<char>, from: int)
    requires
        0 <= from,
    ensures
        match plugin_with_id(ids, id, from) {
            Some(i) => from <= i < ids.len() && ids[i] is Some && ids[i]->0@ == id && forall|k: int|
                from <= k < i ==> !(#[trigger] ids[k] is Some && ids[k]->0@ == id),
            None => forall|k: int| from <= k < ids.len() ==> !(#[trigger] ids[k] is Some && ids[k]->0@ == id),
        },
    decreases ids.len() - from,
{
    if from < ids.len() && !(ids[from] is Some && ids[from]->0@ == id) {
        identifiers_mean_the_first_plugin(ids, id, from + 1);
    }
}

/// Every parameter that a plugin tells is kept at the place at which it is told, in order.
pub proof fn told_parameters_are_kept<F>(raw: Seq<Option<crate::formats::clap::RawParam<F>>>, count: int, i: int)
    requires
        0 <= i < count <= raw.len(),
    ensures
        raw[i] is Some <==> told(raw, count).contains(i),
        forall|a: int, b: int|
            0 <= a < b < told(raw, count).len() ==> #[trigger] told(raw, count)[a] < #[trigger] told(raw, count)[b],
        forall|a: int| 0 <= a < told(raw, count).len() ==> 0 <= #[trigger] told(raw, count)[a] < count,
    decreases count,
{
    let all = told(raw, count);
    let rest = told(raw, count - 1);
    if count > 1 {
        told_parameters_are_kept(raw, count - 1, if i < count - 1 {
            i
        } else {
            0
        });
    }
    if i == count - 1 {
        if raw[i] is Some {
            assert(all[all.len() - 1] == i);
        } else if all.contains(i) {
            let k = choose|k: int| 0 <= k < all.len() && all[k] == i;
            assert(rest[k] < count - 1);
        }
    } else {
        if rest.contains(i) {
            let k = choose|k: int| 0 <= k < rest.len() && rest[k] == i;
            assert(all[k] == i);
        }
        if all.contains(i) {
            let k = choose|k: int| 0 <= k < all.len() && all[k] == i;
            assert(k < rest.len());
            assert(rest[k] == i);
        }
    }
}

/// A preset is loaded only where its identifier is the number of one that is listed, the plugin
/// loads presets, and it has a place to be loaded from; that number is what is loaded.
pub proof fn loaded_presets_are_listed(id: Seq<char>, data: Seq<PresetData>, supported: bool)
    ensures
        preset_choice(id, data, supported) matches Ok(i) ==> {
            &&& supported
            &&& usize_value(id) == Some(i)
            &&& i < data.len()
            &&& data[i as int].is_plugin_location || data[i as int].file_path is Some
        },
        usize_value(id) is None ==> preset_choice(id, data, supported) == Err::<usize, LoadFault>(
            LoadFault::InvalidId,
        ),
        usize_value(id) is Some && usize_value(id)->0 >= data.len() ==> preset_choice(id, data, supported) == Err::<
            usize,
            LoadFault,
        >(LoadFault::OutOfRange),
{
}

// ---------------------------------------------------------------------------
// LV2
// ---------------------------------------------------------------------------

/// A control port is shown with its own index, name and default, and its own range where it gives
/// one.
pub proof fn ports_are_shown_as_they_are<F>(port: ControlPort<F>, zero: F, unity: F)
    ensures
        port_param(port, zero, unity).index == port.index,
        port_param(port, zero, unity).name == port.name,
        port_param(port, zero, unity).default == port.default,
        port_param(port, zero, unity).min == if port.min is Some {
            port.min->0
        } else {
            zero
        },
        port_param(port, zero, unity).max == if port.max is Some {
            port.max->0
        } else {
            unity
        },
{
}

proof fn lemma_port_with<F>(ports: Seq<ControlPort<F>>, symbol: Seq<char>, from: int, i: int)
    requires
        0 <= from <= i < ports.len(),
        ports[i].symbol@ == symbol,
        forall|k: int| from <= k < i ==> (#[trigger] ports[k]).symbol@ != symbol,
    ensures
        port_with(ports, symbol, from) == Some(ports[i].index),
    decreases i - from,
{
    if from < i {
        assert(ports[from].symbol@ != symbol);
        lemma_port_with(ports, symbol, from + 1, i);
    }
}

/// A setting of a preset reaches the first port with its symbol, with its value.
pub proof fn preset_settings_reach_their_ports<F>(
    ports: Seq<ControlPort<F>>,
    settings: Seq<(String, F)>,
    count: int,
    k: int,
    i: int,
)
    requires
        0 <= k < count <= settings.len(),
        0 <= i < ports.len(),
        ports[i].symbol@ == settings[k].0@,
        forall|j: int| 0 <= j < i ==> (#[trigger] ports[j]).symbol@ != settings[k].0@,
    ensures
        port_values(ports, settings, count).contains((ports[i].index, settings[k].1)),
    decreases count,
{
    let all = port_values(ports, settings, count);
    if k == count - 1 {
        lemma_port_with(ports, settings[k].0@, 0, i);
        assert(all[all.len() - 1] == (ports[i].index, settings[k].1));
    } else {
        preset_settings_reach_their_ports(ports, settings, count - 1, k, i);
        let rest = port_values(ports, settings, count - 1);
        let q = choose|q: int| 0 <= q < rest.len() && rest[q] == (ports[i].index, settings[k].1);
        assert(all[q] == (ports[i].index, settings[k].1));
    }
}

/// The preset that an identifier means is the first that has it.
pub proof fn identifiers_mean_the_first_preset(presets: Seq<Preset>, id: Seq<char>, from: int)
    requires
        0 <= from,
    ensures
        match preset_with(presets, id, from) {
            Some(i) => from <= i < presets.len() && presets[i].id@ == id && forall|k: int|
                from <= k < i ==> (#[trigger] presets[k]).id@ != id,
            None => forall|k: int| from <= k < presets.len() ==> (#[trigger] presets[k]).id@ != id,
        },
    decreases presets.len() - from,
{
    if from < presets.len() && presets[from].id@ != id {
        identifiers_mean_the_first_preset(presets, id, from + 1);
    }
}

// ---------------------------------------------------------------------------
// Voices of the oscillator
// ---------------------------------------------------------------------------

proof fn lemma_voice_found<F>(voices: Seq<Voice<F>>, note: u8, from: int)
    requires
        0 <= from,
    ensures
        match voice_of(voices, note, from) {
            Some(i) => from <= i < voices.len() && voices[i].note == note && forall|k: int|
                from <= k < i ==> (#[trigger] voices[k]).note != note,
            None => forall|k: int| from <= k < voices.len() ==> (#[trigger] voices[k]).note != note,
        },
    decreases voices.len() - from,
{
    if from < voices.len() && voices[from].note != note {
        lemma_voice_found(voices, note, from + 1);
    }
}

/// A note-on sounds its note: its voice goes into its attack from where it is, or a new one starts
/// from silence. A note-off releases the voice of its note. The voices of other notes, and all of
/// them for any other message, go on as they were.
pub proof fn voices_follow_the_notes<F>(voices: Seq<Voice<F>>, bytes: [u8; 3], zero: F, i: int)
    requires
        0 <= i < voices.len(),
        forall|a: int, b: int|
            0 <= a < b < voices.len() ==> (#[trigger] voices[a]).note != (#[trigger] voices[b]).note,
    ensures
        ({
            let after = voiced(voices, bytes, zero);
            let on = 0x90 <= bytes[0] <= 0x9F && bytes[2] > 0;
            let off = 0x80 <= bytes[0] <= 0x8F || (0x90 <= bytes[0] <= 0x9F && bytes[2] == 0);
            let held = exists|k: int| 0 <= k < voices.len() && (#[trigger] voices[k]).note == bytes[1];
            &&& after.len() == voices.len() + if on && !held {
                1int
            } else {
                0
            }
            &&& after[i] == if voices[i].note != bytes[1] || (!on && !off) {
                voices[i]
            } else if on {
                Voice { state: VoiceState::Attack, ..voices[i] }
            } else {
                Voice { state: VoiceState::Release, ..voices[i] }
            }
            &&& on && !held ==> {
                let v = after[voices.len() as int];
                v.note == bytes[1] && v.phase == zero && v.amp == zero && v.state == VoiceState::Attack
            }
        }),
{
    kinds_are_status_ranges(bytes);
    lemma_voice_found(voices, bytes[1], 0);
    if let Some(k) = voice_of(voices, bytes[1], 0) {
        assert(voices[k].note == bytes[1]);
        if i < k {
            assert(voices[i].note != voices[k].note);
        } else if k < i {
            assert(voices[k].note != voices[i].note);
        }
    }
}

/// The first note starts from silence.
pub proof fn first_note_starts_a_voice<F>(bytes: [u8; 3], zero: F)
    requires
        0x90 <= bytes[0] <= 0x9F,
        bytes[2] > 0,
    ensures
        ({
            let after = voiced(Seq::<Voice<F>>::empty(), bytes, zero);
            &&& after.len() == 1
            &&& after[0].note == bytes[1] && after[0].phase == zero && after[0].amp == zero && after[0].state
                == VoiceState::Attack
        }),
{
    kinds_are_status_ranges(bytes);
}

/// The events that are due are all those, from the next one on, that stand before the first that
/// comes later than the frame.
pub proof fn due_events_are_those_up_to_the_frame(events: Seq<MidiEvent>, from: int, frame: u64)
    requires
        0 <= from <= events.len(),
    ensures
        ({
            let n = due_count(events, from, frame);
            &&& 0 <= n <= events.len() - from
            &&& forall|k: int| from <= k < from + n ==> (#[trigger] events[k]).0 <= frame
            &&& from + n < events.len() ==> events[from + n].0 > frame
        }),
    decreases events.len() - from,
{
    if from < events.len() && events[from].0 <= frame {
        due_events_are_those_up_to_the_frame(events, from + 1, frame);
    }
}

/// Due events are heard one after the other.
pub proof fn due_events_are_heard_in_order<F>(
    voices: Seq<Voice<F>>,
    events: Seq<MidiEvent>,
    from: int,
    count: int,
    zero: F,
)
    requires
        0 <= count,
    ensures
        voiced_run(voices, events, from, 0, zero) == voices,
        voiced_run(voices, events, from, count + 1, zero) == voiced(
            voiced_run(voices, events, from, count, zero),
            events[from + count].1,
            zero,
        ),
{
}

/// A voice ends only when it was released and has faded; all others go on, in order.
pub proof fn only_faded_releases_end<F>(voices: Seq<Voice<F>>, faded: Seq<bool>, i: int)
    requires
        faded.len() == voices.len(),
        0 <= i < voices.len(),
    ensures
        !(voices[i].state == VoiceState::Release && faded[i]) ==> still_sounding(voices, faded).contains(voices[i]),
        forall|k: int|
            0 <= k < still_sounding(voices, faded).len() ==> exists|j: int|
                0 <= j < voices.len() && #[trigger] voices[j] == #[trigger] still_sounding(voices, faded)[k] && !(
                voices[j].state == VoiceState::Release && faded[j]),
    decreases voices.len(),
{
    lemma_still_sounding(voices, faded, voices.len() as int);
    assert(voices.take(voices.len() as int) =~= voices);
}

proof fn lemma_still_sounding<F>(voices: Seq<Voice<F>>, faded: Seq<bool>, n: int)
    requires
        faded.len() == voices.len(),
        0 <= n <= voices.len(),
    ensures
        forall|i: int|
            0 <= i < n && !((#[trigger] voices[i]).state == VoiceState::Release && faded[i]) ==> still_sounding(
                voices.take(n),
                faded,
            ).contains(voices[i]),
        forall|k: int|
            0 <= k < still_sounding(voices.take(n), faded).len() ==> exists|j: int|
                0 <= j < n && #[trigger] voices[j] == #[trigger] still_sounding(voices.take(n), faded)[k] && !(
                voices[j].state == VoiceState::Release && faded[j]),
    decreases n,
{
    if n > 0 {
        lemma_still_sounding(voices, faded, n - 1);
        assert(voices.take(n).drop_last() =~= voices.take(n - 1));
        let rest = still_sounding(voices.take(n - 1), faded);
        let all = still_sounding(voices.take(n), faded);
        assert forall|i: int|
            0 <= i < n && !((#[trigger] voices[i]).state == VoiceState::Release && faded[i]) implies all.contains(
            voices[i],
        ) by {
            if i < n - 1 {
                let k = choose|k: int| 0 <= k < rest.len() && rest[k] == voices[i];
                assert(all[k] == voices[i]);
            } else {
                assert(all[all.len() - 1] == voices[i]);
            }
        }
        assert forall|k: int| 0 <= k < all.len() implies exists|j: int|
            0 <= j < n && #[trigger] voices[j] == #[trigger] all[k] && !(voices[j].state == VoiceState::Release
                && faded[j]) by {
            if k < rest.len() {
                assert(all[k] == rest[k]);
                let j = choose|j: int|
                    0 <= j < n - 1 && #[trigger] voices[j] == rest[k] && !(voices[j].state == VoiceState::Release
                        && faded[j]);
                assert(voices[j] == all[k]);
            } else {
                assert(voices[n - 1] == all[k]);
            }
        }
    }
}

} // verus!
