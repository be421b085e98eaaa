//! Laws of pattern recording and playback.
use vstd::prelude::*;

use crate::laws::midi::kinds_are_status_ranges;
use crate::midi::MidiEvent;
use crate::pattern::{
    captured, events_before, first_note, notes_without, voices_without, PatternEvent, PatternView, PatternVoice,
    PlayerView,
};

verus! {

// ---------------------------------------------------------------------------
// Recording
// ---------------------------------------------------------------------------

proof fn lemma_captured(
    recorded: Seq<PatternEvent>,
    events: Seq<MidiEvent>,
    pos: Option<u64>,
    keep: spec_fn(MidiEvent) -> bool,
)
    requires
        forall|e: MidiEvent| #[trigger] keep(e) <==> 0x80 <= e.1[0] <= 0x9F,
        pos is Some ==> forall|i: int| 0 <= i < events.len() ==> pos->0 + (#[trigger] events[i]).0 <= u64::MAX,
    ensures
        ({
            let notes = events.filter(keep);
            let after = captured(recorded, events, pos);
            &&& after.len() == recorded.len() + notes.len()
            &&& after.take(recorded.len() as int) == recorded
            &&& forall|i: int|
                0 <= i < notes.len() ==> {
                    let e = #[trigger] notes[i];
                    let r = after[recorded.len() + i];
                    &&& r.note == e.1[1]
                    &&& r.frame == if pos is Some {
                        pos->0 + e.0
                    } else {
                        0
                    }
                    &&& if 0x90 <= e.1[0] && e.1[2] > 0 {
                        r.status == 0x90 && r.velocity == e.1[2]
                    } else {
                        r.status == 0x80 && r.velocity == 0
                    }
                }
        }),
    decreases events.len(),
{
    reveal(Seq::filter);
    if events.len() == 0 {
        assert(recorded.take(recorded.len() as int) =~= recorded);
    } else {
        let last = events.last();
        let front = events.drop_last();
        lemma_captured(recorded, front, pos, keep);
        kinds_are_status_ranges(last.1);
        let before = captured(recorded, front, pos);
        let after = captured(recorded, events, pos);
        let notes = events.filter(keep);
        assert(keep(last) <==> 0x80 <= last.1[0] <= 0x9F);
        assert(after.take(recorded.len() as int) =~= before.take(recorded.len() as int));
        assert forall|i: int| 0 <= i < notes.len() implies {
            let e = #[trigger] notes[i];
            let r = after[recorded.len() + i];
            &&& r.note == e.1[1]
            &&& r.frame == if pos is Some {
                pos->0 + e.0
            } else {
                0
            }
            &&& if 0x90 <= e.1[0] && e.1[2] > 0 {
                r.status == 0x90 && r.velocity == e.1[2]
            } else {
                r.status == 0x80 && r.velocity == 0
            }
        } by {
            let earlier = front.filter(keep);
            if i < earlier.len() {
                assert(notes[i] == earlier[i]);
                assert(after[recorded.len() + i] == before[recorded.len() + i]);
            }
        }
    }
}

/// Recording loses nothing and adds nothing: every note message of a buffer, and no other, becomes
/// one event, in order, with the note it had, as a note-on with its velocity or as a note-off, at
/// its place after the start of the recording; notes of the count-in stand at the start. What was
/// recorded before stays.
pub proof fn recording_keeps_every_note<F>(p: PlayerView<F>, events: Seq<MidiEvent>)
    requires
        p.counting_in || p.recording,
        !p.counting_in ==> forall|i: int|
            0 <= i < events.len() ==> p.record_pos + (#[trigger] events[i]).0 <= u64::MAX,
    ensures
        ({
            let notes = events.filter(|e: MidiEvent| 0x80 <= e.1[0] <= 0x9F);
            let before = p.recording_events;
            let after = p.heard(events).recording_events;
            &&& after.len() == before.len() + notes.len()
            &&& after.take(before.len() as int) == before
            &&& forall|i: int|
                0 <= i < notes.len() ==> {
                    let e = #[trigger] notes[i];
                    let r = after[before.len() + i];
                    &&& r.note == e.1[1]
                    &&& r.frame == if p.counting_in {
                        0
                    } else {
                        p.record_pos + e.0
                    }
                    &&& if 0x90 <= e.1[0] && e.1[2] > 0 {
                        r.status == 0x90 && r.velocity == e.1[2]
                    } else {
                        r.status == 0x80 && r.velocity == 0
                    }
                }
        }),
        p.heard(events).output_events == events,
        p.heard(events) == (PlayerView {
            recording_events: p.heard(events).recording_events,
            output_events: events,
            ..p
        }),
{
    let keep = |e: MidiEvent| 0x80 <= e.1[0] <= 0x9F;
    let pos = if p.counting_in {
        None
    } else {
        Some(p.record_pos)
    };
    lemma_captured(p.recording_events, events, pos, keep);
    let notes = events.filter(keep);
    let before = p.recording_events;
    let after = p.heard(events).recording_events;
    assert(after == captured(before, events, pos));
    assert forall|i: int| 0 <= i < notes.len() implies {
        let e = #[trigger] notes[i];
        let r = after[before.len() + i];
        &&& r.note == e.1[1]
        &&& r.frame == if p.counting_in {
            0
        } else {
            p.record_pos + e.0
        }
        &&& if 0x90 <= e.1[0] && e.1[2] > 0 {
            r.status == 0x90 && r.velocity == e.1[2]
        } else {
            r.status == 0x80 && r.velocity == 0
        }
    } by {
        let e = notes[i];
    }
}

/// A player that neither records nor has a pattern to play, or is switched off, hands on exactly
/// what it gets and stays as it is.
pub proof fn idle_players_hand_events_on<F>(p: PlayerView<F>, events: Seq<MidiEvent>, frames: u64, length: u64)
    requires
        !p.counting_in,
        !p.recording,
        !p.enabled || p.pattern.events.len() == 0 || p.base_note is None,
    ensures
        p.heard(events) == (PlayerView { output_events: events, ..p }),
        p.advanced(frames, length) == p,
        p.report(frames, length) is None,
        p.can_hear(events),
        p.can_advance(frames),
{
}

proof fn lemma_events_before_is_filter(
    events: Seq<PatternEvent>,
    end: u64,
    keep: spec_fn(PatternEvent) -> bool,
)
    requires
        forall|e: PatternEvent| #[trigger] keep(e) <==> e.frame < end,
    ensures
        events_before(events, end) == events.filter(keep),
    decreases events.len(),
{
    reveal(Seq::filter);
    if events.len() > 0 {
        lemma_events_before_is_filter(events.drop_last(), end, keep);
        assert(keep(events.last()) <==> events.last().frame < end);
    }
}

proof fn lemma_first_note_is_first(events: Seq<PatternEvent>, i: int)
    requires
        0 <= i < events.len(),
        events[i].status == 0x90,
        forall|k: int| 0 <= k < i ==> (#[trigger] events[k]).status != 0x90,
    ensures
        first_note(events) == Some(events[i].note),
    decreases i,
{
    if i > 0 {
        let rest = events.drop_first();
        assert(events[0].status != 0x90);
        assert forall|k: int| 0 <= k < i - 1 implies (#[trigger] rest[k]).status != 0x90 by {
            assert(rest[k] == events[k + 1]);
        }
        lemma_first_note_is_first(rest, i - 1);
    }
}

proof fn lemma_no_first_note(events: Seq<PatternEvent>)
    requires
        forall|k: int| 0 <= k < events.len() ==> (#[trigger] events[k]).status != 0x90,
    ensures
        first_note(events) is None,
    decreases events.len(),
{
    if events.len() > 0 {
        let rest = events.drop_first();
        assert(events[0].status != 0x90);
        assert forall|k: int| 0 <= k < rest.len() implies (#[trigger] rest[k]).status != 0x90 by {
            assert(rest[k] == events[k + 1]);
        }
        lemma_no_first_note(rest);
    }
}

/// A recording that ends becomes the pattern: all of its events that begin within the length, in
/// order, and those alone. Its first note-on names the base note, a pattern with events is
/// switched on, and the recorder is empty and at rest. Nothing else about the player changes.
pub proof fn finished_recording_is_the_pattern<F>(p: PlayerView<F>, frames: u64, length: u64)
    requires
        p.recording,
        !p.counting_in,
        p.record_pos + frames <= u64::MAX,
    ensures
        ({
            let q = p.advanced(frames, length);
            let kept = p.recording_events.filter(|e: PatternEvent| e.frame < length);
            if p.record_pos + frames >= length {
                &&& q.pattern.events == kept
                &&& q.pattern.length_samples == length
                &&& q.enabled == (kept.len() > 0)
                &&& q.recording_events.len() == 0
                &&& !q.recording && !q.counting_in
                &&& q.click_remaining == 0
                &&& q.record_pos == p.record_pos + frames
                &&& forall|i: int|
                    0 <= i < kept.len() && kept[i].status == 0x90 && (forall|k: int|
                        0 <= k < i ==> (#[trigger] kept[k]).status != 0x90) ==> q.base_note == Some(
                        (#[trigger] kept[i]).note,
                    )
                &&& (forall|k: int| 0 <= k < kept.len() ==> (#[trigger] kept[k]).status != 0x90)
                    ==> q.base_note is None
                &&& q == (PlayerView {
                    pattern: q.pattern,
                    base_note: q.base_note,
                    enabled: q.enabled,
                    recording_events: Seq::empty(),
                    recording: false,
                    record_pos: q.record_pos,
                    click_remaining: 0,
                    ..p
                })
                &&& p.report(frames, length) is Some <==> p.listening
            } else {
                &&& q == (PlayerView { record_pos: (p.record_pos + frames) as u64, ..p })
                &&& p.report(frames, length) is None
            }
        }),
{
    let keep = |e: PatternEvent| e.frame < length;
    let kept = p.recording_events.filter(keep);
    lemma_events_before_is_filter(p.recording_events, length, keep);
    let q = p.advanced(frames, length);
    if p.record_pos + frames >= length {
        assert forall|i: int|
            0 <= i < kept.len() && kept[i].status == 0x90 && (forall|k: int|
                0 <= k < i ==> (#[trigger] kept[k]).status != 0x90) implies q.base_note == Some(
            (#[trigger] kept[i]).note,
        ) by {
            lemma_first_note_is_first(kept, i);
        }
        if forall|k: int| 0 <= k < kept.len() ==> (#[trigger] kept[k]).status != 0x90 {
            lemma_no_first_note(kept);
        }
    }
}

/// What a finished recording reports is the pattern as the player holds it from then on.
pub proof fn report_tells_the_pattern<F>(p: PlayerView<F>, frames: u64, length: u64)
    requires
        p.report(frames, length) is Some,
    ensures
        ({
            let q = p.advanced(frames, length);
            let r = p.report(frames, length)->0;
            &&& r.kb == p.kb_index && r.split == p.split_index
            &&& r.base_note == q.base_note
            &&& r.length_beats == p.length_beats
            &&& r.looping == p.looping
            &&& r.enabled == q.enabled
            &&& r.events.len() == q.pattern.events.len()
            &&& forall|i: int|
                0 <= i < r.events.len() ==> {
                    let e = q.pattern.events[i];
                    #[trigger] r.events[i] == (e.frame, e.status, e.note, e.velocity)
                }
        }),
{
}

/// Stopping a recording by hand makes the pattern of it as its end would have; stopping a count-in
/// leaves the pattern alone.
pub proof fn stopping_keeps_what_was_recorded<F>(p: PlayerView<F>, length: u64)
    ensures
        p.recording ==> p.stopped(length).pattern.events == p.recording_events.filter(
            |e: PatternEvent| e.frame < length,
        ),
        p.recording ==> p.stopped(length).pattern.length_samples == length,
        p.recording ==> p.stopped(length).recording_events.len() == 0,
        p.recording ==> p.stopped(length).enabled == (p.stopped(length).pattern.events.len() > 0),
        !p.stopped(length).recording,
        !p.stopped(length).counting_in,
        !p.recording ==> p.stopped(length) == (PlayerView { counting_in: false, ..p }),
        p.stop_report(length) is Some <==> p.recording && p.listening,
{
    let keep = |e: PatternEvent| e.frame < length;
    lemma_events_before_is_filter(p.recording_events, length, keep);
}

/// Recording begins when four beats of count-in have passed, at position zero and with the notes
/// that the count-in caught; until then only the clock runs.
pub proof fn count_in_lasts_four_beats<F>(p: PlayerView<F>, frames: u64, length: u64)
    requires
        p.counting_in,
        p.record_pos + frames <= u64::MAX,
    ensures
        ({
            let q = p.advanced(frames, length);
            if p.record_pos + frames >= 4 * p.beat_length_samples {
                q.recording && !q.counting_in && q.record_pos == 0
            } else {
                q.counting_in && q.recording == p.recording && q.record_pos == p.record_pos + frames
            }
        }),
        p.advanced(frames, length).recording_events == p.recording_events,
        p.advanced(frames, length).pattern == p.pattern,
        p.advanced(frames, length).output_events == p.output_events,
        p.report(frames, length) is None,
{
}

/// A count-in starts from nothing: no note is recorded yet, no base note is known and every clock
/// stands at zero. The old pattern stays until the new one is complete.
pub proof fn count_in_starts_afresh<F>(p: PlayerView<F>, kb: usize, split: usize, beat_length: u64, zero: F)
    ensures
        ({
            let q = p.count_in_started(kb, split, beat_length, zero);
            &&& q.counting_in && !q.recording
            &&& q.recording_events.len() == 0
            &&& q.base_note is None
            &&& q.record_pos == 0 && q.metronome_pos == 0 && q.click_remaining == 0
            &&& q.beat_length_samples == beat_length
            &&& q.kb_index == kb && q.split_index == split
            &&& q.pattern == p.pattern
            &&& q.length_beats == p.length_beats && q.looping == p.looping && q.bpm == p.bpm
        }),
{
}

/// The metronome clicks exactly on the beats, for `duration` samples, and every fourth click from
/// the start of the count-in on is a downbeat.
pub proof fn metronome_clicks_on_beats<F>(p: PlayerView<F>, offset: u64, duration: u32, beat: int)
    requires
        p.beat_length_samples > 0,
        p.metronome_pos + offset == beat * p.beat_length_samples,
    ensures
        p.click(offset, duration).restart,
        p.click(offset, duration).remaining == duration,
        p.click(offset, duration).downbeat <==> beat % 4 == 0,
        p.click(offset, duration).sounding <==> duration > 0,
{
    let n = p.beat_length_samples as int;
    vstd::arithmetic::div_mod::lemma_mod_multiples_basic(beat, n);
    vstd::arithmetic::div_mod::lemma_div_multiples_vanish(beat, n);
    assert(n * beat == beat * n) by (nonlinear_arith);
}

/// Between beats no click starts: a click that sounds goes on for the samples it has left, and
/// each sample takes one of them.
pub proof fn clicks_run_out_between_beats<F>(p: PlayerView<F>, offset: u64, duration: u32)
    requires
        p.beat_length_samples > 0,
        forall|beat: int| p.metronome_pos + offset != #[trigger] (beat * p.beat_length_samples),
    ensures
        !p.click(offset, duration).restart,
        p.click(offset, duration).remaining == p.click_remaining,
        p.click(offset, duration).downbeat == p.click_is_downbeat,
        p.click(offset, duration).sounding <==> p.click_remaining > 0,
        p.click_remaining > 0 ==> p.ticked(offset, duration).click_remaining == p.click_remaining - 1,
        p.click_remaining == 0 ==> p.ticked(offset, duration).click_remaining == 0,
{
    let pos = p.metronome_pos + offset;
    let n = p.beat_length_samples as int;
    vstd::arithmetic::div_mod::lemma_fundamental_div_mod(pos, n);
    let beat = pos / n;
    assert(n * beat == beat * n) by (nonlinear_arith);
    assert(pos != beat * p.beat_length_samples);
}

// ---------------------------------------------------------------------------
// Playback
// ---------------------------------------------------------------------------

proof fn lemma_notes_without_is_filter(notes: Seq<u8>, note: u8, keep: spec_fn(u8) -> bool)
    requires
        forall|n: u8| #[trigger] keep(n) <==> n != note,
    ensures
        notes_without(notes, note) == notes.filter(keep),
    decreases notes.len(),
{
    reveal(Seq::filter);
    if notes.len() > 0 {
        lemma_notes_without_is_filter(notes.drop_last(), note, keep);
        assert(keep(notes.last()) <==> notes.last() != note);
    }
}

proof fn lemma_voices_without_is_filter(
    voices: Seq<PatternVoice>,
    note: u8,
    keep: spec_fn(PatternVoice) -> bool,
)
    requires
        forall|v: PatternVoice| #[trigger] keep(v) <==> v.pattern_note != note,
    ensures
        voices_without(voices, note) == voices.filter(keep),
    decreases voices.len(),
{
    reveal(Seq::filter);
    if voices.len() > 0 {
        lemma_voices_without_is_filter(voices.drop_last(), note, keep);
        assert(keep(voices.last()) <==> voices.last().pattern_note != note);
    }
}

proof fn lemma_emitted<F>(
    p: PlayerView<F>,
    start: u64,
    end: u64,
    by: int,
    offset: u64,
    count: int,
    within: spec_fn(PatternEvent) -> bool,
    pitch: spec_fn(u8) -> int,
    step: spec_fn(Seq<PatternVoice>, PatternEvent) -> Seq<PatternVoice>,
)
    requires
        0 <= count <= p.pattern.events.len(),
        start <= end,
        end - start + offset <= u64::MAX,
        forall|e: PatternEvent| #[trigger] within(e) <==> start <= e.frame < end,
        forall|n: u8|
            (#[trigger] pitch(n)) == if n + by < 0 {
                0
            } else if n + by > 127 {
                127
            } else {
                n + by
            },
        forall|vs: Seq<PatternVoice>, e: PatternEvent|
            (#[trigger] step(vs, e)) == if e.status == 0x90 {
                vs.push(PatternVoice { pattern_note: e.note, playing_note: pitch(e.note) as u8, channel: 0 })
            } else {
                vs.filter(|v: PatternVoice| v.pattern_note != e.note)
            },
    ensures
        ({
            let q = p.emitted(start, end, by, offset, count);
            let sounding = p.pattern.events.take(count).filter(within);
            let before = p.output_events;
            &&& q == (PlayerView { output_events: q.output_events, active_voices: q.active_voices, ..p })
            &&& q.active_voices == sounding.fold_left(p.active_voices, step)
            &&& q.output_events.len() == before.len() + sounding.len()
            &&& q.output_events.take(before.len() as int) == before
            &&& forall|i: int|
                0 <= i < sounding.len() ==> {
                    let e = #[trigger] sounding[i];
                    let out = q.output_events[before.len() + i];
                    &&& out.0 == e.frame - start + offset
                    &&& out.1[1] == pitch(e.note)
                    &&& if e.status == 0x90 {
                        out.1[0] == 0x90 && out.1[2] == e.velocity
                    } else {
                        out.1[0] == 0x80 && out.1[2] == 0
                    }
                }
        }),
    decreases count,
{
    reveal(Seq::filter);
    if count == 0 {
        assert(p.pattern.events.take(0) =~= Seq::empty());
        assert(p.output_events.take(p.output_events.len() as int) =~= p.output_events);
    } else {
        lemma_emitted(p, start, end, by, offset, count - 1, within, pitch, step);
        let events = p.pattern.events.take(count);
        let last = p.pattern.events[count - 1];
        assert(events.drop_last() =~= p.pattern.events.take(count - 1));
        assert(events.last() == last);
        let r = p.emitted(start, end, by, offset, count - 1);
        let q = p.emitted(start, end, by, offset, count);
        let earlier = events.drop_last().filter(within);
        let sounding = events.filter(within);
        let before = p.output_events;
        assert(within(last) <==> start <= last.frame < end);
        assert(q.output_events.take(before.len() as int) =~= r.output_events.take(before.len() as int));
        if within(last) {
            assert(sounding == earlier.push(last));
            assert(sounding.drop_last() =~= earlier);
            let keep = |v: PatternVoice| v.pattern_note != last.note;
            lemma_voices_without_is_filter(r.active_voices, last.note, keep);
            assert(pitch(last.note) == if last.note + by < 0 {
                0
            } else if last.note + by > 127 {
                127
            } else {
                last.note + by
            });
            assert(step(r.active_voices, last) == q.active_voices);
        }
        assert forall|i: int| 0 <= i < sounding.len() implies {
            let e = #[trigger] sounding[i];
            let out = q.output_events[before.len() + i];
            &&& out.0 == e.frame - start + offset
            &&& out.1[1] == pitch(e.note)
            &&& if e.status == 0x90 {
                out.1[0] == 0x90 && out.1[2] == e.velocity
            } else {
                out.1[0] == 0x80 && out.1[2] == 0
            }
        } by {
            if i < earlier.len() {
                assert(sounding[i] == earlier[i]);
                assert(q.output_events[before.len() + i] == r.output_events[before.len() + i]);
            }
        }
    }
}

/// Playback sounds the pattern in the key that is held. Every event of the pattern that falls into
/// the buffer, and no other, leaves it once, in order, at its place, as far above or below its own
/// note as the trigger is above or below the base note, held within 0 to 127; a note-on keeps its
/// velocity. At the end of the pattern every voice that still sounds gets its note-off, and a
/// pattern that loops goes on from its start. A note-on leaves a voice that plays what was sent,
/// and a note-off ends the voices of its note.
pub proof fn playback_sounds_the_pattern_in_the_held_key<F>(p: PlayerView<F>, frames: u64)
    requires
        p.trigger_note is Some,
        p.base_note is Some,
        p.pattern.length_samples > 0,
        p.playback_pos <= p.pattern.length_samples,
        p.playback_pos + frames <= u64::MAX,
        frames > 0 || p.playback_pos < p.pattern.length_samples || p.active_voices.len() == 0,
    ensures
        ({
            let q = p.played(frames);
            let by = p.trigger_note->0 - p.base_note->0;
            let len = p.pattern.length_samples;
            let start = p.playback_pos;
            let end = start + frames;
            let pitch = |n: u8| -> int
                {
                    if n + by < 0 {
                        0
                    } else if n + by > 127 {
                        127
                    } else {
                        n + by
                    }
                };
            let step = |vs: Seq<PatternVoice>, e: PatternEvent|
                {
                    if e.status == 0x90 {
                        vs.push(
                            PatternVoice { pattern_note: e.note, playing_note: pitch(e.note) as u8, channel: 0 },
                        )
                    } else {
                        vs.filter(|v: PatternVoice| v.pattern_note != e.note)
                    }
                };
            let first = p.pattern.events.filter(|e: PatternEvent| start <= e.frame < end && e.frame < len);
            let again = if p.looping {
                p.pattern.events.filter(|e: PatternEvent| e.frame < end - len)
            } else {
                Seq::empty()
            };
            let voices = first.fold_left(p.active_voices, step);
            let cut = if end < len {
                0
            } else {
                voices.len()
            };
            let before = p.output_events.len();
            let out = q.output_events;
            &&& out.len() == before + first.len() + cut + again.len()
            &&& out.take(before as int) == p.output_events
            &&& forall|i: int|
                0 <= i < first.len() ==> {
                    let e = #[trigger] first[i];
                    let sent = out[before + i];
                    &&& sent.0 == e.frame - start
                    &&& sent.1[1] == pitch(e.note)
                    &&& if e.status == 0x90 {
                        sent.1[0] == 0x90 && sent.1[2] == e.velocity
                    } else {
                        sent.1[0] == 0x80 && sent.1[2] == 0
                    }
                }
            &&& forall|i: int|
                0 <= i < cut ==> {
                    let v = #[trigger] voices[i];
                    let sent = out[before + first.len() + i];
                    &&& sent.0 == if end > len {
                        len - start
                    } else {
                        frames - 1
                    }
                    &&& sent.1[0] == 0x80u8 | v.channel
                    &&& sent.1[1] == v.playing_note
                    &&& sent.1[2] == 0
                }
            &&& forall|i: int|
                0 <= i < again.len() ==> {
                    let e = #[trigger] again[i];
                    let sent = out[before + first.len() + cut + i];
                    &&& sent.0 == len - start + e.frame
                    &&& sent.1[1] == pitch(e.note)
                    &&& if e.status == 0x90 {
                        sent.1[0] == 0x90 && sent.1[2] == e.velocity
                    } else {
                        sent.1[0] == 0x80 && sent.1[2] == 0
                    }
                }
            &&& q.active_voices == if end < len {
                voices
            } else {
                again.fold_left(Seq::empty(), step)
            }
            &&& q.playback_pos == if end < len {
                end
            } else if p.looping {
                end - len
            } else {
                len as int
            }
            &&& q == (PlayerView {
                playback_pos: q.playback_pos,
                output_events: out,
                active_voices: q.active_voices,
                ..p
            })
        }),
{
    let q = p.played(frames);
    let by = p.trigger_note->0 - p.base_note->0;
    let len = p.pattern.length_samples;
    let start = p.playback_pos;
    let end = start + frames;
    let stop: u64 = if end > len {
        len
    } else {
        end as u64
    };
    let pitch = |n: u8| -> int
        {
            if n + by < 0 {
                0
            } else if n + by > 127 {
                127
            } else {
                n + by
            }
        };
    let step = |vs: Seq<PatternVoice>, e: PatternEvent|
        {
            if e.status == 0x90 {
                vs.push(PatternVoice { pattern_note: e.note, playing_note: pitch(e.note) as u8, channel: 0 })
            } else {
                vs.filter(|v: PatternVoice| v.pattern_note != e.note)
            }
        };
    let events = p.pattern.events;
    let n = events.len() as int;
    assert(events.take(n) =~= events);
    let within = |e: PatternEvent| start <= e.frame < end && e.frame < len;
    lemma_emitted(p, start, stop, by, 0, n, within, pitch, step);
    let first = events.filter(within);
    let r = p.emitted_range(start, stop, by, 0);
    let voices = first.fold_left(p.active_voices, step);
    let before = p.output_events.len();
    assert(r.active_voices == voices);
    if end < len {
        let again = |e: PatternEvent| e.frame < end - len;
        lemma_nothing_passes(events, again);
        assert(q.output_events.take(before as int) =~= p.output_events);
    } else {
        let frame = if end > len {
            (len - start) as u64
        } else {
            (frames - 1) as u64
        };
        let s = r.silenced(frame);
        if end > len && p.looping {
            let rest = (end - len) as u64;
            let again = |e: PatternEvent| e.frame < end - len;
            lemma_emitted(s, 0, rest, by, (len - start) as u64, n, again, pitch, step);
            let out = q.output_events;
            assert(out.take(s.output_events.len() as int) == s.output_events);
            assert(out.take(before as int) =~= r.output_events.take(before as int));
            assert forall|i: int| 0 <= i < s.output_events.len() implies #[trigger] out[i] == s.output_events[i] by {
                assert(out.take(s.output_events.len() as int)[i] == out[i]);
            }
        } else {
            let again = |e: PatternEvent| e.frame < end - len;
            if end == len {
                lemma_nothing_passes(events, again);
            }
            assert(q.output_events == s.output_events);
            assert(q.output_events.take(before as int) =~= r.output_events.take(before as int));
        }
    }
}

proof fn lemma_nothing_passes(events: Seq<PatternEvent>, keep: spec_fn(PatternEvent) -> bool)
    requires
        forall|e: PatternEvent| !#[trigger] keep(e),
    ensures
        events.filter(keep).len() == 0,
    decreases events.len(),
{
    reveal(Seq::filter);
    if events.len() > 0 {
        lemma_nothing_passes(events.drop_last(), keep);
        assert(!keep(events.last()));
    }
}

/// The base note itself sounds at whatever key is held, below as well as above, and two notes
/// of the pattern keep their distance as long as neither leaves the MIDI range.
pub proof fn base_note_sounds_at_the_held_key<F>(p: PlayerView<F>, frames: u64, i: int)
    requires
        p.trigger_note is Some,
        p.base_note is Some,
        p.trigger_note->0 <= 127,
        p.playback_pos + frames < p.pattern.length_samples,
        0 <= i < p.pattern.events.len(),
        p.pattern.events[i].note == p.base_note->0,
        p.pattern.events[i].status == 0x90,
        p.playback_pos <= p.pattern.events[i].frame < p.playback_pos + frames,
    ensures
        p.played(frames).output_events.contains(
            (
                (p.pattern.events[i].frame - p.playback_pos) as u64,
                [0x90u8, p.trigger_note->0, p.pattern.events[i].velocity],
            ),
        ),
{
    playback_sounds_the_pattern_in_the_held_key(p, frames);
    let start = p.playback_pos;
    let end = start + frames;
    let len = p.pattern.length_samples;
    let events = p.pattern.events;
    let within = |e: PatternEvent| start <= e.frame < end && e.frame < len;
    let first = events.filter(within);
    let e = events[i];
    events.lemma_filter_contains(within, i);
    let j = choose|j: int| 0 <= j < first.len() && first[j] == e;
    let sent = p.played(frames).output_events[p.output_events.len() + j];
    assert(first[j] == e);
    assert(sent.1 =~= [0x90u8, p.trigger_note->0, e.velocity]);
    assert(sent == ((e.frame - start) as u64, [0x90u8, p.trigger_note->0, e.velocity]));
}

/// A one-shot pattern that stands at or behind its end, with nothing sounding, stays silent.
pub proof fn finished_one_shots_stay_silent<F>(p: PlayerView<F>, frames: u64)
    requires
        !p.looping,
        p.active_voices.len() == 0,
        p.playback_pos >= p.pattern.length_samples,
        p.playback_pos + frames <= u64::MAX,
    ensures
        p.played(frames).output_events == p.output_events,
        p.played(frames).active_voices.len() == 0,
{
    let by = p.trigger_note->0 - p.base_note->0;
    if p.trigger_note is Some && p.base_note is Some && p.pattern.length_samples > 0 {
        lemma_emit_none(p, p.playback_pos, p.pattern.length_samples, by, 0, p.pattern.events.len() as int);
        lemma_emit_none(p, p.playback_pos, p.playback_pos, by, 0, p.pattern.events.len() as int);
    }
}

proof fn lemma_emit_none<F>(p: PlayerView<F>, start: u64, end: u64, by: int, offset: u64, count: int)
    requires
        end <= start,
    ensures
        p.emitted(start, end, by, offset, count) == p,
    decreases count,
{
    if count > 0 {
        lemma_emit_none(p, start, end, by, offset, count - 1);
    }
}

/// Without a held key nothing plays.
pub proof fn no_key_no_playback<F>(p: PlayerView<F>, frames: u64)
    requires
        p.trigger_note is None,
    ensures
        p.played(frames) == p,
{
}

/// A key that goes down takes the pattern over: it is held and drives playback, from the start of
/// the pattern. Where another key drove it, each of its voices gets a note-off at that moment, in
/// order. Notes themselves do not pass through.
pub proof fn pressed_keys_take_over<F>(p: PlayerView<F>, event: MidiEvent)
    requires
        0x90 <= event.1[0] <= 0x9F,
        event.1[2] > 0,
    ensures
        ({
            let q = p.keyed(event);
            let switched = p.trigger_note is Some && p.trigger_note->0 != event.1[1];
            let before = p.output_events.len();
            &&& q.trigger_note == Some(event.1[1])
            &&& q.playback_pos == 0
            &&& q.held_notes == p.held_notes.push(event.1[1])
            &&& if switched {
                &&& q.active_voices.len() == 0
                &&& q.output_events.len() == before + p.active_voices.len()
                &&& q.output_events.take(before as int) == p.output_events
                &&& forall|i: int|
                    0 <= i < p.active_voices.len() ==> {
                        let sent = q.output_events[before + i];
                        &&& sent.0 == event.0
                        &&& sent.1[0] == 0x80u8 | (#[trigger] p.active_voices[i]).channel
                        &&& sent.1[1] == p.active_voices[i].playing_note
                        &&& sent.1[2] == 0
                    }
            } else {
                q.active_voices == p.active_voices && q.output_events == p.output_events
            }
            &&& q == (PlayerView {
                trigger_note: q.trigger_note,
                playback_pos: 0,
                held_notes: q.held_notes,
                active_voices: q.active_voices,
                output_events: q.output_events,
                ..p
            })
        }),
{
    kinds_are_status_ranges(event.1);
    assert(p.keyed(event).output_events.take(p.output_events.len() as int) =~= p.output_events);
}

/// A key that is let go is no longer held. Where it drove playback, its voices get their note-offs
/// at that moment and the key pressed last among those still held takes over from the start; with
/// none held playback stops. Any other key changes nothing else.
pub proof fn released_keys_hand_over<F>(p: PlayerView<F>, event: MidiEvent)
    requires
        0x80 <= event.1[0] <= 0x8F || (0x90 <= event.1[0] <= 0x9F && event.1[2] == 0),
    ensures
        ({
            let q = p.keyed(event);
            let held = p.held_notes.filter(|n: u8| n != event.1[1]);
            let before = p.output_events.len();
            &&& q.held_notes == held
            &&& if p.trigger_note == Some(event.1[1]) {
                &&& q.trigger_note == if held.len() > 0 {
                    Some(held.last())
                } else {
                    None
                }
                &&& q.playback_pos == if held.len() > 0 {
                    0
                } else {
                    p.playback_pos
                }
                &&& q.active_voices.len() == 0
                &&& q.output_events.len() == before + p.active_voices.len()
                &&& q.output_events.take(before as int) == p.output_events
                &&& forall|i: int|
                    0 <= i < p.active_voices.len() ==> {
                        let sent = q.output_events[before + i];
                        &&& sent.0 == event.0
                        &&& sent.1[0] == 0x80u8 | (#[trigger] p.active_voices[i]).channel
                        &&& sent.1[1] == p.active_voices[i].playing_note
                        &&& sent.1[2] == 0
                    }
            } else {
                q == (PlayerView { held_notes: held, ..p })
            }
            &&& q == (PlayerView {
                trigger_note: q.trigger_note,
                playback_pos: q.playback_pos,
                held_notes: held,
                active_voices: q.active_voices,
                output_events: q.output_events,
                ..p
            })
        }),
{
    kinds_are_status_ranges(event.1);
    let keep = |n: u8| n != event.1[1];
    lemma_notes_without_is_filter(p.held_notes, event.1[1], keep);
    if p.trigger_note == Some(event.1[1]) {
        assert(p.keyed(event).output_events.take(p.output_events.len() as int) =~= p.output_events);
    }
}

/// What is not a note passes through playback unchanged.
pub proof fn controllers_pass_through_playback<F>(p: PlayerView<F>, event: MidiEvent)
    requires
        event.1[0] < 0x80 || event.1[0] > 0x9F,
    ensures
        p.keyed(event) == (PlayerView { output_events: p.output_events.push(event), ..p }),
{
    kinds_are_status_ranges(event.1);
}

/// In playback a buffer is heard one event after the other, from an empty output on.
pub proof fn playback_hears_event_by_event<F>(p: PlayerView<F>, events: Seq<MidiEvent>, event: MidiEvent)
    requires
        !p.counting_in,
        !p.recording,
        p.enabled,
        p.pattern.events.len() > 0,
        p.base_note is Some,
    ensures
        p.heard(Seq::empty()) == (PlayerView { output_events: Seq::empty(), ..p }),
        p.heard(events.push(event)) == p.heard(events).keyed(event),
        forall|frames: u64, length: u64| #[trigger] p.advanced(frames, length) == p.played(frames),
        forall|frames: u64, length: u64| #[trigger] p.report(frames, length) is None,
{
    assert(events.push(event).drop_last() =~= events);
}

/// Playback can always go on while it stands within its pattern and the sample clock has room,
/// and recording while its clock has.
pub proof fn ordinary_buffers_can_be_advanced<F>(p: PlayerView<F>, frames: u64)
    requires
        frames > 0,
        p.record_pos + frames <= u64::MAX,
        p.playback_pos + frames <= u64::MAX,
        4 * p.beat_length_samples <= u64::MAX,
        p.playback_pos <= p.pattern.length_samples,
    ensures
        p.can_advance(frames),
{
}

// ---------------------------------------------------------------------------
// Commands
// ---------------------------------------------------------------------------

/// A loaded pattern is the one that plays, and it plays if it has any event.
pub proof fn loaded_patterns_are_held<F>(p: PlayerView<F>, pattern: PatternView, base_note: Option<u8>)
    ensures
        p.loaded(pattern, base_note).pattern == pattern,
        p.loaded(pattern, base_note).base_note == base_note,
        p.loaded(pattern, base_note).enabled <==> pattern.events.len() > 0,
        p.loaded(pattern, base_note).looping == p.looping,
        p.loaded(pattern, base_note).length_beats == p.length_beats,
        p.loaded(pattern, base_note).recording == p.recording,
        p.loaded(pattern, base_note).counting_in == p.counting_in,
        p.loaded(pattern, base_note).recording_events == p.recording_events,
        p.loaded(pattern, base_note).held_notes == p.held_notes,
        p.loaded(pattern, base_note).trigger_note == p.trigger_note,
        p.loaded(pattern, base_note).active_voices == p.active_voices,
{
}

/// A cleared player has nothing to play, records nothing and hands events on.
pub proof fn cleared_players_are_idle<F>(p: PlayerView<F>, events: Seq<MidiEvent>, frames: u64, length: u64)
    ensures
        p.cleared().pattern.events.len() == 0,
        p.cleared().pattern.length_samples == 0,
        p.cleared().base_note is None,
        p.cleared().trigger_note is None,
        p.cleared().held_notes.len() == 0,
        p.cleared().active_voices.len() == 0,
        p.cleared().heard(events).output_events == events,
        p.cleared().advanced(frames, length) == p.cleared(),
        p.cleared().length_beats == p.length_beats,
        p.cleared().looping == p.looping,
        p.cleared().bpm == p.bpm,
{
}

/// A tune that is handed over brings its pattern, base note, switch and length; nothing of the old
/// one is held or sounds.
pub proof fn handed_over_tunes_arrive<F>(a: PlayerView<F>, b: PlayerView<F>)
    ensures
        ({
            let q = a.retuned(b.tune());
            &&& q.pattern == b.pattern
            &&& q.base_note == b.base_note
            &&& q.enabled == b.enabled
            &&& q.length_beats == b.length_beats
            &&& q.trigger_note is None
            &&& q.held_notes.len() == 0
            &&& q.active_voices.len() == 0
            &&& q.looping == a.looping && q.bpm == a.bpm && q.listening == a.listening
            &&& q.kb_index == a.kb_index && q.split_index == a.split_index
        }),
{
}

} // verus!
