//! Pattern recorder and player: counts in, records the notes played, and replays them transposed
//! to whatever key is held.
//!
//! Positions are counted in samples. Tempo, beats and sample rate are scalars `F` that the audio
//! code turns into sample counts.
use vstd::prelude::*;

use crate::midi::{classify, message_kind, MessageKind, MidiEvent};

verus! {

/// Beats counted in before a recording starts.
pub const COUNT_IN_BEATS: u64 = 4;

/// A single recorded MIDI event in a pattern.
#[derive(Clone, Copy, Debug, PartialEq, Eq, Structural)]
pub struct PatternEvent {
    /// Offset from the start of the pattern, in samples.
    pub frame: u64,
    /// MIDI status type: 0x90 for note-on, 0x80 for note-off.
    pub status: u8,
    /// Note number, transposed on playback.
    pub note: u8,
    pub velocity: u8,
}

/// A recorded pattern: a sequence of note events with a fixed length.
#[derive(Debug)]
pub struct Pattern {
    pub events: Vec<PatternEvent>,
    /// Total length in samples.
    pub length_samples: u64,
}

/// The mathematical content of a [`Pattern`].
#[verifier::ext_equal]
pub struct PatternView {
    pub events: Seq<PatternEvent>,
    pub length_samples: u64,
}

impl View for Pattern {
    type V = PatternView;

    open spec fn view(&self) -> PatternView {
        PatternView { events: self.events@, length_samples: self.length_samples }
    }
}

impl PatternView {
    /// The pattern without events.
    pub open spec fn empty() -> PatternView {
        PatternView { events: Seq::empty(), length_samples: 0 }
    }
}

impl Default for Pattern {
    fn default() -> (pattern: Self)
        ensures
            pattern@ == PatternView::empty(),
    {
        Pattern { events: Vec::new(), length_samples: 0 }
    }
}

/// Tells the user interface that a recording is complete.
#[derive(Debug)]
pub struct PatternNotification<F> {
    pub kb: usize,
    pub split: usize,
    pub base_note: Option<u8>,
    pub length_beats: F,
    pub looping: bool,
    pub enabled: bool,
    /// Frame, status, note and velocity of each event.
    pub events: Vec<(u64, u8, u8, u8)>,
}

/// The mathematical content of a [`PatternNotification`].
#[verifier::ext_equal]
pub struct NotificationView<F> {
    pub kb: usize,
    pub split: usize,
    pub base_note: Option<u8>,
    pub length_beats: F,
    pub looping: bool,
    pub enabled: bool,
    pub events: Seq<(u64, u8, u8, u8)>,
}

impl<F> View for PatternNotification<F> {
    type V = NotificationView<F>;

    open spec fn view(&self) -> NotificationView<F> {
        NotificationView {
            kb: self.kb,
            split: self.split,
            base_note: self.base_note,
            length_beats: self.length_beats,
            looping: self.looping,
            enabled: self.enabled,
            events: self.events@,
        }
    }
}

/// The content of a notification that may not have been made.
pub open spec fn notification_view<F>(n: Option<PatternNotification<F>>) -> Option<NotificationView<F>> {
    match n {
        Some(n) => Some(n@),
        None => None,
    }
}

/// One voice that pattern playback keeps sounding.
#[derive(Clone, Copy, Debug, PartialEq, Eq, Structural)]
pub struct PatternVoice {
    /// The note as the pattern has it.
    pub pattern_note: u8,
    /// The transposed note that sounds.
    pub playing_note: u8,
    pub channel: u8,
}

/// Per-split pattern recorder and player.
#[derive(Debug)]
pub struct PatternPlayer<F> {
    pub pattern: Pattern,
    pub enabled: bool,
    pub recording: bool,
    /// The metronome ticks, but nothing is recorded at its own time yet.
    pub counting_in: bool,
    /// Playback position within the pattern.
    pub playback_pos: u64,
    /// Samples since the count-in, or the recording after it, began.
    pub record_pos: u64,
    pub sample_rate: F,
    /// The first note that was recorded: the one that the pattern is played from as it was.
    pub base_note: Option<u8>,
    /// The held note that drives playback.
    pub trigger_note: Option<u8>,
    /// All notes held, oldest first.
    pub held_notes: Vec<u8>,
    pub active_voices: Vec<PatternVoice>,
    /// The events of the current buffer after pattern handling.
    pub output_events: Vec<MidiEvent>,
    pub recording_events: Vec<PatternEvent>,
    pub length_beats: F,
    pub looping: bool,
    pub bpm: F,
    /// Whether anybody wants to hear of finished recordings.
    pub listening: bool,
    pub kb_index: usize,
    pub split_index: usize,
    /// Samples since the count-in began; keeps running through the recording.
    pub metronome_pos: u64,
    pub beat_length_samples: u64,
    /// Phase of the click oscillator.
    pub click_phase: F,
    /// Samples left of the current click.
    pub click_remaining: u32,
    pub click_is_downbeat: bool,
}

/// The mathematical content of a [`PatternPlayer`].
#[verifier::ext_equal]
pub struct PlayerView<F> {
    pub pattern: PatternView,
    pub enabled: bool,
    pub recording: bool,
    pub counting_in: bool,
    pub playback_pos: u64,
    pub record_pos: u64,
    pub sample_rate: F,
    pub base_note: Option<u8>,
    pub trigger_note: Option<u8>,
    pub held_notes: Seq<u8>,
    pub active_voices: Seq<PatternVoice>,
    pub output_events: Seq<MidiEvent>,
    pub recording_events: Seq<PatternEvent>,
    pub length_beats: F,
    pub looping: bool,
    pub bpm: F,
    pub listening: bool,
    pub kb_index: usize,
    pub split_index: usize,
    pub metronome_pos: u64,
    pub beat_length_samples: u64,
    pub click_phase: F,
    pub click_remaining: u32,
    pub click_is_downbeat: bool,
}

impl<F> View for PatternPlayer<F> {
    type V = PlayerView<F>;

    open spec fn view(&self) -> PlayerView<F> {
        PlayerView {
            pattern: self.pattern@,
            enabled: self.enabled,
            recording: self.recording,
            counting_in: self.counting_in,
            playback_pos: self.playback_pos,
            record_pos: self.record_pos,
            sample_rate: self.sample_rate,
            base_note: self.base_note,
            trigger_note: self.trigger_note,
            held_notes: self.held_notes@,
            active_voices: self.active_voices@,
            output_events: self.output_events@,
            recording_events: self.recording_events@,
            length_beats: self.length_beats,
            looping: self.looping,
            bpm: self.bpm,
            listening: self.listening,
            kb_index: self.kb_index,
            split_index: self.split_index,
            metronome_pos: self.metronome_pos,
            beat_length_samples: self.beat_length_samples,
            click_phase: self.click_phase,
            click_remaining: self.click_remaining,
            click_is_downbeat: self.click_is_downbeat,
        }
    }
}

// ---------------------------------------------------------------------------
// Sequences of notes, voices and events
// ---------------------------------------------------------------------------

/// The notes other than `note`, in order.
pub open spec fn notes_without(notes: Seq<u8>, note: u8) -> Seq<u8>
    decreases notes.len(),
{
    if notes.len() == 0 {
        Seq::empty()
    } else {
        let rest = notes_without(notes.drop_last(), note);
        if notes.last() == note {
            rest
        } else {
            rest.push(notes.last())
        }
    }
}

/// The voices that do not play `note` of the pattern, in order.
pub open spec fn voices_without(voices: Seq<PatternVoice>, note: u8) -> Seq<PatternVoice>
    decreases voices.len(),
{
    if voices.len() == 0 {
        Seq::empty()
    } else {
        let rest = voices_without(voices.drop_last(), note);
        if voices.last().pattern_note == note {
            rest
        } else {
            rest.push(voices.last())
        }
    }
}

/// The events that begin before `end`, in order.
pub open spec fn events_before(events: Seq<PatternEvent>, end: u64) -> Seq<PatternEvent>
    decreases events.len(),
{
    if events.len() == 0 {
        Seq::empty()
    } else {
        let rest = events_before(events.drop_last(), end);
        if events.last().frame < end {
            rest.push(events.last())
        } else {
            rest
        }
    }
}

/// The note of the first note-on among `events`.
pub open spec fn first_note(events: Seq<PatternEvent>) -> Option<u8>
    decreases events.len(),
{
    if events.len() == 0 {
        None
    } else if events[0].status == 0x90 {
        Some(events[0].note)
    } else {
        first_note(events.drop_first())
    }
}

/// A note-off at `frame` for each voice, in order.
pub open spec fn note_offs(voices: Seq<PatternVoice>, frame: u64) -> Seq<MidiEvent> {
    voices.map_values(|v: PatternVoice| (frame, [0x80u8 | v.channel, v.playing_note, 0u8]))
}

/// The pattern event that records a MIDI message at `frame`, if it is a note.
pub open spec fn recorded_event(bytes: [u8; 3], frame: u64) -> Option<PatternEvent> {
    match message_kind(bytes) {
        MessageKind::NoteOn => Some(
            PatternEvent { frame, status: 0x90, note: bytes[1], velocity: bytes[2] },
        ),
        MessageKind::NoteOff => Some(
            PatternEvent { frame, status: 0x80, note: bytes[1], velocity: 0 },
        ),
        MessageKind::Other => None,
    }
}

/// `recorded` followed by the notes among `events`. With a position, each note stands at its
/// frame counted from there; without one, all stand at the start.
pub open spec fn captured(recorded: Seq<PatternEvent>, events: Seq<MidiEvent>, pos: Option<u64>) -> Seq<
    PatternEvent,
>
    decreases events.len(),
{
    if events.len() == 0 {
        recorded
    } else {
        let rest = captured(recorded, events.drop_last(), pos);
        let frame = match pos {
            Some(p) => (p + events.last().0) as u64,
            None => 0u64,
        };
        match recorded_event(events.last().1, frame) {
            Some(e) => rest.push(e),
            None => rest,
        }
    }
}

// ---------------------------------------------------------------------------
// The player as a mathematical machine
// ---------------------------------------------------------------------------

/// What a player does with the buffer at hand.
pub enum PlayerMode {
    CountIn,
    Recording,
    /// Nothing to play: events pass through.
    Bypass,
    Playing,
}

impl<F> PlayerView<F> {
    pub open spec fn mode(self) -> PlayerMode {
        if self.counting_in {
            PlayerMode::CountIn
        } else if self.recording {
            PlayerMode::Recording
        } else if !self.enabled || self.pattern.events.len() == 0 || self.base_note is None {
            PlayerMode::Bypass
        } else {
            PlayerMode::Playing
        }
    }

    /// The player after every sounding voice was silenced at `frame`.
    pub open spec fn silenced(self, frame: u64) -> PlayerView<F> {
        PlayerView {
            output_events: self.output_events + note_offs(self.active_voices, frame),
            active_voices: Seq::empty(),
            ..self
        }
    }

    /// The player after the key of one event, in playback: keys choose the trigger, everything
    /// else passes through.
    pub open spec fn keyed(self, event: MidiEvent) -> PlayerView<F> {
        let note = event.1[1];
        match message_kind(event.1) {
            MessageKind::NoteOn => {
                let p = if self.trigger_note is Some && self.trigger_note != Some(note) {
                    self.silenced(event.0)
                } else {
                    self
                };
                PlayerView {
                    held_notes: self.held_notes.push(note),
                    trigger_note: Some(note),
                    playback_pos: 0,
                    ..p
                }
            },
            MessageKind::NoteOff => {
                let held = notes_without(self.held_notes, note);
                if self.trigger_note != Some(note) {
                    PlayerView { held_notes: held, ..self }
                } else if held.len() > 0 {
                    PlayerView {
                        held_notes: held,
                        trigger_note: Some(held.last()),
                        playback_pos: 0,
                        ..self.silenced(event.0)
                    }
                } else {
                    PlayerView { held_notes: held, trigger_note: None, ..self.silenced(event.0) }
                }
            },
            MessageKind::Other => PlayerView {
                output_events: self.output_events.push(event),
                ..self
            },
        }
    }

    /// The player after the keys of a run of events.
    pub open spec fn keyed_all(self, events: Seq<MidiEvent>) -> PlayerView<F>
        decreases events.len(),
    {
        if events.len() == 0 {
            self
        } else {
            self.keyed_all(events.drop_last()).keyed(events.last())
        }
    }

    /// The player after it took in the events of a buffer.
    pub open spec fn heard(self, events: Seq<MidiEvent>) -> PlayerView<F> {
        match self.mode() {
            PlayerMode::CountIn => PlayerView {
                recording_events: captured(self.recording_events, events, None),
                output_events: events,
                ..self
            },
            PlayerMode::Recording => PlayerView {
                recording_events: captured(self.recording_events, events, Some(self.record_pos)),
                output_events: events,
                ..self
            },
            PlayerMode::Bypass => PlayerView { output_events: events, ..self },
            PlayerMode::Playing => PlayerView { output_events: Seq::empty(), ..self }.keyed_all(events),
        }
    }

    /// The player after one event of the pattern sounded.
    pub open spec fn sounded(self, event: PatternEvent, start: u64, transpose: int, offset: u64) -> PlayerView<F> {
        let frame = (event.frame - start + offset) as u64;
        let note = transposed(event.note as int, transpose);
        if event.status == 0x90 {
            PlayerView {
                output_events: self.output_events.push((frame, [0x90u8, note, event.velocity])),
                active_voices: self.active_voices.push(
                    PatternVoice { pattern_note: event.note, playing_note: note, channel: 0 },
                ),
                ..self
            }
        } else {
            PlayerView {
                output_events: self.output_events.push((frame, [0x80u8, note, 0u8])),
                active_voices: voices_without(self.active_voices, event.note),
                ..self
            }
        }
    }

    /// The player after those of the first `count` events of its pattern sounded that lie in
    /// `start..end`, moved to start at `offset` of the buffer.
    pub open spec fn emitted(
        self,
        start: u64,
        end: u64,
        transpose: int,
        offset: u64,
        count: int,
    ) -> PlayerView<F>
        decreases count,
    {
        if count <= 0 {
            self
        } else {
            let p = self.emitted(start, end, transpose, offset, count - 1);
            let e = self.pattern.events[count - 1];
            if start <= e.frame < end {
                p.sounded(e, start, transpose, offset)
            } else {
                p
            }
        }
    }

    /// The player after all events of its pattern in `start..end` sounded.
    pub open spec fn emitted_range(self, start: u64, end: u64, transpose: int, offset: u64) -> PlayerView<F> {
        self.emitted(start, end, transpose, offset, self.pattern.events.len() as int)
    }

    /// The player after `frames` samples of playback.
    pub open spec fn played(self, frames: u64) -> PlayerView<F> {
        if self.trigger_note is None || self.base_note is None || self.pattern.length_samples == 0 {
            self
        } else {
            let transpose = self.trigger_note->0 as int - self.base_note->0 as int;
            let len = self.pattern.length_samples;
            let start = self.playback_pos;
            let end = (start + frames) as u64;
            if end > len {
                let p = self.emitted_range(start, len, transpose, 0).silenced((len - start) as u64);
                if self.looping {
                    let rest = (end - len) as u64;
                    PlayerView {
                        playback_pos: rest,
                        ..p.emitted_range(0, rest, transpose, (len - start) as u64)
                    }
                } else {
                    PlayerView { playback_pos: len, ..p }
                }
            } else {
                let p = PlayerView {
                    playback_pos: end,
                    ..self.emitted_range(start, end, transpose, 0)
                };
                if end < len {
                    p
                } else {
                    PlayerView {
                        playback_pos: if self.looping {
                            0
                        } else {
                            end
                        },
                        ..p.silenced((frames - 1) as u64)
                    }
                }
            }
        }
    }

    /// The player with its recording turned into its pattern, `length` samples long.
    pub open spec fn finalized(self, length: u64) -> PlayerView<F> {
        let events = events_before(self.recording_events, length);
        PlayerView {
            pattern: PatternView { events, length_samples: length },
            base_note: first_note(events),
            recording_events: Seq::empty(),
            recording: false,
            counting_in: false,
            enabled: events.len() > 0,
            click_remaining: 0,
            ..self
        }
    }

    /// What the user interface is told about the pattern that the player holds.
    pub open spec fn notification(self) -> NotificationView<F> {
        NotificationView {
            kb: self.kb_index,
            split: self.split_index,
            base_note: self.base_note,
            length_beats: self.length_beats,
            looping: self.looping,
            enabled: self.enabled,
            events: self.pattern.events.map_values(
                |e: PatternEvent| (e.frame, e.status, e.note, e.velocity),
            ),
        }
    }

    /// Whether `frames` samples complete the recording of a pattern of `length` samples.
    pub open spec fn completes(self, frames: u64, length: u64) -> bool {
        self.mode() is Recording && self.record_pos + frames >= length
    }

    /// The player after `frames` samples, where a pattern lasts `length` samples.
    pub open spec fn advanced(self, frames: u64, length: u64) -> PlayerView<F> {
        let pos = (self.record_pos + frames) as u64;
        match self.mode() {
            PlayerMode::CountIn => if pos >= COUNT_IN_BEATS * self.beat_length_samples {
                PlayerView { counting_in: false, recording: true, record_pos: 0, ..self }
            } else {
                PlayerView { record_pos: pos, ..self }
            },
            PlayerMode::Recording => {
                let p = PlayerView { record_pos: pos, ..self };
                if pos >= length {
                    p.finalized(length)
                } else {
                    p
                }
            },
            PlayerMode::Bypass => self,
            PlayerMode::Playing => self.played(frames),
        }
    }

    /// What is reported after `frames` samples: a finished recording, where somebody listens.
    pub open spec fn report(self, frames: u64, length: u64) -> Option<NotificationView<F>> {
        if self.completes(frames, length) && self.listening {
            Some(self.advanced(frames, length).notification())
        } else {
            None
        }
    }

    /// Whether the events of a buffer can be recorded without running off the sample clock.
    pub open spec fn can_hear(self, events: Seq<MidiEvent>) -> bool {
        self.mode() is Recording ==> forall|i: int|
            0 <= i < events.len() ==> self.record_pos + (#[trigger] events[i]).0 <= u64::MAX
    }

    /// Whether the player can advance by `frames` samples: the sample clock must not run out, and
    /// playback must not stand behind the end of its pattern.
    pub open spec fn can_advance(self, frames: u64) -> bool {
        match self.mode() {
            PlayerMode::CountIn => {
                &&& self.record_pos + frames <= u64::MAX
                &&& COUNT_IN_BEATS * self.beat_length_samples <= u64::MAX
            },
            PlayerMode::Recording => self.record_pos + frames <= u64::MAX,
            PlayerMode::Bypass => true,
            PlayerMode::Playing => self.trigger_note is Some && self.pattern.length_samples > 0 ==> {
                let len = self.pattern.length_samples;
                let silent = self.active_voices.len() == 0;
                &&& self.playback_pos + frames <= u64::MAX
                &&& self.playback_pos <= len || (!self.looping && silent)
                &&& self.playback_pos + frames == len && frames == 0 ==> silent
            },
        }
    }
}

/// A note moved by `by` semitones and held within the MIDI range.
pub open spec fn transposed(note: int, by: int) -> u8 {
    if note + by < 0 {
        0
    } else if note + by > 127 {
        127
    } else {
        (note + by) as u8
    }
}

// ---------------------------------------------------------------------------
// The player itself
// ---------------------------------------------------------------------------

/// Scalars with which a player starts out.
#[derive(Clone, Copy, Debug)]
pub struct PlayerDefaults<F> {
    pub sample_rate: F,
    pub length_beats: F,
    pub bpm: F,
    pub zero: F,
}

impl<F> PlayerView<F> {
    /// A player that holds no pattern and hears nothing.
    pub open spec fn initial(d: PlayerDefaults<F>) -> PlayerView<F> {
        PlayerView {
            pattern: PatternView::empty(),
            enabled: false,
            recording: false,
            counting_in: false,
            playback_pos: 0,
            record_pos: 0,
            sample_rate: d.sample_rate,
            base_note: None,
            trigger_note: None,
            held_notes: Seq::empty(),
            active_voices: Seq::empty(),
            output_events: Seq::empty(),
            recording_events: Seq::empty(),
            length_beats: d.length_beats,
            looping: true,
            bpm: d.bpm,
            listening: false,
            kb_index: 0,
            split_index: 0,
            metronome_pos: 0,
            beat_length_samples: 0,
            click_phase: d.zero,
            click_remaining: 0,
            click_is_downbeat: false,
        }
    }
}

/// Appends all of `events` to `out`.
fn extend_events(out: &mut Vec<MidiEvent>, events: &[MidiEvent])
    ensures
        final(out)@ == old(out)@ + events@,
{
    let n: usize = events.len();
    let mut i: usize = 0;
    while i < n
        invariant
            i <= n,
            n == events@.len(),
            out@ == old(out)@ + events@.take(i as int),
        decreases n - i,
    {
        out.push(events[i]);
        i = i + 1;
        assert(events@.take(i as int) =~= events@.take(i - 1).push(events@[i - 1]));
    }
    assert(events@.take(n as int) =~= events@);
}

/// The pattern event that records `bytes` at `frame`, if it is a note.
fn record_event(bytes: [u8; 3], frame: u64) -> (event: Option<PatternEvent>)
    ensures
        event == recorded_event(bytes, frame),
{
    match classify(bytes) {
        MessageKind::NoteOn => Some(
            PatternEvent { frame, status: 0x90, note: bytes[1], velocity: bytes[2] },
        ),
        MessageKind::NoteOff => Some(PatternEvent { frame, status: 0x80, note: bytes[1], velocity: 0 }),
        MessageKind::Other => None,
    }
}

/// A note moved by `by` semitones and held within the MIDI range.
fn transpose_note(note: u8, by: i16) -> (moved: u8)
    requires
        -255 <= by <= 255,
    ensures
        moved == transposed(note as int, by as int),
{
    let sum: i16 = note as i16 + by;
    if sum < 0 {
        0
    } else if sum > 127 {
        127
    } else {
        sum as u8
    }
}

/// The note of the first note-on among `events`.
fn find_first_note(events: &Vec<PatternEvent>) -> (first: Option<u8>)
    ensures
        first == first_note(events@),
{
    let n: usize = events.len();
    let mut i: usize = 0;
    assert(events@.skip(0) =~= events@);
    while i < n
        invariant
            i <= n,
            n == events@.len(),
            first_note(events@) == first_note(events@.skip(i as int)),
        decreases n - i,
    {
        if events[i].status == 0x90 {
            return Some(events[i].note);
        }
        assert(events@.skip(i as int).drop_first() =~= events@.skip(i + 1));
        i = i + 1;
    }
    None
}

impl<F: Copy> PatternPlayer<F> {
    /// A player that holds no pattern.
    pub fn new(defaults: PlayerDefaults<F>) -> (player: Self)
        ensures
            player@ == PlayerView::initial(defaults),
    {
        PatternPlayer {
            pattern: Pattern { events: Vec::new(), length_samples: 0 },
            enabled: false,
            recording: false,
            counting_in: false,
            playback_pos: 0,
            record_pos: 0,
            sample_rate: defaults.sample_rate,
            base_note: None,
            trigger_note: None,
            held_notes: Vec::new(),
            active_voices: Vec::new(),
            output_events: Vec::new(),
            recording_events: Vec::new(),
            length_beats: defaults.length_beats,
            looping: true,
            bpm: defaults.bpm,
            listening: false,
            kb_index: 0,
            split_index: 0,
            metronome_pos: 0,
            beat_length_samples: 0,
            click_phase: defaults.zero,
            click_remaining: 0,
            click_is_downbeat: false,
        }
    }

    /// Whether playback has something to play.
    fn is_playing(&self) -> (playing: bool)
        ensures
            playing == (self.enabled && self.pattern.events@.len() > 0 && self.base_note is Some),
    {
        self.enabled && self.pattern.events.len() > 0 && self.base_note.is_some()
    }

    /// Whether the events of a buffer can be recorded without running off the sample clock.
    pub fn check_hear(&self, midi_in: &[MidiEvent]) -> (ok: bool)
        ensures
            ok == self@.can_hear(midi_in@),
    {
        if self.counting_in || !self.recording {
            return true;
        }
        let n: usize = midi_in.len();
        let mut i: usize = 0;
        while i < n
            invariant
                i <= n,
                n == midi_in@.len(),
                self@.mode() is Recording,
                forall|k: int|
                    0 <= k < i ==> self.record_pos + (#[trigger] midi_in@[k]).0 <= u64::MAX,
            decreases n - i,
        {
            if midi_in[i].0 > u64::MAX - self.record_pos {
                assert(self.record_pos + midi_in@[i as int].0 > u64::MAX);
                return false;
            }
            i = i + 1;
        }
        true
    }

    /// Whether the player can advance by `frames` samples.
    pub fn check_advance(&self, frames: u64) -> (ok: bool)
        ensures
            ok == self@.can_advance(frames),
    {
        if self.counting_in {
            frames <= u64::MAX - self.record_pos && self.beat_length_samples <= u64::MAX / COUNT_IN_BEATS
        } else if self.recording {
            frames <= u64::MAX - self.record_pos
        } else if self.is_playing() && self.trigger_note.is_some() && self.pattern.length_samples > 0 {
            let len: u64 = self.pattern.length_samples;
            let silent = self.active_voices.len() == 0;
            frames <= u64::MAX - self.playback_pos && (self.playback_pos <= len || (!self.looping && silent)) && (
            frames != 0 || self.playback_pos != len || silent)
        } else {
            true
        }
    }

    /// Takes in the events of a buffer: records them while counting in or recording, lets them
    /// choose the trigger while playing.
    pub fn hear(&mut self, midi_in: &[MidiEvent])
        requires
            old(self)@.can_hear(midi_in@),
        ensures
            final(self)@ == old(self)@.heard(midi_in@),
    {
        self.output_events.clear();
        if self.counting_in {
            self.capture(midi_in, true);
            extend_events(&mut self.output_events, midi_in);
        } else if self.recording {
            self.capture(midi_in, false);
            extend_events(&mut self.output_events, midi_in);
        } else if !self.is_playing() {
            extend_events(&mut self.output_events, midi_in);
        } else {
            let ghost start = self@;
            let n: usize = midi_in.len();
            let mut i: usize = 0;
            while i < n
                invariant
                    i <= n,
                    n == midi_in@.len(),
                    self@ == start.keyed_all(midi_in@.take(i as int)),
                decreases n - i,
            {
                proof {
                    assert(midi_in@.take(i + 1).drop_last() =~= midi_in@.take(i as int));
                }
                self.key(midi_in[i]);
                i = i + 1;
            }
            proof {
                assert(midi_in@.take(n as int) =~= midi_in@);
                assert(start == (PlayerView { output_events: Seq::empty(), ..old(self)@ }));
            }
        }
    }

    /// Records the notes of a buffer: at the start while counting in, else at their own time.
    fn capture(&mut self, midi_in: &[MidiEvent], snap: bool)
        requires
            !snap ==> forall|i: int|
                0 <= i < midi_in@.len() ==> old(self).record_pos + (#[trigger] midi_in@[i]).0 <= u64::MAX,
        ensures
            final(self)@ == (PlayerView {
                recording_events: captured(
                    old(self).recording_events@,
                    midi_in@,
                    if snap {
                        None
                    } else {
                        Some(old(self).record_pos)
                    },
                ),
                ..old(self)@
            }),
    {
        let ghost pos = if snap {
            None
        } else {
            Some(self.record_pos)
        };
        let n: usize = midi_in.len();
        let mut i: usize = 0;
        while i < n
            invariant
                i <= n,
                n == midi_in@.len(),
                pos == (if snap {
                    None
                } else {
                    Some(self.record_pos)
                }),
                !snap ==> forall|i: int|
                    0 <= i < midi_in@.len() ==> self.record_pos + (#[trigger] midi_in@[i]).0 <= u64::MAX,
                self@ == (PlayerView { recording_events: self.recording_events@, ..old(self)@ }),
                self.recording_events@ == captured(
                    old(self).recording_events@,
                    midi_in@.take(i as int),
                    pos,
                ),
            decreases n - i,
        {
            proof {
                assert(midi_in@.take(i + 1).drop_last() =~= midi_in@.take(i as int));
            }
            let (frame, bytes) = midi_in[i];
            let at: u64 = if snap {
                0
            } else {
                self.record_pos + frame
            };
            if let Some(e) = record_event(bytes, at) {
                self.recording_events.push(e);
            }
            i = i + 1;
        }
        proof {
            assert(midi_in@.take(n as int) =~= midi_in@);
        }
    }

    /// Silences every sounding voice at `frame`.
    fn silence(&mut self, frame: u64)
        ensures
            final(self)@ == old(self)@.silenced(frame),
    {
        let ghost offs = note_offs(self.active_voices@, frame);
        let n: usize = self.active_voices.len();
        let mut i: usize = 0;
        while i < n
            invariant
                i <= n,
                n == self.active_voices@.len(),
                offs == note_offs(self.active_voices@, frame),
                self@ == (PlayerView { output_events: self.output_events@, ..old(self)@ }),
                self.output_events@ == old(self).output_events@ + offs.take(i as int),
            decreases n - i,
        {
            let voice = self.active_voices[i];
            self.output_events.push((frame, [0x80 | voice.channel, voice.playing_note, 0]));
            i = i + 1;
            assert(offs.take(i as int) =~= offs.take(i - 1).push(offs[i - 1]));
        }
        assert(offs.take(n as int) =~= offs);
        self.active_voices.clear();
    }

    /// Forgets a held note.
    fn release_note(&mut self, note: u8)
        ensures
            final(self)@ == (PlayerView {
                held_notes: notes_without(old(self).held_notes@, note),
                ..old(self)@
            }),
    {
        let mut kept: Vec<u8> = Vec::new();
        let n: usize = self.held_notes.len();
        let mut i: usize = 0;
        while i < n
            invariant
                i <= n,
                n == self.held_notes@.len(),
                *self == *old(self),
                kept@ == notes_without(self.held_notes@.take(i as int), note),
            decreases n - i,
        {
            proof {
                assert(self.held_notes@.take(i + 1).drop_last() =~= self.held_notes@.take(i as int));
            }
            if self.held_notes[i] != note {
                kept.push(self.held_notes[i]);
            }
            i = i + 1;
        }
        proof {
            assert(self.held_notes@.take(n as int) =~= self.held_notes@);
        }
        self.held_notes = kept;
    }

    /// Lets the key of one event choose the trigger.
    fn key(&mut self, event: MidiEvent)
        ensures
            final(self)@ == old(self)@.keyed(event),
    {
        let (frame, bytes) = event;
        let note: u8 = bytes[1];
        match classify(bytes) {
            MessageKind::NoteOn => {
                self.held_notes.push(note);
                if let Some(trigger) = self.trigger_note {
                    if trigger != note {
                        self.silence(frame);
                    }
                }
                self.trigger_note = Some(note);
                self.playback_pos = 0;
            },
            MessageKind::NoteOff => {
                self.release_note(note);
                let is_trigger = match self.trigger_note {
                    Some(trigger) => trigger == note,
                    None => false,
                };
                if is_trigger {
                    self.silence(frame);
                    let held: usize = self.held_notes.len();
                    if held > 0 {
                        self.trigger_note = Some(self.held_notes[held - 1]);
                        self.playback_pos = 0;
                    } else {
                        self.trigger_note = None;
                    }
                }
            },
            MessageKind::Other => {
                self.output_events.push(event);
            },
        }
    }

    /// Stops the voices that play `note` of the pattern.
    fn stop_voices(&mut self, note: u8)
        ensures
            final(self)@ == (PlayerView {
                active_voices: voices_without(old(self).active_voices@, note),
                ..old(self)@
            }),
    {
        let mut kept: Vec<PatternVoice> = Vec::new();
        let n: usize = self.active_voices.len();
        let mut i: usize = 0;
        while i < n
            invariant
                i <= n,
                n == self.active_voices@.len(),
                *self == *old(self),
                kept@ == voices_without(self.active_voices@.take(i as int), note),
            decreases n - i,
        {
            proof {
                assert(self.active_voices@.take(i + 1).drop_last() =~= self.active_voices@.take(i as int));
            }
            if self.active_voices[i].pattern_note != note {
                kept.push(self.active_voices[i]);
            }
            i = i + 1;
        }
        proof {
            assert(self.active_voices@.take(n as int) =~= self.active_voices@);
        }
        self.active_voices = kept;
    }

    /// Sounds one event of the pattern.
    fn sound(&mut self, event: PatternEvent, start: u64, transpose: i16, offset: u64)
        requires
            event.frame >= start,
            event.frame - start + offset <= u64::MAX,
            -255 <= transpose <= 255,
        ensures
            final(self)@ == old(self)@.sounded(event, start, transpose as int, offset),
    {
        let frame: u64 = event.frame - start + offset;
        let note: u8 = transpose_note(event.note, transpose);
        if event.status == 0x90 {
            self.output_events.push((frame, [0x90, note, event.velocity]));
            self.active_voices.push(
                PatternVoice { pattern_note: event.note, playing_note: note, channel: 0 },
            );
        } else {
            self.output_events.push((frame, [0x80, note, 0]));
            self.stop_voices(event.note);
        }
    }

    /// Sounds the events of the pattern in `start..end`, moved to start at `offset`.
    fn emit_events_in_range(&mut self, start: u64, end: u64, transpose: i16, offset: u64)
        requires
            start <= end ==> end - start + offset <= u64::MAX,
            -255 <= transpose <= 255,
        ensures
            final(self)@ == old(self)@.emitted_range(start, end, transpose as int, offset),
            final(self)@ == (PlayerView {
                output_events: final(self).output_events@,
                active_voices: final(self).active_voices@,
                ..old(self)@
            }),
    {
        let n: usize = self.pattern.events.len();
        let mut i: usize = 0;
        while i < n
            invariant
                i <= n,
                start <= end ==> end - start + offset <= u64::MAX,
                -255 <= transpose <= 255,
                n == self.pattern.events@.len(),
                self@ == (PlayerView {
                    output_events: self.output_events@,
                    active_voices: self.active_voices@,
                    ..old(self)@
                }),
                self@ == old(self)@.emitted(start, end, transpose as int, offset, i as int),
            decreases n - i,
        {
            let e = self.pattern.events[i];
            if e.frame >= start && e.frame < end {
                self.sound(e, start, transpose, offset);
            }
            i = i + 1;
        }
    }

    /// Plays `frames` samples of the pattern.
    fn play(&mut self, frames: u64)
        requires
            old(self)@.mode() is Playing,
            old(self)@.can_advance(frames),
        ensures
            final(self)@ == old(self)@.played(frames),
    {
        let (trigger, base): (u8, u8) = match (self.trigger_note, self.base_note) {
            (Some(trigger), Some(base)) => (trigger, base),
            _ => return,
        };
        let transpose: i16 = trigger as i16 - base as i16;
        let len: u64 = self.pattern.length_samples;
        if len == 0 {
            return;
        }
        let start: u64 = self.playback_pos;
        let end: u64 = start + frames;
        if end > len {
            if start > len {
                proof {
                    self@.lemma_emit_nothing(start, len, transpose as int, 0, self@.pattern.events.len() as int);
                    assert(note_offs(self@.active_voices, (len - start) as u64) =~= Seq::<MidiEvent>::empty());
                    assert(self@.silenced((len - start) as u64) =~= self@);
                }
                self.playback_pos = len;
                return;
            }
            self.emit_events_in_range(start, len, transpose, 0);
            self.silence(len - start);
            if self.looping {
                let rest: u64 = end - len;
                self.emit_events_in_range(0, rest, transpose, len - start);
                self.playback_pos = rest;
            } else {
                self.playback_pos = len;
            }
        } else {
            self.emit_events_in_range(start, end, transpose, 0);
            self.playback_pos = end;
            if end >= len {
                if frames > 0 {
                    self.silence(frames - 1);
                } else {
                    proof {
                        old(self)@.lemma_emit_nothing(
                            start,
                            end,
                            transpose as int,
                            0,
                            old(self)@.pattern.events.len() as int,
                        );
                        assert(note_offs(self@.active_voices, (frames - 1) as u64) =~= Seq::<MidiEvent>::empty());
                        assert(self@.silenced((frames - 1) as u64) =~= self@);
                    }
                }
                if self.looping {
                    self.playback_pos = 0;
                }
            }
        }
    }

    /// Turns the recording into the pattern, `length_samples` long.
    fn finalize_recording(&mut self, length_samples: u64) -> (note: Option<PatternNotification<F>>)
        ensures
            final(self)@ == old(self)@.finalized(length_samples),
            notification_view(note) == (if old(self).listening {
                Some(old(self)@.finalized(length_samples).notification())
            } else {
                None
            }),
    {
        let mut kept: Vec<PatternEvent> = Vec::new();
        let n: usize = self.recording_events.len();
        let mut i: usize = 0;
        while i < n
            invariant
                i <= n,
                n == self.recording_events@.len(),
                *self == *old(self),
                kept@ == events_before(self.recording_events@.take(i as int), length_samples),
            decreases n - i,
        {
            proof {
                assert(self.recording_events@.take(i + 1).drop_last() =~= self.recording_events@.take(i as int));
            }
            if self.recording_events[i].frame < length_samples {
                kept.push(self.recording_events[i]);
            }
            i = i + 1;
        }
        proof {
            assert(self.recording_events@.take(n as int) =~= self.recording_events@);
        }
        self.base_note = find_first_note(&kept);
        self.enabled = kept.len() > 0;
        self.pattern = Pattern { events: kept, length_samples };
        self.recording_events.clear();
        self.recording = false;
        self.counting_in = false;
        self.click_remaining = 0;
        if self.listening {
            Some(self.describe())
        } else {
            None
        }
    }

    /// What the user interface is told about the pattern.
    fn describe(&self) -> (note: PatternNotification<F>)
        ensures
            note@ == self@.notification(),
    {
        let mut events: Vec<(u64, u8, u8, u8)> = Vec::new();
        let n: usize = self.pattern.events.len();
        let mut i: usize = 0;
        while i < n
            invariant
                i <= n,
                n == self.pattern.events@.len(),
                events@ == self@.notification().events.take(i as int),
            decreases n - i,
        {
            let e = self.pattern.events[i];
            events.push((e.frame, e.status, e.note, e.velocity));
            i = i + 1;
            assert(self@.notification().events.take(i as int) =~= self@.notification().events.take(i - 1).push(
                self@.notification().events[i - 1],
            ));
        }
        assert(self@.notification().events.take(n as int) =~= self@.notification().events);
        PatternNotification {
            kb: self.kb_index,
            split: self.split_index,
            base_note: self.base_note,
            length_beats: self.length_beats,
            looping: self.looping,
            enabled: self.enabled,
            events,
        }
    }

    /// Advances by a buffer of `frames` samples. `length` is how many samples a pattern lasts at
    /// the current tempo; it matters while recording only.
    pub fn advance(&mut self, frames: u64, length: u64) -> (note: Option<PatternNotification<F>>)
        requires
            old(self)@.can_advance(frames),
        ensures
            final(self)@ == old(self)@.advanced(frames, length),
            notification_view(note) == old(self)@.report(frames, length),
    {
        if self.counting_in {
            let count_in: u64 = COUNT_IN_BEATS * self.beat_length_samples;
            self.record_pos = self.record_pos + frames;
            if self.record_pos >= count_in {
                self.counting_in = false;
                self.recording = true;
                self.record_pos = 0;
            }
            None
        } else if self.recording {
            self.record_pos = self.record_pos + frames;
            if self.record_pos >= length {
                self.finalize_recording(length)
            } else {
                None
            }
        } else {
            if self.is_playing() {
                self.play(frames);
            }
            None
        }
    }

    /// Handles one buffer: takes in its events and advances by its samples. What comes out is in
    /// `output_events`.
    pub fn process(&mut self, midi_in: &[MidiEvent], frames: u64, length: u64) -> (note: Option<
        PatternNotification<F>,
    >)
        requires
            old(self)@.can_hear(midi_in@),
            old(self)@.heard(midi_in@).can_advance(frames),
        ensures
            final(self)@ == old(self)@.heard(midi_in@).advanced(frames, length),
            notification_view(note) == old(self)@.heard(midi_in@).report(frames, length),
    {
        self.hear(midi_in);
        self.advance(frames, length)
    }
}

impl<F> PlayerView<F> {
    /// No event lies in an empty range.
    proof fn lemma_emit_nothing(self, start: u64, end: u64, transpose: int, offset: u64, count: int)
        requires
            end <= start,
        ensures
            self.emitted(start, end, transpose, offset, count) == self,
        decreases count,
    {
        if count > 0 {
            self.lemma_emit_nothing(start, end, transpose, offset, count - 1);
        }
    }
}

// ---------------------------------------------------------------------------
// Commands
// ---------------------------------------------------------------------------

/// What two players exchange when their patterns are swapped.
#[verifier::ext_equal]
pub struct TuneView<F> {
    pub pattern: PatternView,
    pub base_note: Option<u8>,
    pub enabled: bool,
    pub length_beats: F,
}

/// A pattern with the settings that travel with it.
#[derive(Debug)]
pub struct Tune<F> {
    pub pattern: Pattern,
    pub base_note: Option<u8>,
    pub enabled: bool,
    pub length_beats: F,
}

impl<F> View for Tune<F> {
    type V = TuneView<F>;

    open spec fn view(&self) -> TuneView<F> {
        TuneView {
            pattern: self.pattern@,
            base_note: self.base_note,
            enabled: self.enabled,
            length_beats: self.length_beats,
        }
    }
}

impl<F> PlayerView<F> {
    /// The player at the start of a count-in, for split `split` of keyboard `kb`, with beats of
    /// `beat_length` samples.
    pub open spec fn count_in_started(self, kb: usize, split: usize, beat_length: u64, zero: F) -> PlayerView<F> {
        PlayerView {
            kb_index: kb,
            split_index: split,
            recording_events: Seq::empty(),
            base_note: None,
            record_pos: 0,
            metronome_pos: 0,
            click_remaining: 0,
            click_phase: zero,
            beat_length_samples: beat_length,
            counting_in: true,
            recording: false,
            ..self
        }
    }

    /// The player after recording was stopped by hand.
    pub open spec fn stopped(self, length: u64) -> PlayerView<F> {
        if self.recording {
            PlayerView { counting_in: false, ..self }.finalized(length)
        } else {
            PlayerView { counting_in: false, recording: false, ..self }
        }
    }

    /// What stopping by hand reports.
    pub open spec fn stop_report(self, length: u64) -> Option<NotificationView<F>> {
        if self.recording && self.listening {
            Some(self.stopped(length).notification())
        } else {
            None
        }
    }

    /// The player with its pattern replaced.
    pub open spec fn loaded(self, pattern: PatternView, base_note: Option<u8>) -> PlayerView<F> {
        PlayerView { pattern, base_note, enabled: pattern.events.len() > 0, ..self }
    }

    /// The player with its pattern gone and everything about it stopped.
    pub open spec fn cleared(self) -> PlayerView<F> {
        PlayerView {
            pattern: PatternView::empty(),
            base_note: None,
            enabled: false,
            recording: false,
            counting_in: false,
            trigger_note: None,
            held_notes: Seq::empty(),
            click_remaining: 0,
            active_voices: Seq::empty(),
            ..self
        }
    }

    pub open spec fn tune(self) -> TuneView<F> {
        TuneView {
            pattern: self.pattern,
            base_note: self.base_note,
            enabled: self.enabled,
            length_beats: self.length_beats,
        }
    }

    /// The player with another tune, and nothing held or sounding.
    pub open spec fn retuned(self, tune: TuneView<F>) -> PlayerView<F> {
        PlayerView {
            pattern: tune.pattern,
            base_note: tune.base_note,
            enabled: tune.enabled,
            length_beats: tune.length_beats,
            trigger_note: None,
            held_notes: Seq::empty(),
            active_voices: Seq::empty(),
            ..self
        }
    }
}

impl Pattern {
    /// A copy of the pattern.
    pub fn copy(&self) -> (copy: Pattern)
        ensures
            copy@ == self@,
    {
        let mut events: Vec<PatternEvent> = Vec::new();
        let n: usize = self.events.len();
        let mut i: usize = 0;
        while i < n
            invariant
                i <= n,
                n == self.events@.len(),
                events@ == self.events@.take(i as int),
            decreases n - i,
        {
            events.push(self.events[i]);
            i = i + 1;
            assert(self.events@.take(i as int) =~= self.events@.take(i - 1).push(self.events@[i - 1]));
        }
        assert(self.events@.take(n as int) =~= self.events@);
        Pattern { events, length_samples: self.length_samples }
    }
}

impl<F: Copy> PatternPlayer<F> {
    /// Starts the count-in before a recording; `beat_length` is how many samples a beat lasts.
    pub fn start_count_in(&mut self, kb: usize, split: usize, beat_length: u64, zero: F)
        ensures
            final(self)@ == old(self)@.count_in_started(kb, split, beat_length, zero),
    {
        self.kb_index = kb;
        self.split_index = split;
        self.recording_events.clear();
        self.base_note = None;
        self.record_pos = 0;
        self.metronome_pos = 0;
        self.click_remaining = 0;
        self.click_phase = zero;
        self.beat_length_samples = beat_length;
        self.counting_in = true;
        self.recording = false;
    }

    /// Stops counting in or recording; a recording under way becomes the pattern.
    pub fn stop_recording(&mut self, length: u64) -> (note: Option<PatternNotification<F>>)
        ensures
            final(self)@ == old(self)@.stopped(length),
            notification_view(note) == old(self)@.stop_report(length),
    {
        self.counting_in = false;
        if self.recording {
            self.finalize_recording(length)
        } else {
            None
        }
    }

    /// Replaces the pattern.
    pub fn load(&mut self, pattern: Pattern, base_note: Option<u8>)
        ensures
            final(self)@ == old(self)@.loaded(pattern@, base_note),
    {
        self.enabled = pattern.events.len() > 0;
        self.pattern = pattern;
        self.base_note = base_note;
    }

    /// Drops the pattern and stops everything about it.
    pub fn clear(&mut self)
        ensures
            final(self)@ == old(self)@.cleared(),
    {
        self.pattern = Pattern::default();
        self.base_note = None;
        self.enabled = false;
        self.recording = false;
        self.counting_in = false;
        self.trigger_note = None;
        self.held_notes.clear();
        self.click_remaining = 0;
        self.active_voices.clear();
    }

    /// A copy of the tune.
    pub fn copy_tune(&self) -> (tune: Tune<F>)
        ensures
            tune@ == self@.tune(),
    {
        Tune {
            pattern: self.pattern.copy(),
            base_note: self.base_note,
            enabled: self.enabled,
            length_beats: self.length_beats,
        }
    }

    /// Takes over a tune; nothing stays held or sounding.
    pub fn retune(&mut self, tune: Tune<F>)
        ensures
            final(self)@ == old(self)@.retuned(tune@),
    {
        self.pattern = tune.pattern;
        self.base_note = tune.base_note;
        self.enabled = tune.enabled;
        self.length_beats = tune.length_beats;
        self.trigger_note = None;
        self.held_notes.clear();
        self.active_voices.clear();
    }
}

// ---------------------------------------------------------------------------
// Metronome
// ---------------------------------------------------------------------------

/// What the metronome does in one sample.
#[derive(Clone, Copy, Debug, PartialEq, Eq, Structural)]
pub struct ClickTick {
    /// A click starts here.
    pub restart: bool,
    /// A click sounds here.
    pub sounding: bool,
    pub downbeat: bool,
    /// Samples left of the click, this one counted.
    pub remaining: u32,
}

impl<F> PlayerView<F> {
    /// Whether the metronome is to be heard.
    pub open spec fn metronome_active(self) -> bool {
        self.counting_in || self.recording
    }

    /// What the metronome does `offset` samples into the buffer, with clicks of `duration` samples.
    /// A click starts on every beat; every fourth beat is a downbeat.
    pub open spec fn click(self, offset: u64, duration: u32) -> ClickTick {
        let pos = self.metronome_pos + offset;
        let beat = self.beat_length_samples as int;
        let restart = pos % beat == 0;
        let remaining = if restart {
            duration
        } else {
            self.click_remaining
        };
        ClickTick {
            restart,
            sounding: remaining > 0,
            downbeat: if restart {
                (pos / beat) % (COUNT_IN_BEATS as int) == 0
            } else {
                self.click_is_downbeat
            },
            remaining,
        }
    }

    /// The player after that sample.
    pub open spec fn ticked(self, offset: u64, duration: u32) -> PlayerView<F> {
        let tick = self.click(offset, duration);
        PlayerView {
            click_is_downbeat: tick.downbeat,
            click_remaining: if tick.remaining > 0 {
                (tick.remaining - 1) as u32
            } else {
                0
            },
            ..self
        }
    }
}

impl<F: Copy> PatternPlayer<F> {
    /// Whether the metronome is to be heard.
    pub fn metronome_active(&self) -> (active: bool)
        ensures
            active == self@.metronome_active(),
    {
        self.counting_in || self.recording
    }

    /// Runs the metronome through one sample, `offset` samples into the buffer.
    pub fn tick(&mut self, offset: u64, duration: u32) -> (tick: ClickTick)
        requires
            old(self).beat_length_samples > 0,
            old(self).metronome_pos + offset <= u64::MAX,
        ensures
            tick == old(self)@.click(offset, duration),
            final(self)@ == old(self)@.ticked(offset, duration),
    {
        let pos: u64 = self.metronome_pos + offset;
        let restart = pos % self.beat_length_samples == 0;
        if restart {
            self.click_is_downbeat = (pos / self.beat_length_samples) % COUNT_IN_BEATS == 0;
            self.click_remaining = duration;
        }
        let remaining: u32 = self.click_remaining;
        if remaining > 0 {
            self.click_remaining = remaining - 1;
        }
        ClickTick { restart, sounding: remaining > 0, downbeat: self.click_is_downbeat, remaining }
    }

    /// Moves the metronome past a buffer of `frames` samples.
    pub fn end_ticks(&mut self, frames: u64)
        requires
            old(self).metronome_pos + frames <= u64::MAX,
        ensures
            final(self)@ == (PlayerView {
                metronome_pos: (old(self).metronome_pos + frames) as u64,
                ..old(self)@
            }),
    {
        self.metronome_pos = self.metronome_pos + frames;
    }
}

// ---------------------------------------------------------------------------
// Laws
// ---------------------------------------------------------------------------

/// A player that neither records nor plays hands on what it gets.
pub proof fn bypass_is_transparent<F>(p: PlayerView<F>, events: Seq<MidiEvent>, frames: u64, length: u64)
    requires
        p.mode() is Bypass,
    ensures
        p.heard(events).advanced(frames, length) == (PlayerView { output_events: events, ..p }),
        p.heard(events).report(frames, length) is None,
{
}

/// What is played while counting in or recording is heard unchanged.
pub proof fn recording_is_transparent<F>(p: PlayerView<F>, events: Seq<MidiEvent>, frames: u64, length: u64)
    requires
        p.mode() is CountIn || p.mode() is Recording,
    ensures
        p.heard(events).advanced(frames, length).output_events == events,
{
}

proof fn lemma_events_before(events: Seq<PatternEvent>, end: u64)
    ensures
        forall|i: int|
            0 <= i < events_before(events, end).len() ==> (#[trigger] events_before(events, end)[i]).frame < end,
    decreases events.len(),
{
    if events.len() > 0 {
        lemma_events_before(events.drop_last(), end);
        let rest = events_before(events.drop_last(), end);
        assert forall|i: int| 0 <= i < events_before(events, end).len() implies (#[trigger] events_before(
            events,
            end,
        )[i]).frame < end by {
            if i < rest.len() {
                assert(events_before(events, end)[i] == rest[i]);
            }
        }
    }
}

/// Every event of a recorded pattern lies within the pattern.
pub proof fn recorded_events_fit<F>(p: PlayerView<F>, length: u64)
    ensures
        p.finalized(length).pattern.length_samples == length,
        forall|i: int|
            0 <= i < p.finalized(length).pattern.events.len() ==> (#[trigger] p.finalized(
                length,
            ).pattern.events[i]).frame < length,
{
    lemma_events_before(p.recording_events, length);
}

proof fn lemma_first_note(events: Seq<PatternEvent>)
    ensures
        match first_note(events) {
            Some(note) => exists|i: int| #[trigger] first_note_on(events, i) && events[i].note == note,
            None => forall|i: int| 0 <= i < events.len() ==> (#[trigger] events[i]).status != 0x90,
        },
    decreases events.len(),
{
    if events.len() > 0 {
        if events[0].status == 0x90 {
            assert(first_note_on(events, 0));
        } else {
            let rest = events.drop_first();
            lemma_first_note(rest);
            match first_note(rest) {
                Some(note) => {
                    let i = choose|i: int| #[trigger] first_note_on(rest, i) && rest[i].note == note;
                    assert forall|k: int| 0 <= k < i + 1 implies (#[trigger] events[k]).status != 0x90 by {
                        if k > 0 {
                            assert(rest[k - 1] == events[k]);
                        }
                    }
                    assert(first_note_on(events, i + 1));
                },
                None => {
                    assert forall|k: int| 0 <= k < events.len() implies (#[trigger] events[k]).status != 0x90 by {
                        if k > 0 {
                            assert(rest[k - 1] == events[k]);
                        }
                    }
                },
            }
        }
    }
}

/// Whether the event at `i` is a note-on that none goes before.
pub open spec fn first_note_on(events: Seq<PatternEvent>, i: int) -> bool {
    &&& 0 <= i < events.len()
    &&& events[i].status == 0x90
    &&& forall|k: int| 0 <= k < i ==> (#[trigger] events[k]).status != 0x90
}

/// The base note of a recording is the first note played in it, and there is one exactly when a note
/// was played.
pub proof fn base_note_is_first<F>(p: PlayerView<F>, length: u64, i: int)
    ensures
        ({
            let q = p.finalized(length);
            let events = q.pattern.events;
            &&& first_note_on(events, i) ==> q.base_note == Some(events[i].note)
            &&& q.base_note is Some <==> exists|k: int|
                0 <= k < events.len() && (#[trigger] events[k]).status == 0x90
        }),
{
    let events = p.finalized(length).pattern.events;
    lemma_first_note(events);
    if first_note_on(events, i) {
        let note = first_note(events)->0;
        let j = choose|j: int| #[trigger] first_note_on(events, j) && events[j].note == note;
        if i < j {
            assert(events[i].status != 0x90);
        } else if j < i {
            assert(events[j].status != 0x90);
        }
    }
}

proof fn lemma_captured_snaps(recorded: Seq<PatternEvent>, events: Seq<MidiEvent>)
    ensures
        captured(recorded, events, None).len() >= recorded.len(),
        captured(recorded, events, None).take(recorded.len() as int) == recorded,
        forall|i: int|
            recorded.len() <= i < captured(recorded, events, None).len() ==> (#[trigger] captured(
                recorded,
                events,
                None,
            )[i]).frame == 0,
    decreases events.len(),
{
    if events.len() > 0 {
        lemma_captured_snaps(recorded, events.drop_last());
        let before = captured(recorded, events.drop_last(), None);
        let after = captured(recorded, events, None);
        assert(after.take(recorded.len() as int) =~= before.take(recorded.len() as int));
    }
}

/// Notes played during the count-in are recorded at the very start of the pattern.
pub proof fn count_in_snaps_to_start<F>(p: PlayerView<F>, events: Seq<MidiEvent>, i: int)
    requires
        p.mode() is CountIn,
        p.recording_events.len() <= i < p.heard(events).recording_events.len(),
    ensures
        p.heard(events).recording_events[i].frame == 0,
{
    lemma_captured_snaps(p.recording_events, events);
}

/// Letting go of the last key stops playback: every sounding voice gets its note-off at that
/// frame, in order, and nothing keeps sounding.
pub proof fn last_release_silences<F>(p: PlayerView<F>, event: MidiEvent)
    requires
        message_kind(event.1) == MessageKind::NoteOff,
        p.trigger_note == Some(event.1[1]),
        notes_without(p.held_notes, event.1[1]).len() == 0,
    ensures
        p.keyed(event).trigger_note is None,
        p.keyed(event).active_voices.len() == 0,
        p.keyed(event).output_events == p.output_events + note_offs(p.active_voices, event.0),
{
}

/// Pressing another key switches over at once: the voices of the old key are silenced and the
/// pattern starts again.
pub proof fn new_key_restarts<F>(p: PlayerView<F>, event: MidiEvent)
    requires
        message_kind(event.1) == MessageKind::NoteOn,
        p.trigger_note is Some,
        p.trigger_note != Some(event.1[1]),
    ensures
        p.keyed(event).trigger_note == Some(event.1[1]),
        p.keyed(event).playback_pos == 0,
        p.keyed(event).active_voices.len() == 0,
        p.keyed(event).output_events == p.output_events + note_offs(p.active_voices, event.0),
{
}

/// A one-shot pattern that runs past its end falls silent and stays at its end.
pub proof fn one_shot_ends_silent<F>(p: PlayerView<F>, frames: u64)
    requires
        p.mode() is Playing,
        p.trigger_note is Some,
        !p.looping,
        p.pattern.length_samples > 0,
        p.playback_pos + frames <= u64::MAX,
        p.playback_pos + frames > p.pattern.length_samples,
    ensures
        p.played(frames).active_voices.len() == 0,
        p.played(frames).playback_pos == p.pattern.length_samples,
{
}

/// Playback never leaves the pattern: a position within it stays within it.
pub proof fn playback_stays_in_pattern<F>(p: PlayerView<F>, frames: u64)
    requires
        p.mode() is Playing,
        p.trigger_note is Some,
        p.pattern.length_samples > 0,
        p.playback_pos <= p.pattern.length_samples,
        frames <= p.pattern.length_samples,
        p.playback_pos + frames <= u64::MAX,
    ensures
        p.played(frames).playback_pos <= p.pattern.length_samples,
{
}

/// Swapping tunes twice brings both players' tunes back.
pub proof fn retune_twice_restores<F>(a: PlayerView<F>, b: PlayerView<F>)
    ensures
        a.retuned(b.tune()).retuned(b.retuned(a.tune()).tune()).tune() == a.tune(),
        b.retuned(a.tune()).retuned(a.retuned(b.tune()).tune()).tune() == b.tune(),
{
}

} // verus!
