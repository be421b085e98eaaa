//! The built-in plugins: which there are, which names they answer to, and the voices of the
//! oscillator.
use vstd::prelude::*;

use crate::midi::{classify, message_kind, MessageKind, MidiEvent};
use crate::plugin::PluginInfo;
use crate::text::{same, starts_with};

verus! {

/// Waveform of the oscillator.
#[derive(Clone, Copy, Debug, PartialEq, Eq, Structural)]
pub enum Waveform {
    Sine,
    Triangle,
    Square,
}

impl Waveform {
    pub open spec fn title(self) -> Seq<char> {
        match self {
            Waveform::Sine => "Sine Oscillator"@,
            Waveform::Triangle => "Triangle Oscillator"@,
            Waveform::Square => "Square Oscillator"@,
        }
    }

    pub open spec fn source(self) -> Seq<char> {
        match self {
            Waveform::Sine => "builtin:sine"@,
            Waveform::Triangle => "builtin:triangle"@,
            Waveform::Square => "builtin:square"@,
        }
    }

    /// The name of the oscillator with this waveform.
    pub fn name(self) -> (name: &'static str)
        ensures
            name@ == self.title(),
    {
        match self {
            Waveform::Sine => "Sine Oscillator",
            Waveform::Triangle => "Triangle Oscillator",
            Waveform::Square => "Square Oscillator",
        }
    }

    /// The source that loads the oscillator with this waveform.
    pub fn id(self) -> (id: &'static str)
        ensures
            id@ == self.source(),
    {
        match self {
            Waveform::Sine => "builtin:sine",
            Waveform::Triangle => "builtin:triangle",
            Waveform::Square => "builtin:square",
        }
    }
}

/// A built-in plugin.
#[derive(Clone, Copy, Debug, PartialEq, Eq, Structural)]
pub enum BuiltinKind {
    /// The oscillator, started on a waveform.
    Oscillator(Waveform),
    Reverb,
    Filter,
}

/// The name behind an optional `builtin:`.
pub open spec fn builtin_name(source: Seq<char>) -> Seq<char> {
    if "builtin:"@.is_prefix_of(source) {
        source.skip("builtin:"@.len() as int)
    } else {
        source
    }
}

/// The built-in plugin of this name.
pub open spec fn builtin_named(name: Seq<char>) -> Option<BuiltinKind> {
    if name == "osc"@ || name == "oscillator"@ || name == "sine"@ {
        Some(BuiltinKind::Oscillator(Waveform::Sine))
    } else if name == "triangle"@ {
        Some(BuiltinKind::Oscillator(Waveform::Triangle))
    } else if name == "square"@ {
        Some(BuiltinKind::Oscillator(Waveform::Square))
    } else if name == "reverb"@ {
        Some(BuiltinKind::Reverb)
    } else if name == "filter"@ {
        Some(BuiltinKind::Filter)
    } else {
        None
    }
}

/// The built-in plugin that a source names. The names of waveforms stand for the oscillator started
/// on that waveform.
pub fn builtin_kind(source: &str) -> (kind: Option<BuiltinKind>)
    ensures
        kind == builtin_named(builtin_name(source@)),
{
    proof {
        reveal_strlit("builtin:");
    }
    let name = if starts_with(source, "builtin:") {
        source.substring_char(8, source.unicode_len())
    } else {
        source
    };
    assert(name@ =~= builtin_name(source@));
    if same(name, "osc") || same(name, "oscillator") || same(name, "sine") {
        Some(BuiltinKind::Oscillator(Waveform::Sine))
    } else if same(name, "triangle") {
        Some(BuiltinKind::Oscillator(Waveform::Triangle))
    } else if same(name, "square") {
        Some(BuiltinKind::Oscillator(Waveform::Square))
    } else if same(name, "reverb") {
        Some(BuiltinKind::Reverb)
    } else if same(name, "filter") {
        Some(BuiltinKind::Filter)
    } else {
        None
    }
}

/// What a built-in plugin says of itself.
#[derive(Debug)]
pub struct BuiltinInfo {
    pub name: &'static str,
    pub id: &'static str,
    pub param_count: usize,
    pub preset_count: usize,
}

/// Whether an entry of the list describes a built-in plugin.
pub open spec fn describes(info: PluginInfo, builtin: BuiltinInfo, is_instrument: bool) -> bool {
    &&& info.name@ == builtin.name@
    &&& info.id@ == builtin.id@
    &&& info.is_instrument == is_instrument
    &&& info.param_count == builtin.param_count
    &&& info.preset_count == builtin.preset_count
    &&& info.path@ == "(built-in)"@
    &&& info.scan_ms == 0
}

fn describe(builtin: &BuiltinInfo, is_instrument: bool) -> (info: PluginInfo)
    ensures
        describes(info, *builtin, is_instrument),
{
    PluginInfo {
        name: builtin.name.to_owned(),
        id: builtin.id.to_owned(),
        is_instrument,
        param_count: builtin.param_count,
        preset_count: builtin.preset_count,
        path: "(built-in)".to_owned(),
        scan_ms: 0,
    }
}

/// The list of built-in plugins: the oscillator, which has `osc_params` parameters, the reverb and
/// the filter.
pub fn enumerate_plugins(osc_params: usize, reverb: BuiltinInfo) -> (list: Vec<PluginInfo>)
    ensures
        list@.len() == 3,
        describes(
            list@[0],
            BuiltinInfo { name: "Oscillator", id: "builtin:osc", param_count: osc_params, preset_count: 0 },
            true,
        ),
        describes(list@[1], reverb, false),
        describes(
            list@[2],
            BuiltinInfo { name: "Filter", id: "builtin:filter", param_count: 4, preset_count: 0 },
            false,
        ),
{
    let mut list: Vec<PluginInfo> = Vec::new();
    let osc = BuiltinInfo { name: "Oscillator", id: "builtin:osc", param_count: osc_params, preset_count: 0 };
    let filter = BuiltinInfo { name: "Filter", id: "builtin:filter", param_count: 4, preset_count: 0 };
    list.push(describe(&osc, true));
    list.push(describe(&reverb, false));
    list.push(describe(&filter, false));
    list
}

// ---------------------------------------------------------------------------
// Oscillator voices
// ---------------------------------------------------------------------------

/// Where a voice is between silence and silence.
#[derive(Clone, Copy, Debug, PartialEq, Eq, Structural)]
pub enum VoiceState {
    Attack,
    Sustain,
    Release,
}

/// One sounding note.
#[derive(Clone, Copy, Debug)]
pub struct Voice<F> {
    pub note: u8,
    pub phase: F,
    pub amp: F,
    pub state: VoiceState,
}

/// The sounding notes, each once.
#[derive(Debug)]
pub struct Voices<F> {
    pub list: Vec<Voice<F>>,
}

impl<F> View for Voices<F> {
    type V = Seq<Voice<F>>;

    open spec fn view(&self) -> Seq<Voice<F>> {
        self.list@
    }
}

/// Whether no note sounds twice.
pub open spec fn notes_distinct<F>(voices: Seq<Voice<F>>) -> bool {
    forall|i: int, j: int|
        0 <= i < j < voices.len() ==> (#[trigger] voices[i]).note != (#[trigger] voices[j]).note
}

/// The place of the voice that plays `note`, from `from` on.
pub open spec fn voice_of<F>(voices: Seq<Voice<F>>, note: u8, from: int) -> Option<int>
    decreases voices.len() - from,
{
    if from >= voices.len() {
        None
    } else if voices[from].note == note {
        Some(from)
    } else {
        voice_of(voices, note, from + 1)
    }
}

/// The voices after a message: a note-on starts a voice, or sends the voice of that note back into
/// its attack, from where it is; a note-off releases it.
pub open spec fn voiced<F>(voices: Seq<Voice<F>>, bytes: [u8; 3], zero: F) -> Seq<Voice<F>> {
    let at = voice_of(voices, bytes[1], 0);
    match message_kind(bytes) {
        MessageKind::NoteOn => match at {
            Some(i) => voices.update(i, Voice { state: VoiceState::Attack, ..voices[i] }),
            None => voices.push(Voice { note: bytes[1], phase: zero, amp: zero, state: VoiceState::Attack }),
        },
        MessageKind::NoteOff => match at {
            Some(i) => voices.update(i, Voice { state: VoiceState::Release, ..voices[i] }),
            None => voices,
        },
        MessageKind::Other => voices,
    }
}

/// How many of the events from `from` on are due by `frame`: those before the first later one.
pub open spec fn due_count(events: Seq<MidiEvent>, from: int, frame: u64) -> int
    decreases events.len() - from,
{
    if from >= events.len() || events[from].0 > frame {
        0
    } else {
        1 + due_count(events, from + 1, frame)
    }
}

/// The voices after `count` events from `from` on.
pub open spec fn voiced_run<F>(voices: Seq<Voice<F>>, events: Seq<MidiEvent>, from: int, count: int, zero: F) -> Seq<
    Voice<F>,
>
    decreases count,
{
    if count <= 0 {
        voices
    } else {
        voiced(voiced_run(voices, events, from, count - 1, zero), events[from + count - 1].1, zero)
    }
}

/// The voices that still sound: those in release that have faded, as `faded` says, are gone.
pub open spec fn still_sounding<F>(voices: Seq<Voice<F>>, faded: Seq<bool>) -> Seq<Voice<F>>
    decreases voices.len(),
{
    if voices.len() == 0 {
        Seq::empty()
    } else {
        let rest = still_sounding(voices.drop_last(), faded);
        if voices.last().state == VoiceState::Release && faded[voices.len() - 1] {
            rest
        } else {
            rest.push(voices.last())
        }
    }
}

proof fn lemma_voice_of<F>(voices: Seq<Voice<F>>, note: u8, from: int)
    requires
        0 <= from,
    ensures
        match voice_of(voices, note, from) {
            Some(i) => from <= i < voices.len() && voices[i].note == note,
            None => forall|k: int| from <= k < voices.len() ==> (#[trigger] voices[k]).note != note,
        },
    decreases voices.len() - from,
{
    if from < voices.len() && voices[from].note != note {
        lemma_voice_of(voices, note, from + 1);
    }
}

/// No message makes a note sound twice.
pub proof fn voices_stay_distinct<F>(voices: Seq<Voice<F>>, bytes: [u8; 3], zero: F)
    requires
        notes_distinct(voices),
    ensures
        notes_distinct(voiced(voices, bytes, zero)),
{
    lemma_voice_of(voices, bytes[1], 0);
}

impl<F: Copy> Voices<F> {
    /// No note sounds.
    pub fn new() -> (v: Self)
        ensures
            v@ == Seq::<Voice<F>>::empty(),
            notes_distinct(v@),
    {
        Voices { list: Vec::new() }
    }

    fn find(&self, note: u8) -> (at: Option<usize>)
        ensures
            match at {
                Some(i) => voice_of(self@, note, 0) == Some(i as int) && i < self@.len(),
                None => voice_of(self@, note, 0) is None,
            },
    {
        let n: usize = self.list.len();
        let mut i: usize = 0;
        while i < n
            invariant
                i <= n,
                n == self.list@.len(),
                voice_of(self@, note, 0) == voice_of(self@, note, i as int),
            decreases n - i,
        {
            if self.list[i].note == note {
                return Some(i);
            }
            i = i + 1;
        }
        None
    }

    /// Starts or releases a voice as a message asks.
    pub fn hear(&mut self, bytes: [u8; 3], zero: F)
        requires
            notes_distinct(old(self)@),
        ensures
            final(self)@ == voiced(old(self)@, bytes, zero),
            notes_distinct(final(self)@),
    {
        proof {
            voices_stay_distinct(self@, bytes, zero);
        }
        let note: u8 = bytes[1];
        match classify(bytes) {
            MessageKind::NoteOn => match self.find(note) {
                Some(i) => {
                    let mut v = self.list[i];
                    v.state = VoiceState::Attack;
                    self.list[i] = v;
                },
                None => {
                    self.list.push(Voice { note, phase: zero, amp: zero, state: VoiceState::Attack });
                },
            },
            MessageKind::NoteOff => match self.find(note) {
                Some(i) => {
                    let mut v = self.list[i];
                    v.state = VoiceState::Release;
                    self.list[i] = v;
                },
                None => {},
            },
            MessageKind::Other => {},
        }
    }

    /// Handles the events that are due by `frame`, from `from` on, and returns where the next
    /// one is.
    pub fn hear_due(&mut self, events: &[MidiEvent], from: usize, frame: u64, zero: F) -> (next: usize)
        requires
            from <= events@.len(),
            notes_distinct(old(self)@),
        ensures
            next == from + due_count(events@, from as int, frame),
            next <= events@.len(),
            final(self)@ == voiced_run(
                old(self)@,
                events@,
                from as int,
                due_count(events@, from as int, frame),
                zero,
            ),
            notes_distinct(final(self)@),
    {
        let mut next: usize = from;
        while next < events.len() && events[next].0 <= frame
            invariant
                from <= next <= events@.len(),
                notes_distinct(self@),
                due_count(events@, from as int, frame) == next - from + due_count(events@, next as int, frame),
                self@ == voiced_run(old(self)@, events@, from as int, next - from, zero),
            decreases events@.len() - next,
        {
            self.hear(events[next].1, zero);
            next = next + 1;
        }
        next
    }

    /// Drops the voices that have faded; `faded` says of each whether its level has come to zero.
    pub fn drop_faded(&mut self, faded: &Vec<bool>)
        requires
            faded@.len() == old(self)@.len(),
        ensures
            final(self)@ == still_sounding(old(self)@, faded@),
    {
        let mut kept: Vec<Voice<F>> = Vec::new();
        let n: usize = self.list.len();
        let mut i: usize = 0;
        while i < n
            invariant
                i <= n,
                n == self.list@.len(),
                n == faded@.len(),
                self@ == old(self)@,
                kept@ == still_sounding(self@.take(i as int), faded@),
            decreases n - i,
        {
            proof {
                assert(self@.take(i + 1).drop_last() =~= self@.take(i as int));
            }
            let v = self.list[i];
            if !(v.state == VoiceState::Release && faded[i]) {
                kept.push(v);
            }
            i = i + 1;
        }
        proof {
            assert(self@.take(n as int) =~= self@);
        }
        self.list = kept;
    }
}

} // verus!
