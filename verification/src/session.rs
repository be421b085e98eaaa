//! Sessions: what a session file says, read and checked, and what is written to one.
//!
//! Numbers such as volumes and rates are scalars `F`. The text format itself belongs to the
//! program; here are the structures it is read into and written from.
use vstd::prelude::*;

use crate::modulation::ModTargetKind;
use crate::notes::{
    format_range, note_name, note_result, note_text, parse_inverts_format_range, parse_inverts_note_name,
    parse_note_name, parse_range, parsed_note, parsed_range, range_error, range_text, NoteFault,
    NoteNameError, RangeError, RangeFault,
};
use crate::paths::{absolute, is_absolute, join, joined, System};
use crate::text::{has_char, same};

verus! {

// ---------------------------------------------------------------------------
// What a session is
// ---------------------------------------------------------------------------

/// Where a remapped note goes.
#[derive(Debug)]
pub struct RemapTarget<F> {
    pub note: String,
    pub detune: F,
}

/// A session: one or more keyboards.
#[derive(Debug)]
pub struct SessionConfig<F> {
    pub keyboards: Vec<KeyboardConfig<F>>,
}

/// A keyboard of a session.
#[derive(Debug)]
pub struct KeyboardConfig<F> {
    pub name: Option<String>,
    pub splits: Vec<SplitConfig<F>>,
}

/// A split of a keyboard.
#[derive(Debug)]
pub struct SplitConfig<F> {
    pub range: Option<(u8, u8)>,
    pub transpose: i8,
    pub instrument: Option<PluginConfig<F>>,
    pub effects: Vec<EffectConfig<F>>,
    pub pattern: Option<PatternConfig<F>>,
}

/// The pattern of a split.
#[derive(Debug)]
pub struct PatternConfig<F> {
    pub bpm: F,
    pub length_beats: F,
    pub looping: bool,
    pub base_note: Option<u8>,
    /// Frame, status, note and velocity of each event.
    pub events: Vec<(u64, u8, u8, u8)>,
    pub enabled: bool,
}

/// A modulator of a plugin.
#[derive(Debug)]
pub struct ModulatorConfig<F> {
    pub mod_type: String,
    pub waveform: String,
    pub rate: F,
    pub attack: F,
    pub decay: F,
    pub sustain: F,
    pub release: F,
    pub targets: Vec<ModTargetConfig<F>>,
}

/// A target of a modulator: a plugin parameter by name, or a field of a sibling modulator.
#[derive(Debug)]
pub struct ModTargetConfig<F> {
    pub param: Option<String>,
    pub mod_rate: Option<usize>,
    /// Modulator index and target index.
    pub mod_depth: Option<Vec<usize>>,
    pub mod_attack: Option<usize>,
    pub mod_decay: Option<usize>,
    pub mod_sustain: Option<usize>,
    pub mod_release: Option<usize>,
    pub depth: F,
}

/// An instrument.
#[derive(Debug)]
pub struct PluginConfig<F> {
    pub plugin: String,
    pub preset: Option<String>,
    pub volume: F,
    pub pitch_bend_range: F,
    pub remap: Vec<(String, RemapTarget<F>)>,
    pub params: Vec<(String, F)>,
    pub modulators: Vec<ModulatorConfig<F>>,
}

/// An effect.
#[derive(Debug)]
pub struct EffectConfig<F> {
    pub plugin: String,
    pub preset: Option<String>,
    pub mix: F,
    pub params: Vec<(String, F)>,
    pub modulators: Vec<ModulatorConfig<F>>,
}

// ---------------------------------------------------------------------------
// What a session file says
// ---------------------------------------------------------------------------

/// A file with keyboards.
#[derive(Debug)]
pub struct NewSessionRaw<F> {
    pub keyboards: Vec<KeyboardRaw<F>>,
}

/// A keyboard as written.
#[derive(Debug)]
pub struct KeyboardRaw<F> {
    pub name: Option<String>,
    pub splits: Vec<SplitRaw<F>>,
}

/// A split as written.
#[derive(Debug)]
pub struct SplitRaw<F> {
    pub range: Option<String>,
    pub transpose: i8,
    pub instrument: Option<PluginConfig<F>>,
    pub effects: Vec<EffectConfig<F>>,
    pub pattern: Option<PatternRaw<F>>,
}

/// A pattern as written.
#[derive(Debug)]
pub struct PatternRaw<F> {
    pub bpm: F,
    pub length_beats: F,
    pub looping: bool,
    pub base_note: Option<String>,
    pub events: Vec<PatternEventRaw>,
    pub enabled: bool,
}

/// A pattern event as written: "on" or "off", and a note name.
#[derive(Debug)]
pub struct PatternEventRaw {
    pub frame: u64,
    pub status: String,
    pub note: String,
    pub velocity: u8,
}

/// A file of the older form, with a single instrument.
#[derive(Debug)]
pub struct LegacySessionRaw<F> {
    pub instrument: PluginConfig<F>,
    pub effects: Vec<EffectConfig<F>>,
}

/// What a pattern loops by where the file does not say.
pub fn default_true() -> (b: bool)
    ensures
        b,
{
    true
}

/// What a modulator is where the file does not say.
pub fn default_mod_type() -> (s: String)
    ensures
        s@ == "lfo"@,
{
    "lfo".to_owned()
}

/// The waveform of an LFO where the file does not say.
pub fn default_waveform() -> (s: String)
    ensures
        s@ == "sine"@,
{
    "sine".to_owned()
}

// ---------------------------------------------------------------------------
// Reading
// ---------------------------------------------------------------------------

/// Why a pattern cannot be read.
#[derive(Debug)]
pub enum PatternError {
    /// A note name cannot be read.
    Note(NoteNameError),
    /// An event is neither "on" nor "off".
    Status(String),
}

/// Why a session cannot be read.
#[derive(Debug)]
pub enum SessionError {
    Range(RangeError),
    Pattern(PatternError),
}

/// The MIDI status type that a word stands for.
pub open spec fn status_of(word: Seq<char>) -> Option<u8> {
    if word == "on"@ {
        Some(0x90)
    } else if word == "off"@ {
        Some(0x80)
    } else {
        None
    }
}

/// The event that a written event stands for.
pub open spec fn event_of(e: PatternEventRaw) -> Option<(u64, u8, u8, u8)> {
    match (parsed_note(e.note@), status_of(e.status@)) {
        (Ok(note), Some(status)) => Some((e.frame, status, note, e.velocity)),
        _ => None,
    }
}

/// Whether the base note of a pattern can be read, where there is one.
pub open spec fn base_note_readable(base: Option<String>) -> bool {
    base matches Some(name) ==> parsed_note(name@) is Ok
}

/// Whether the first `n` events can be read.
pub open spec fn events_readable(events: Seq<PatternEventRaw>, n: int) -> bool {
    forall|i: int| 0 <= i < n ==> event_of(#[trigger] events[i]) is Some
}

/// Whether a pattern can be read.
pub open spec fn pattern_readable<F>(raw: PatternRaw<F>) -> bool {
    base_note_readable(raw.base_note) && events_readable(raw.events@, raw.events@.len() as int)
}

/// Whether a pattern has been read right.
pub open spec fn pattern_read<F>(raw: PatternRaw<F>, p: PatternConfig<F>) -> bool {
    &&& pattern_readable(raw)
    &&& p.bpm == raw.bpm
    &&& p.length_beats == raw.length_beats
    &&& p.looping == raw.looping
    &&& p.enabled == raw.enabled
    &&& match raw.base_note {
        Some(name) => p.base_note is Some && parsed_note(name@) == Ok::<u8, NoteFault>(p.base_note->0),
        None => p.base_note is None,
    }
    &&& p.events@.len() == raw.events@.len()
    &&& forall|i: int| 0 <= i < raw.events@.len() ==> event_of(raw.events@[i]) == Some(#[trigger] p.events@[i])
}

/// Whether `e` reports the first thing in an event that cannot be read: its note, then its status.
pub open spec fn event_error(e: PatternError, event: PatternEventRaw) -> bool {
    if parsed_note(event.note@) is Err {
        e matches PatternError::Note(n) && note_result(Err(n), event.note@)
    } else {
        status_of(event.status@) is None && (e matches PatternError::Status(word) && word@ == event.status@)
    }
}

/// Whether `e` reports the first thing in a pattern that cannot be read: the base note, then the
/// events in order.
pub open spec fn pattern_error<F>(e: PatternError, raw: PatternRaw<F>) -> bool {
    if !base_note_readable(raw.base_note) {
        e matches PatternError::Note(n) && note_result(Err(n), raw.base_note->0@)
    } else {
        exists|i: int|
            0 <= i < raw.events@.len() && events_readable(raw.events@, i) && event_error(
                e,
                #[trigger] raw.events@[i],
            )
    }
}

/// Reads a pattern: note names become notes, "on" and "off" become MIDI status types.
pub fn parse_pattern_raw<F: Copy>(raw: &PatternRaw<F>) -> (pattern: Result<PatternConfig<F>, PatternError>)
    ensures
        match pattern {
            Ok(p) => pattern_read(*raw, p),
            Err(e) => pattern_error(e, *raw),
        },
{
    let base_note: Option<u8> = match &raw.base_note {
        Some(name) => match parse_note_name(name.as_str()) {
            Ok(note) => Some(note),
            Err(e) => return Err(PatternError::Note(e)),
        },
        None => None,
    };
    let mut events: Vec<(u64, u8, u8, u8)> = Vec::new();
    let n: usize = raw.events.len();
    let mut i: usize = 0;
    while i < n
        invariant
            i <= n,
            n == raw.events@.len(),
            base_note_readable(raw.base_note),
            events@.len() == i,
            forall|k: int| 0 <= k < i ==> event_of(raw.events@[k]) == Some(#[trigger] events@[k]),
            events_readable(raw.events@, i as int),
        decreases n - i,
    {
        let e = &raw.events[i];
        let note: u8 = match parse_note_name(e.note.as_str()) {
            Ok(note) => note,
            Err(err) => {
                assert(event_error(PatternError::Note(err), raw.events@[i as int]));
                return Err(PatternError::Note(err));
            },
        };
        let status: u8 = if same(e.status.as_str(), "on") {
            0x90
        } else if same(e.status.as_str(), "off") {
            0x80
        } else {
            let word = e.status.as_str().to_owned();
            assert(event_error(PatternError::Status(word), raw.events@[i as int]));
            return Err(PatternError::Status(word));
        };
        events.push((e.frame, status, note, e.velocity));
        i = i + 1;
    }
    Ok(
        PatternConfig {
            bpm: raw.bpm,
            length_beats: raw.length_beats,
            looping: raw.looping,
            base_note,
            events,
            enabled: raw.enabled,
        },
    )
}

/// Whether a split can be read.
pub open spec fn split_readable<F>(raw: SplitRaw<F>) -> bool {
    &&& raw.range matches Some(r) ==> parsed_range(r@) is Ok
    &&& raw.pattern matches Some(p) ==> pattern_readable(p)
}

/// Whether a split has been read right.
pub open spec fn split_read<F>(raw: SplitRaw<F>, s: SplitConfig<F>) -> bool {
    &&& split_readable(raw)
    &&& match raw.range {
        Some(r) => s.range is Some && parsed_range(r@) == Ok::<(u8, u8), RangeFault>(s.range->0),
        None => s.range is None,
    }
    &&& s.transpose == raw.transpose
    &&& s.instrument == raw.instrument
    &&& s.effects == raw.effects
    &&& match raw.pattern {
        Some(p) => s.pattern is Some && pattern_read(p, s.pattern->0),
        None => s.pattern is None,
    }
}

/// Whether `e` reports the first thing in a split that cannot be read: the range, then the pattern.
pub open spec fn split_error<F>(e: SessionError, raw: SplitRaw<F>) -> bool {
    if raw.range is Some && parsed_range(raw.range->0@) is Err {
        e matches SessionError::Range(r) && range_error(r, raw.range->0@)
    } else {
        raw.pattern is Some && (e matches SessionError::Pattern(p) && pattern_error(p, raw.pattern->0))
    }
}

/// Reads a split.
pub fn read_split<F: Copy>(raw: SplitRaw<F>) -> (split: Result<SplitConfig<F>, SessionError>)
    ensures
        match split {
            Ok(s) => split_read(raw, s),
            Err(e) => split_error(e, raw),
        },
{
    let range: Option<(u8, u8)> = match &raw.range {
        Some(text) => match parse_range(text.as_str()) {
            Ok(range) => Some(range),
            Err(e) => return Err(SessionError::Range(e)),
        },
        None => None,
    };
    let pattern = match &raw.pattern {
        Some(p) => match parse_pattern_raw(p) {
            Ok(p) => Some(p),
            Err(e) => return Err(SessionError::Pattern(e)),
        },
        None => None,
    };
    Ok(
        SplitConfig {
            range,
            transpose: raw.transpose,
            instrument: raw.instrument,
            effects: raw.effects,
            pattern,
        },
    )
}

/// Whether the first `n` splits can be read.
pub open spec fn splits_readable<F>(splits: Seq<SplitRaw<F>>, n: int) -> bool {
    forall|i: int| 0 <= i < n ==> split_readable(#[trigger] splits[i])
}

/// Whether splits have been read right.
pub open spec fn splits_read<F>(raw: Seq<SplitRaw<F>>, splits: Seq<SplitConfig<F>>) -> bool {
    &&& splits.len() == raw.len()
    &&& forall|i: int| 0 <= i < raw.len() ==> split_read(raw[i], #[trigger] splits[i])
}

/// Whether `e` reports the first split that cannot be read.
pub open spec fn splits_error<F>(e: SessionError, raw: Seq<SplitRaw<F>>) -> bool {
    exists|i: int| 0 <= i < raw.len() && splits_readable(raw, i) && split_error(e, #[trigger] raw[i])
}

/// Reads the splits of a keyboard, in order.
fn read_splits<F: Copy>(raw: Vec<SplitRaw<F>>) -> (splits: Result<Vec<SplitConfig<F>>, SessionError>)
    ensures
        match splits {
            Ok(s) => splits_read(raw@, s@),
            Err(e) => splits_error(e, raw@),
        },
{
    let ghost whole = raw@;
    let mut rest: Vec<SplitRaw<F>> = reversed(raw);
    let mut splits: Vec<SplitConfig<F>> = Vec::new();
    while rest.len() > 0
        invariant
            whole == raw@,
            rest@.len() + splits@.len() == whole.len(),
            forall|k: int| 0 <= k < rest@.len() ==> #[trigger] rest@[k] == whole[whole.len() - 1 - k],
            forall|k: int| 0 <= k < splits@.len() ==> split_read(whole[k], #[trigger] splits@[k]),
            splits_readable(whole, splits@.len() as int),
        decreases rest@.len(),
    {
        let ghost at = splits@.len() as int;
        if let Some(next) = rest.pop() {
            assert(next == whole[at]);
            match read_split(next) {
                Ok(s) => {
                    splits.push(s);
                },
                Err(e) => {
                    assert(split_error(e, whole[at]));
                    return Err(e);
                },
            }
        }
    }
    Ok(splits)
}

/// The items, last first.
pub fn reversed<T>(items: Vec<T>) -> (r: Vec<T>)
    ensures
        r@ == items@.reverse(),
{
    let ghost whole = items@;
    let mut rest = items;
    let mut r: Vec<T> = Vec::new();
    while rest.len() > 0
        invariant
            rest@.len() + r@.len() == whole.len(),
            rest@ == whole.take(rest@.len() as int),
            r@ == whole.reverse().take(r@.len() as int),
        decreases rest@.len(),
    {
        let ghost n = rest@.len() as int;
        if let Some(item) = rest.pop() {
            r.push(item);
        }
        assert(rest@ =~= whole.take(n - 1));
        assert(r@ =~= whole.reverse().take(r@.len() as int));
    }
    assert(r@ =~= whole.reverse());
    r
}

/// Whether keyboards have been read right.
pub open spec fn keyboards_read<F>(raw: Seq<KeyboardRaw<F>>, kbs: Seq<KeyboardConfig<F>>) -> bool {
    &&& kbs.len() == raw.len()
    &&& forall|i: int|
        0 <= i < raw.len() ==> (#[trigger] kbs[i]).name == raw[i].name && splits_read(raw[i].splits@, kbs[i].splits@)
}

/// Whether the first `n` keyboards can be read.
pub open spec fn keyboards_readable<F>(raw: Seq<KeyboardRaw<F>>, n: int) -> bool {
    forall|i: int|
        0 <= i < n ==> splits_readable((#[trigger] raw[i]).splits@, raw[i].splits@.len() as int)
}

/// Whether `e` reports the first split of the first keyboard that cannot be read.
pub open spec fn keyboards_error<F>(e: SessionError, raw: Seq<KeyboardRaw<F>>) -> bool {
    exists|i: int| 0 <= i < raw.len() && keyboards_readable(raw, i) && splits_error(e, (#[trigger] raw[i]).splits@)
}

/// Reads a file with keyboards. A file without any is none of this form.
pub fn session_from_new<F: Copy>(raw: NewSessionRaw<F>) -> (session: Option<Result<SessionConfig<F>, SessionError>>)
    ensures
        match session {
            None => raw.keyboards@.len() == 0,
            Some(Ok(s)) => raw.keyboards@.len() > 0 && keyboards_read(raw.keyboards@, s.keyboards@),
            Some(Err(e)) => raw.keyboards@.len() > 0 && keyboards_error(e, raw.keyboards@),
        },
{
    if raw.keyboards.len() == 0 {
        return None;
    }
    let ghost whole = raw.keyboards@;
    let mut rest: Vec<KeyboardRaw<F>> = reversed(raw.keyboards);
    let mut keyboards: Vec<KeyboardConfig<F>> = Vec::new();
    while rest.len() > 0
        invariant
            whole.len() > 0,
            whole == raw.keyboards@,
            rest@.len() + keyboards@.len() == whole.len(),
            forall|k: int| 0 <= k < rest@.len() ==> #[trigger] rest@[k] == whole[whole.len() - 1 - k],
            forall|k: int|
                0 <= k < keyboards@.len() ==> (#[trigger] keyboards@[k]).name == whole[k].name && splits_read(
                    whole[k].splits@,
                    keyboards@[k].splits@,
                ),
            keyboards_readable(whole, keyboards@.len() as int),
        decreases rest@.len(),
    {
        let ghost at = keyboards@.len() as int;
        if let Some(next) = rest.pop() {
            assert(next == whole[at]);
            match read_splits(next.splits) {
                Ok(splits) => {
                    assert forall|i: int| 0 <= i < whole[at].splits@.len() implies split_readable(
                        #[trigger] whole[at].splits@[i],
                    ) by {
                        assert(split_read(whole[at].splits@[i], splits@[i]));
                    }
                    keyboards.push(KeyboardConfig { name: next.name, splits });
                },
                Err(e) => {
                    assert(splits_error(e, whole[at].splits@));
                    return Some(Err(e));
                },
            }
        }
    }
    Some(Ok(SessionConfig { keyboards }))
}

/// Reads a file of the older form: one keyboard without a name, one split over the full range.
pub fn session_from_legacy<F: Copy>(raw: LegacySessionRaw<F>) -> (session: SessionConfig<F>)
    ensures
        session.keyboards@.len() == 1,
        session.keyboards@[0].name is None,
        session.keyboards@[0].splits@.len() == 1,
        ({
            let s = session.keyboards@[0].splits@[0];
            &&& s.range is None
            &&& s.transpose == 0
            &&& s.instrument == Some(raw.instrument)
            &&& s.effects == raw.effects
            &&& s.pattern is None
        }),
{
    let mut splits: Vec<SplitConfig<F>> = Vec::new();
    splits.push(
        SplitConfig {
            range: None,
            transpose: 0,
            instrument: Some(raw.instrument),
            effects: raw.effects,
            pattern: None,
        },
    );
    let mut keyboards: Vec<KeyboardConfig<F>> = Vec::new();
    keyboards.push(KeyboardConfig { name: None, splits });
    SessionConfig { keyboards }
}

/// The plugin that a session names: sources with a colon and absolute paths stand for themselves,
/// relative paths start from the directory of the session file.
pub open spec fn resolved_plugin(system: System, source: Seq<char>, dir: Seq<char>) -> Seq<char> {
    if source.contains(':') || absolute(system, source) {
        source
    } else {
        joined(system, dir, source)
    }
}

/// The plugin that a session in directory `session_dir` names.
pub fn resolve_plugin_path(system: System, plugin_source: &str, session_dir: &str) -> (path: String)
    ensures
        path@ == resolved_plugin(system, plugin_source@, session_dir@),
{
    if has_char(plugin_source, ':') || is_absolute(system, plugin_source) {
        return plugin_source.to_owned();
    }
    join(system, session_dir, plugin_source)
}

// ---------------------------------------------------------------------------
// Writing: what is to be saved
// ---------------------------------------------------------------------------

/// A keyboard to be saved.
#[derive(Debug)]
pub struct SaveKeyboard<F> {
    pub name: String,
    pub splits: Vec<SaveSplit<F>>,
}

/// A split to be saved.
#[derive(Debug)]
pub struct SaveSplit<F> {
    pub range: Option<(u8, u8)>,
    pub transpose: i8,
    pub instrument: Option<SaveInstrument<F>>,
    pub effects: Vec<SaveEffect<F>>,
    pub pattern: Option<SavePattern<F>>,
}

/// A pattern to be saved.
#[derive(Debug)]
pub struct SavePattern<F> {
    pub bpm: F,
    pub length_beats: F,
    pub looping: bool,
    pub base_note: Option<u8>,
    /// Frame, status, note and velocity of each event.
    pub events: Vec<(u64, u8, u8, u8)>,
    pub enabled: bool,
}

/// The source of a modulator to be saved.
#[derive(Debug)]
pub enum SaveModSource<F> {
    Lfo { waveform: String, rate: F },
    Envelope { attack: F, decay: F, sustain: F, release: F },
}

/// A modulator to be saved.
#[derive(Debug)]
pub struct SaveModulator<F> {
    pub source: SaveModSource<F>,
    pub targets: Vec<SaveModTarget<F>>,
}

/// A modulation target to be saved; `label` is the name of the parameter.
#[derive(Debug)]
pub struct SaveModTarget<F> {
    pub kind: ModTargetKind,
    pub label: String,
    pub depth: F,
}

/// An instrument to be saved.
#[derive(Debug)]
pub struct SaveInstrument<F> {
    pub plugin: String,
    pub volume: F,
    pub params: Vec<(String, F)>,
    pub modulators: Vec<SaveModulator<F>>,
}

/// An effect to be saved.
#[derive(Debug)]
pub struct SaveEffect<F> {
    pub plugin: String,
    pub mix: F,
    pub params: Vec<(String, F)>,
    pub modulators: Vec<SaveModulator<F>>,
}

// ---------------------------------------------------------------------------
// Writing: what goes into the file
// ---------------------------------------------------------------------------

/// A session as it is written.
#[derive(Debug)]
pub struct SessionOut<F> {
    pub keyboards: Vec<KeyboardOut<F>>,
}

/// A keyboard as it is written.
#[derive(Debug)]
pub struct KeyboardOut<F> {
    pub name: Option<String>,
    pub splits: Vec<SplitOut<F>>,
}

/// A split as it is written.
#[derive(Debug)]
pub struct SplitOut<F> {
    pub range: Option<String>,
    pub transpose: i8,
    pub instrument: Option<InstrumentOut<F>>,
    pub effects: Vec<EffectOut<F>>,
    pub pattern: Option<PatternOut<F>>,
}

/// A pattern as it is written.
#[derive(Debug)]
pub struct PatternOut<F> {
    pub bpm: F,
    pub length_beats: F,
    pub looping: bool,
    pub base_note: Option<String>,
    pub events: Vec<PatternEventOut>,
    pub enabled: bool,
}

/// A pattern event as it is written.
#[derive(Debug)]
pub struct PatternEventOut {
    pub frame: u64,
    pub status: String,
    pub note: String,
    pub velocity: u8,
}

/// A modulator as it is written.
#[derive(Debug)]
pub struct ModulatorOut<F> {
    pub mod_type: String,
    pub waveform: Option<String>,
    pub rate: Option<F>,
    pub attack: Option<F>,
    pub decay: Option<F>,
    pub sustain: Option<F>,
    pub release: Option<F>,
    pub targets: Vec<ModTargetOut<F>>,
}

/// A modulation target as it is written.
#[derive(Debug)]
pub struct ModTargetOut<F> {
    pub param: Option<String>,
    pub mod_rate: Option<usize>,
    pub mod_depth: Option<Vec<usize>>,
    pub mod_attack: Option<usize>,
    pub mod_decay: Option<usize>,
    pub mod_sustain: Option<usize>,
    pub mod_release: Option<usize>,
    pub depth: F,
}

/// An instrument as it is written; no parameter occurs twice.
#[derive(Debug)]
pub struct InstrumentOut<F> {
    pub plugin: String,
    pub volume: F,
    pub params: Vec<(String, F)>,
    pub modulators: Vec<ModulatorOut<F>>,
}

/// An effect as it is written; no parameter occurs twice.
#[derive(Debug)]
pub struct EffectOut<F> {
    pub plugin: String,
    pub mix: F,
    pub params: Vec<(String, F)>,
    pub modulators: Vec<ModulatorOut<F>>,
}

/// A looping pattern does not say that it loops.
pub fn is_true(v: &bool) -> (r: bool)
    ensures
        r == *v,
{
    *v
}

/// A split that is not transposed does not say so.
pub fn is_zero_i8(v: &i8) -> (r: bool)
    ensures
        r == (*v == 0),
{
    *v == 0
}

/// An LFO does not say that it is one.
pub fn is_lfo_type(s: &String) -> (r: bool)
    ensures
        r == (s@ == "lfo"@),
{
    same(s.as_str(), "lfo")
}

// ---------------------------------------------------------------------------
// Writing: how one becomes the other
// ---------------------------------------------------------------------------

/// The word for a MIDI status type.
pub open spec fn status_word(status: u8) -> Seq<char> {
    if status == 0x90 {
        "on"@
    } else {
        "off"@
    }
}

/// Whether an event has been written right.
pub open spec fn event_written(e: (u64, u8, u8, u8), out: PatternEventOut) -> bool {
    &&& out.frame == e.0
    &&& out.status@ == status_word(e.1)
    &&& out.note@ == note_text(e.2)
    &&& out.velocity == e.3
}

/// Whether a pattern has been written right.
pub open spec fn pattern_written<F>(p: SavePattern<F>, out: PatternOut<F>) -> bool {
    &&& out.bpm == p.bpm
    &&& out.length_beats == p.length_beats
    &&& out.looping == p.looping
    &&& out.enabled == p.enabled
    &&& match p.base_note {
        Some(note) => out.base_note is Some && out.base_note->0@ == note_text(note),
        None => out.base_note is None,
    }
    &&& out.events@.len() == p.events@.len()
    &&& forall|i: int| 0 <= i < p.events@.len() ==> event_written(p.events@[i], #[trigger] out.events@[i])
}

/// The sibling field that a target out names: one place of six, or none.
pub open spec fn target_written<F>(t: SaveModTarget<F>, out: ModTargetOut<F>) -> bool {
    &&& out.depth == t.depth
    &&& match t.kind {
        ModTargetKind::PluginParam { .. } => out.param is Some && out.param->0@ == t.label@,
        _ => out.param is None,
    }
    &&& out.mod_rate == (match t.kind {
        ModTargetKind::ModulatorRate { mod_index } => Some(mod_index),
        _ => None,
    })
    &&& match t.kind {
        ModTargetKind::ModulatorDepth { mod_index, target_index } => out.mod_depth is Some && out.mod_depth->0@
            == seq![mod_index, target_index],
        _ => out.mod_depth is None,
    }
    &&& out.mod_attack == (match t.kind {
        ModTargetKind::ModulatorAttack { mod_index } => Some(mod_index),
        _ => None,
    })
    &&& out.mod_decay == (match t.kind {
        ModTargetKind::ModulatorDecay { mod_index } => Some(mod_index),
        _ => None,
    })
    &&& out.mod_sustain == (match t.kind {
        ModTargetKind::ModulatorSustain { mod_index } => Some(mod_index),
        _ => None,
    })
    &&& out.mod_release == (match t.kind {
        ModTargetKind::ModulatorRelease { mod_index } => Some(mod_index),
        _ => None,
    })
}

/// Whether a modulator has been written right.
pub open spec fn modulator_written<F>(m: SaveModulator<F>, out: ModulatorOut<F>) -> bool {
    &&& match m.source {
        SaveModSource::Lfo { waveform, rate } => {
            &&& out.mod_type@ == "lfo"@
            &&& out.waveform is Some && out.waveform->0@ == waveform@
            &&& out.rate == Some(rate)
            &&& out.attack is None && out.decay is None && out.sustain is None && out.release is None
        },
        SaveModSource::Envelope { attack, decay, sustain, release } => {
            &&& out.mod_type@ == "envelope"@
            &&& out.waveform is None && out.rate is None
            &&& out.attack == Some(attack) && out.decay == Some(decay)
            &&& out.sustain == Some(sustain) && out.release == Some(release)
        },
    }
    &&& out.targets@.len() == m.targets@.len()
    &&& forall|i: int| 0 <= i < m.targets@.len() ==> target_written(m.targets@[i], #[trigger] out.targets@[i])
}

/// Whether modulators have been written right.
pub open spec fn modulators_written<F>(mods: Seq<SaveModulator<F>>, out: Seq<ModulatorOut<F>>) -> bool {
    &&& out.len() == mods.len()
    &&& forall|i: int| 0 <= i < mods.len() ==> modulator_written(mods[i], #[trigger] out[i])
}

/// The values that parameters are set to by name, later ones overriding earlier ones.
pub open spec fn param_map<F>(params: Seq<(String, F)>) -> Map<Seq<char>, F>
    decreases params.len(),
{
    if params.len() == 0 {
        Map::empty()
    } else {
        param_map(params.drop_last()).insert(params.last().0@, params.last().1)
    }
}

/// Whether no name occurs twice.
pub open spec fn names_distinct<F>(params: Seq<(String, F)>) -> bool {
    forall|i: int, j: int|
        0 <= i < j < params.len() ==> (#[trigger] params[i]).0@ != (#[trigger] params[j]).0@
}

/// Whether parameters have been written right.
pub open spec fn params_written<F>(params: Seq<(String, F)>, out: Seq<(String, F)>) -> bool {
    param_map(out) == param_map(params) && names_distinct(out)
}

/// Whether an instrument has been written right.
pub open spec fn instrument_written<F>(i: SaveInstrument<F>, out: InstrumentOut<F>) -> bool {
    &&& out.plugin@ == i.plugin@
    &&& out.volume == i.volume
    &&& params_written(i.params@, out.params@)
    &&& modulators_written(i.modulators@, out.modulators@)
}

/// Whether an effect has been written right.
pub open spec fn effect_written<F>(e: SaveEffect<F>, out: EffectOut<F>) -> bool {
    &&& out.plugin@ == e.plugin@
    &&& out.mix == e.mix
    &&& params_written(e.params@, out.params@)
    &&& modulators_written(e.modulators@, out.modulators@)
}

/// Whether a split has been written right.
pub open spec fn split_written<F>(s: SaveSplit<F>, out: SplitOut<F>) -> bool {
    &&& match s.range {
        Some(range) => out.range is Some && out.range->0@ == range_text(range),
        None => out.range is None,
    }
    &&& out.transpose == s.transpose
    &&& match s.instrument {
        Some(i) => out.instrument is Some && instrument_written(i, out.instrument->0),
        None => out.instrument is None,
    }
    &&& out.effects@.len() == s.effects@.len()
    &&& forall|i: int| 0 <= i < s.effects@.len() ==> effect_written(s.effects@[i], #[trigger] out.effects@[i])
    &&& match s.pattern {
        Some(p) => out.pattern is Some && pattern_written(p, out.pattern->0),
        None => out.pattern is None,
    }
}

/// Whether a keyboard has been written right.
pub open spec fn keyboard_written<F>(k: SaveKeyboard<F>, out: KeyboardOut<F>) -> bool {
    &&& out.name is Some && out.name->0@ == k.name@
    &&& out.splits@.len() == k.splits@.len()
    &&& forall|i: int| 0 <= i < k.splits@.len() ==> split_written(k.splits@[i], #[trigger] out.splits@[i])
}

fn write_event(e: (u64, u8, u8, u8)) -> (out: PatternEventOut)
    ensures
        event_written(e, out),
{
    PatternEventOut {
        frame: e.0,
        status: if e.1 == 0x90 {
            "on".to_owned()
        } else {
            "off".to_owned()
        },
        note: note_name(e.2),
        velocity: e.3,
    }
}

fn write_pattern<F: Copy>(p: &SavePattern<F>) -> (out: PatternOut<F>)
    ensures
        pattern_written(*p, out),
{
    let mut events: Vec<PatternEventOut> = Vec::new();
    let n: usize = p.events.len();
    let mut i: usize = 0;
    while i < n
        invariant
            i <= n,
            n == p.events@.len(),
            events@.len() == i,
            forall|k: int| 0 <= k < i ==> event_written(p.events@[k], #[trigger] events@[k]),
        decreases n - i,
    {
        events.push(write_event(p.events[i]));
        i = i + 1;
    }
    PatternOut {
        bpm: p.bpm,
        length_beats: p.length_beats,
        looping: p.looping,
        base_note: match p.base_note {
            Some(note) => Some(note_name(note)),
            None => None,
        },
        events,
        enabled: p.enabled,
    }
}

/// Writes a modulation target: the name of the parameter, or the place in the field's own entry.
pub fn save_mod_target_to_out<F: Copy>(t: &SaveModTarget<F>) -> (out: ModTargetOut<F>)
    ensures
        target_written(*t, out),
{
    let mut out = ModTargetOut {
        param: None,
        mod_rate: None,
        mod_depth: None,
        mod_attack: None,
        mod_decay: None,
        mod_sustain: None,
        mod_release: None,
        depth: t.depth,
    };
    match t.kind {
        ModTargetKind::PluginParam { .. } => {
            out.param = Some(t.label.as_str().to_owned());
        },
        ModTargetKind::ModulatorRate { mod_index } => {
            out.mod_rate = Some(mod_index);
        },
        ModTargetKind::ModulatorDepth { mod_index, target_index } => {
            let mut pair: Vec<usize> = Vec::new();
            pair.push(mod_index);
            pair.push(target_index);
            assert(pair@ =~= seq![mod_index, target_index]);
            out.mod_depth = Some(pair);
        },
        ModTargetKind::ModulatorAttack { mod_index } => {
            out.mod_attack = Some(mod_index);
        },
        ModTargetKind::ModulatorDecay { mod_index } => {
            out.mod_decay = Some(mod_index);
        },
        ModTargetKind::ModulatorSustain { mod_index } => {
            out.mod_sustain = Some(mod_index);
        },
        ModTargetKind::ModulatorRelease { mod_index } => {
            out.mod_release = Some(mod_index);
        },
    }
    out
}

fn write_modulator<F: Copy>(m: &SaveModulator<F>) -> (out: ModulatorOut<F>)
    ensures
        modulator_written(*m, out),
{
    let mut targets: Vec<ModTargetOut<F>> = Vec::new();
    let n: usize = m.targets.len();
    let mut i: usize = 0;
    while i < n
        invariant
            i <= n,
            n == m.targets@.len(),
            targets@.len() == i,
            forall|k: int| 0 <= k < i ==> target_written(m.targets@[k], #[trigger] targets@[k]),
        decreases n - i,
    {
        targets.push(save_mod_target_to_out(&m.targets[i]));
        i = i + 1;
    }
    match &m.source {
        SaveModSource::Lfo { waveform, rate } => ModulatorOut {
            mod_type: "lfo".to_owned(),
            waveform: Some(waveform.as_str().to_owned()),
            rate: Some(*rate),
            attack: None,
            decay: None,
            sustain: None,
            release: None,
            targets,
        },
        SaveModSource::Envelope { attack, decay, sustain, release } => ModulatorOut {
            mod_type: "envelope".to_owned(),
            waveform: None,
            rate: None,
            attack: Some(*attack),
            decay: Some(*decay),
            sustain: Some(*sustain),
            release: Some(*release),
            targets,
        },
    }
}

fn write_modulators<F: Copy>(mods: &Vec<SaveModulator<F>>) -> (out: Vec<ModulatorOut<F>>)
    ensures
        modulators_written(mods@, out@),
{
    let mut out: Vec<ModulatorOut<F>> = Vec::new();
    let n: usize = mods.len();
    let mut i: usize = 0;
    while i < n
        invariant
            i <= n,
            n == mods@.len(),
            out@.len() == i,
            forall|k: int| 0 <= k < i ==> modulator_written(mods@[k], #[trigger] out@[k]),
        decreases n - i,
    {
        out.push(write_modulator(&mods[i]));
        i = i + 1;
    }
    out
}

/// Sets a parameter in a list without repetitions.
fn set_param<F: Copy>(params: &mut Vec<(String, F)>, name: &str, value: F)
    requires
        names_distinct(old(params)@),
    ensures
        names_distinct(final(params)@),
        param_map(final(params)@) == param_map(old(params)@).insert(name@, value),
{
    let n: usize = params.len();
    let mut i: usize = 0;
    while i < n
        invariant
            i <= n,
            n == params@.len(),
            params@ == old(params)@,
            names_distinct(params@),
            forall|k: int| 0 <= k < i ==> (#[trigger] params@[k]).0@ != name@,
        decreases n - i,
    {
        if same(params[i].0.as_str(), name) {
            let ghost before = params@;
            params[i] = (name.to_owned(), value);
            proof {
                lemma_param_replaced(before, params@, i as int);
            }
            return;
        }
        i = i + 1;
    }
    params.push((name.to_owned(), value));
    assert(params@.drop_last() =~= old(params)@);
}

/// Replacing the value of a name replaces it in the map.
proof fn lemma_param_replaced<F>(before: Seq<(String, F)>, after: Seq<(String, F)>, i: int)
    requires
        0 <= i < before.len(),
        after.len() == before.len(),
        names_distinct(before),
        after[i].0@ == before[i].0@,
        forall|k: int| 0 <= k < before.len() && k != i ==> after[k] == before[k],
    ensures
        names_distinct(after),
        param_map(after) == param_map(before).insert(before[i].0@, after[i].1),
    decreases before.len(),
{
    assert forall|a: int, b: int| 0 <= a < b < after.len() implies (#[trigger] after[a]).0@ != (
    #[trigger] after[b]).0@ by {
        assert(after[a].0@ == before[a].0@ && after[b].0@ == before[b].0@);
    }
    let last = before.len() - 1;
    if i == last {
        assert(after.drop_last() =~= before.drop_last());
        assert(param_map(after) =~= param_map(before).insert(before[i].0@, after[i].1));
    } else {
        assert forall|k: int| 0 <= k < before.drop_last().len() && k != i implies after.drop_last()[k]
            == before.drop_last()[k] by {
            assert(after[k] == before[k]);
        }
        lemma_param_replaced(before.drop_last(), after.drop_last(), i);
        assert(after[last] == before[last]);
        assert(before[i].0@ != before[last].0@);
        assert(param_map(after) =~= param_map(before).insert(before[i].0@, after[i].1));
    }
}

fn write_params<F: Copy>(params: &Vec<(String, F)>) -> (out: Vec<(String, F)>)
    ensures
        params_written(params@, out@),
{
    let mut out: Vec<(String, F)> = Vec::new();
    let n: usize = params.len();
    let mut i: usize = 0;
    while i < n
        invariant
            i <= n,
            n == params@.len(),
            names_distinct(out@),
            param_map(out@) == param_map(params@.take(i as int)),
        decreases n - i,
    {
        proof {
            assert(params@.take(i + 1).drop_last() =~= params@.take(i as int));
        }
        set_param(&mut out, params[i].0.as_str(), params[i].1);
        i = i + 1;
    }
    proof {
        assert(params@.take(n as int) =~= params@);
    }
    out
}

fn write_effect<F: Copy>(e: &SaveEffect<F>) -> (out: EffectOut<F>)
    ensures
        effect_written(*e, out),
{
    EffectOut {
        plugin: e.plugin.as_str().to_owned(),
        mix: e.mix,
        params: write_params(&e.params),
        modulators: write_modulators(&e.modulators),
    }
}

fn write_split<F: Copy>(s: &SaveSplit<F>) -> (out: SplitOut<F>)
    ensures
        split_written(*s, out),
{
    let mut effects: Vec<EffectOut<F>> = Vec::new();
    let n: usize = s.effects.len();
    let mut i: usize = 0;
    while i < n
        invariant
            i <= n,
            n == s.effects@.len(),
            effects@.len() == i,
            forall|k: int| 0 <= k < i ==> effect_written(s.effects@[k], #[trigger] effects@[k]),
        decreases n - i,
    {
        effects.push(write_effect(&s.effects[i]));
        i = i + 1;
    }
    SplitOut {
        range: match s.range {
            Some(range) => Some(format_range(range)),
            None => None,
        },
        transpose: s.transpose,
        instrument: match &s.instrument {
            Some(inst) => Some(
                InstrumentOut {
                    plugin: inst.plugin.as_str().to_owned(),
                    volume: inst.volume,
                    params: write_params(&inst.params),
                    modulators: write_modulators(&inst.modulators),
                },
            ),
            None => None,
        },
        effects,
        pattern: match &s.pattern {
            Some(p) => Some(write_pattern(p)),
            None => None,
        },
    }
}

fn write_keyboard<F: Copy>(k: &SaveKeyboard<F>) -> (out: KeyboardOut<F>)
    ensures
        keyboard_written(*k, out),
{
    let mut splits: Vec<SplitOut<F>> = Vec::new();
    let n: usize = k.splits.len();
    let mut i: usize = 0;
    while i < n
        invariant
            i <= n,
            n == k.splits@.len(),
            splits@.len() == i,
            forall|j: int| 0 <= j < i ==> split_written(k.splits@[j], #[trigger] splits@[j]),
        decreases n - i,
    {
        splits.push(write_split(&k.splits[i]));
        i = i + 1;
    }
    KeyboardOut { name: Some(k.name.as_str().to_owned()), splits }
}

/// The session as it is written to a file.
pub fn session_out<F: Copy>(keyboards: &Vec<SaveKeyboard<F>>) -> (out: SessionOut<F>)
    ensures
        out.keyboards@.len() == keyboards@.len(),
        forall|i: int|
            0 <= i < keyboards@.len() ==> keyboard_written(keyboards@[i], #[trigger] out.keyboards@[i]),
{
    let mut list: Vec<KeyboardOut<F>> = Vec::new();
    let n: usize = keyboards.len();
    let mut i: usize = 0;
    while i < n
        invariant
            i <= n,
            n == keyboards@.len(),
            list@.len() == i,
            forall|k: int| 0 <= k < i ==> keyboard_written(keyboards@[k], #[trigger] list@[k]),
        decreases n - i,
    {
        list.push(write_keyboard(&keyboards[i]));
        i = i + 1;
    }
    SessionOut { keyboards: list }
}

// ---------------------------------------------------------------------------
// Laws
// ---------------------------------------------------------------------------

/// Whether a written event is read as it stands.
pub open spec fn event_as_written(out: PatternEventOut, raw: PatternEventRaw) -> bool {
    &&& raw.frame == out.frame
    &&& raw.status@ == out.status@
    &&& raw.note@ == out.note@
    &&& raw.velocity == out.velocity
}

/// Whether a written pattern is read as it stands.
pub open spec fn pattern_as_written<F>(out: PatternOut<F>, raw: PatternRaw<F>) -> bool {
    &&& raw.bpm == out.bpm
    &&& raw.length_beats == out.length_beats
    &&& raw.looping == out.looping
    &&& raw.enabled == out.enabled
    &&& match out.base_note {
        Some(name) => raw.base_note is Some && raw.base_note->0@ == name@,
        None => raw.base_note is None,
    }
    &&& raw.events@.len() == out.events@.len()
    &&& forall|i: int| 0 <= i < out.events@.len() ==> event_as_written(out.events@[i], #[trigger] raw.events@[i])
}

/// Whether an event is one that a pattern holds: a note-on or note-off of a MIDI note.
pub open spec fn event_sound(e: (u64, u8, u8, u8)) -> bool {
    (e.1 == 0x90 || e.1 == 0x80) && e.2 <= 127
}

/// An event that is saved and read back is the same event.
pub proof fn saved_event_reads_back(e: (u64, u8, u8, u8), out: PatternEventOut, raw: PatternEventRaw)
    requires
        event_sound(e),
        event_written(e, out),
        event_as_written(out, raw),
    ensures
        event_of(raw) == Some(e),
{
    parse_inverts_note_name(e.2);
    reveal_strlit("on");
    reveal_strlit("off");
    assert("on"@.len() != "off"@.len());
}

/// A pattern that is saved and read back is the same pattern.
pub proof fn saved_pattern_reads_back<F>(p: SavePattern<F>, out: PatternOut<F>, raw: PatternRaw<F>, read: PatternConfig<F>)
    requires
        p.base_note matches Some(note) ==> note <= 127,
        forall|i: int| 0 <= i < p.events@.len() ==> event_sound(#[trigger] p.events@[i]),
        pattern_written(p, out),
        pattern_as_written(out, raw),
        pattern_read(raw, read),
    ensures
        read.bpm == p.bpm,
        read.length_beats == p.length_beats,
        read.looping == p.looping,
        read.enabled == p.enabled,
        read.base_note == p.base_note,
        read.events@ == p.events@,
{
    if let Some(note) = p.base_note {
        parse_inverts_note_name(note);
    }
    assert forall|i: int| 0 <= i < p.events@.len() implies read.events@[i] == p.events@[i] by {
        assert(event_sound(p.events@[i]));
        saved_event_reads_back(p.events@[i], out.events@[i], raw.events@[i]);
    }
    assert(read.events@ =~= p.events@);
}

/// What is saved of a pattern can be read back at all.
pub proof fn saved_pattern_is_readable<F>(p: SavePattern<F>, out: PatternOut<F>, raw: PatternRaw<F>)
    requires
        p.base_note matches Some(note) ==> note <= 127,
        forall|i: int| 0 <= i < p.events@.len() ==> event_sound(#[trigger] p.events@[i]),
        pattern_written(p, out),
        pattern_as_written(out, raw),
    ensures
        pattern_readable(raw),
{
    if let Some(note) = p.base_note {
        parse_inverts_note_name(note);
    }
    assert forall|i: int| 0 <= i < raw.events@.len() implies event_of(#[trigger] raw.events@[i]) is Some by {
        assert(event_sound(p.events@[i]));
        saved_event_reads_back(p.events@[i], out.events@[i], raw.events@[i]);
    }
}

/// A range that is saved and read back is the same range. Notes below 12 are left out: their
/// names hold a dash.
pub proof fn saved_range_reads_back<F>(s: SaveSplit<F>, out: SplitOut<F>)
    requires
        split_written(s, out),
        s.range matches Some((low, high)) ==> 12 <= low <= high <= 127,
    ensures
        match s.range {
            Some(range) => out.range is Some && parsed_range(out.range->0@) == Ok::<(u8, u8), RangeFault>(range),
            None => out.range is None,
        },
{
    if let Some((low, high)) = s.range {
        parse_inverts_format_range(low, high);
    }
}

} // verus!
