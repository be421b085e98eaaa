//! The session as the editor has it, to be saved.
use vstd::prelude::*;

use crate::model::views;
use crate::session::{
    SaveEffect, SaveInstrument, SaveKeyboard, SaveModSource, SaveModTarget, SaveModulator, SavePattern, SaveSplit,
};
use crate::tui::editor::{Editor, EditorView};
use crate::tui::model::{
    KeyboardNode, KeyboardView, ModSlotView, ModSourceSlot, ModTargetSlot, ModulatorSlot, ParamSlot,
    PatternState, PatternStateView, PluginView, SplitNode, SplitView,
};

verus! {

/// Whether `f` says what `changed` answers: whether a value differs from its default.
pub open spec fn decides<F, C: Fn(F, F) -> bool>(changed: C, f: spec_fn(F, F) -> bool) -> bool {
    forall|value: F, default: F, r: bool| #[trigger] call_ensures(changed, (value, default), r) ==> r == f(value, default)
}

/// Names and values of those of the first `count` parameters that were changed.
pub open spec fn changed_params<F>(params: Seq<ParamSlot<F>>, f: spec_fn(F, F) -> bool, count: int) -> Seq<(String, F)>
    decreases count,
{
    if count <= 0 {
        Seq::empty()
    } else {
        let rest = changed_params(params, f, count - 1);
        let p = params[count - 1];
        if f(p.value, p.default) {
            rest.push((p.name, p.value))
        } else {
            rest
        }
    }
}

/// Whether a target is saved as it is.
pub open spec fn saves_target<F>(t: ModTargetSlot<F>, s: SaveModTarget<F>) -> bool {
    s.kind == t.kind && s.label@ == t.param_name@ && s.depth == t.depth
}

/// Whether a source is saved as it is.
pub open spec fn saves_source<F>(source: ModSourceSlot<F>, s: SaveModSource<F>) -> bool {
    match (source, s) {
        (ModSourceSlot::Lfo { waveform, rate }, SaveModSource::Lfo { waveform: name, rate: r }) => name@
            == waveform.label() && r == rate,
        (
            ModSourceSlot::Envelope { attack, decay, sustain, release },
            SaveModSource::Envelope { attack: a, decay: d, sustain: s, release: r },
        ) => a == attack && d == decay && s == sustain && r == release,
        _ => false,
    }
}

/// Whether a modulator is saved as it is.
pub open spec fn saves_modulator<F>(m: ModSlotView<F>, s: SaveModulator<F>) -> bool {
    &&& saves_source(m.source, s.source)
    &&& s.targets@.len() == m.targets.len()
    &&& forall|i: int| 0 <= i < m.targets.len() ==> saves_target(m.targets[i], #[trigger] s.targets@[i])
}

/// Whether modulators are saved as they are.
pub open spec fn saves_modulators<F>(mods: Seq<ModSlotView<F>>, s: Seq<SaveModulator<F>>) -> bool {
    s.len() == mods.len() && forall|i: int| 0 <= i < mods.len() ==> saves_modulator(mods[i], #[trigger] s[i])
}

/// Whether an effect is saved as it is, fully wet, with the parameters that `f` says were changed.
pub open spec fn saves_effect<F>(p: PluginView<F>, s: SaveEffect<F>, f: spec_fn(F, F) -> bool, unity: F) -> bool {
    &&& s.plugin@ == p.id
    &&& s.mix == unity
    &&& s.params@ == changed_params(p.params, f, p.params.len() as int)
    &&& saves_modulators(p.modulators, s.modulators@)
}

/// Whether an instrument is saved as it is, at full volume, with the parameters that `f` says were
/// changed.
pub open spec fn saves_instrument<F>(
    p: PluginView<F>,
    s: SaveInstrument<F>,
    f: spec_fn(F, F) -> bool,
    unity: F,
) -> bool {
    &&& s.plugin@ == p.id
    &&& s.volume == unity
    &&& s.params@ == changed_params(p.params, f, p.params.len() as int)
    &&& saves_modulators(p.modulators, s.modulators@)
}

/// Whether a pattern is saved as it is.
pub open spec fn saves_pattern<F>(p: PatternStateView<F>, s: SavePattern<F>) -> bool {
    s.bpm == p.bpm && s.length_beats == p.length_beats && s.looping == p.looping && s.base_note == p.base_note
        && s.events@ == p.events && s.enabled == p.enabled
}

/// Whether a split is saved as it is.
pub open spec fn saves_split<F>(v: SplitView<F>, s: SaveSplit<F>, f: spec_fn(F, F) -> bool, unity: F) -> bool {
    &&& s.range == v.range
    &&& s.transpose == v.transpose
    &&& match (v.instrument, s.instrument) {
        (Some(p), Some(i)) => saves_instrument(p, i, f, unity),
        (None, None) => true,
        _ => false,
    }
    &&& s.effects@.len() == v.effects.len()
    &&& forall|i: int| 0 <= i < v.effects.len() ==> saves_effect(v.effects[i], #[trigger] s.effects@[i], f, unity)
    &&& match (v.pattern, s.pattern) {
        (Some(p), Some(q)) => saves_pattern(p, q),
        (None, None) => true,
        _ => false,
    }
}

/// Whether a keyboard is saved as it is.
pub open spec fn saves_keyboard<F>(k: KeyboardView<F>, s: SaveKeyboard<F>, f: spec_fn(F, F) -> bool, unity: F) -> bool {
    &&& s.name@ == k.name
    &&& s.splits@.len() == k.splits.len()
    &&& forall|i: int| 0 <= i < k.splits.len() ==> saves_split(k.splits[i], #[trigger] s.splits@[i], f, unity)
}

/// Whether keyboards are saved as they are.
pub open spec fn saves_keyboards<F>(
    kbs: Seq<KeyboardView<F>>,
    s: Seq<SaveKeyboard<F>>,
    f: spec_fn(F, F) -> bool,
    unity: F,
) -> bool {
    s.len() == kbs.len() && forall|i: int| 0 <= i < kbs.len() ==> saves_keyboard(kbs[i], #[trigger] s[i], f, unity)
}

fn save_params<F: Copy, C: Fn(F, F) -> bool>(params: &Vec<ParamSlot<F>>, changed: &C) -> (out: Vec<(String, F)>)
    requires
        forall|value: F, default: F| call_requires(*changed, (value, default)),
    ensures
        forall|f: spec_fn(F, F) -> bool| #[trigger]
            decides(*changed, f) ==> out@ == changed_params(params@, f, params@.len() as int),
{
    let mut out: Vec<(String, F)> = Vec::new();
    let mut i: usize = 0;
    while i < params.len()
        invariant
            i <= params@.len(),
            forall|value: F, default: F| call_requires(*changed, (value, default)),
            forall|f: spec_fn(F, F) -> bool| #[trigger]
                decides(*changed, f) ==> out@ == changed_params(params@, f, i as int),
        decreases params@.len() - i,
    {
        let p = &params[i];
        let keep: bool = changed(p.value, p.default);
        assert forall|f: spec_fn(F, F) -> bool| #[trigger] decides(*changed, f) implies keep == f(
            p.value,
            p.default,
        ) by {};
        if keep {
            out.push((p.name.clone(), p.value));
        }
        i = i + 1;
    }
    out
}

fn save_modulators<F: Copy>(mods: &Vec<ModulatorSlot<F>>) -> (out: Vec<SaveModulator<F>>)
    ensures
        saves_modulators(views(mods@), out@),
{
    let mut out: Vec<SaveModulator<F>> = Vec::new();
    let mut i: usize = 0;
    while i < mods.len()
        invariant
            i <= mods@.len(),
            out@.len() == i,
            forall|k: int| 0 <= k < i ==> saves_modulator(mods@[k]@, #[trigger] out@[k]),
        decreases mods@.len() - i,
    {
        let m = &mods[i];
        let source = match m.source {
            ModSourceSlot::Lfo { waveform, rate } => SaveModSource::Lfo { waveform: waveform.name().to_owned(), rate },
            ModSourceSlot::Envelope { attack, decay, sustain, release } => SaveModSource::Envelope {
                attack,
                decay,
                sustain,
                release,
            },
        };
        let mut targets: Vec<SaveModTarget<F>> = Vec::new();
        let mut j: usize = 0;
        while j < m.targets.len()
            invariant
                j <= m.targets@.len(),
                targets@.len() == j,
                forall|k: int| 0 <= k < j ==> saves_target(m.targets@[k], #[trigger] targets@[k]),
            decreases m.targets@.len() - j,
        {
            let t = &m.targets[j];
            targets.push(SaveModTarget { kind: t.kind, label: t.param_name.clone(), depth: t.depth });
            j = j + 1;
        }
        out.push(SaveModulator { source, targets });
        i = i + 1;
    }
    out
}

fn save_pattern<F: Copy>(p: &PatternState<F>) -> (out: SavePattern<F>)
    ensures
        saves_pattern(p@, out),
{
    let mut events: Vec<(u64, u8, u8, u8)> = Vec::new();
    let mut i: usize = 0;
    while i < p.events.len()
        invariant
            i <= p.events@.len(),
            events@ == p.events@.take(i as int),
        decreases p.events@.len() - i,
    {
        events.push(p.events[i]);
        assert(p.events@.take(i + 1) =~= p.events@.take(i as int).push(p.events@[i as int]));
        i = i + 1;
    }
    assert(p.events@.take(i as int) =~= p.events@);
    SavePattern {
        bpm: p.bpm,
        length_beats: p.length_beats,
        looping: p.looping,
        base_note: p.base_note,
        events,
        enabled: p.enabled,
    }
}

fn save_split<F: Copy, C: Fn(F, F) -> bool>(s: &SplitNode<F>, changed: &C, unity: F) -> (out: SaveSplit<F>)
    requires
        forall|value: F, default: F| call_requires(*changed, (value, default)),
    ensures
        forall|f: spec_fn(F, F) -> bool| #[trigger] decides(*changed, f) ==> saves_split(s@, out, f, unity),
{
    let instrument = match &s.instrument {
        Some(p) => Some(
            SaveInstrument {
                plugin: p.id.clone(),
                volume: unity,
                params: save_params(&p.params, changed),
                modulators: save_modulators(&p.modulators),
            },
        ),
        None => None,
    };
    let mut effects: Vec<SaveEffect<F>> = Vec::new();
    let mut i: usize = 0;
    while i < s.effects.len()
        invariant
            i <= s.effects@.len(),
            effects@.len() == i,
            forall|value: F, default: F| call_requires(*changed, (value, default)),
            forall|f: spec_fn(F, F) -> bool| #[trigger]
                decides(*changed, f) ==> forall|k: int|
                    0 <= k < i ==> saves_effect(s.effects@[k]@, #[trigger] effects@[k], f, unity),
        decreases s.effects@.len() - i,
    {
        let p = &s.effects[i];
        effects.push(
            SaveEffect {
                plugin: p.id.clone(),
                mix: unity,
                params: save_params(&p.params, changed),
                modulators: save_modulators(&p.modulators),
            },
        );
        i = i + 1;
    }
    let pattern = match &s.pattern {
        Some(p) => Some(save_pattern(p)),
        None => None,
    };
    SaveSplit { range: s.range, transpose: s.transpose, instrument, effects, pattern }
}

fn save_keyboard<F: Copy, C: Fn(F, F) -> bool>(keyboard: &KeyboardNode<F>, changed: &C, unity: F) -> (out: SaveKeyboard<
    F,
>)
    requires
        forall|value: F, default: F| call_requires(*changed, (value, default)),
    ensures
        forall|f: spec_fn(F, F) -> bool| #[trigger] decides(*changed, f) ==> saves_keyboard(keyboard@, out, f, unity),
{
    let mut splits: Vec<SaveSplit<F>> = Vec::new();
    let mut i: usize = 0;
    while i < keyboard.splits.len()
        invariant
            i <= keyboard.splits@.len(),
            splits@.len() == i,
            forall|value: F, default: F| call_requires(*changed, (value, default)),
            forall|f: spec_fn(F, F) -> bool| #[trigger]
                decides(*changed, f) ==> forall|k: int|
                    0 <= k < i ==> saves_split(keyboard.splits@[k]@, #[trigger] splits@[k], f, unity),
        decreases keyboard.splits@.len() - i,
    {
        splits.push(save_split(&keyboard.splits[i], changed, unity));
        i = i + 1;
    }
    SaveKeyboard { name: keyboard.name.clone(), splits }
}

impl<F: Copy> Editor<F> {
    /// The session as it is, to be saved: of the parameters, those whose value `changed` says
    /// differs from its default.
    pub fn save_keyboards<C: Fn(F, F) -> bool>(&self, changed: C) -> (out: Vec<SaveKeyboard<F>>)
        requires
            forall|value: F, default: F| call_requires(changed, (value, default)),
        ensures
            forall|f: spec_fn(F, F) -> bool| #[trigger]
                decides(changed, f) ==> saves_keyboards(self@.keyboards, out@, f, self@.numbers.unity),
    {
        let mut out: Vec<SaveKeyboard<F>> = Vec::new();
        let unity = self.numbers.unity;
        let mut i: usize = 0;
        while i < self.keyboards.len()
            invariant
                i <= self.keyboards@.len(),
                out@.len() == i,
                unity == self.numbers.unity,
                forall|value: F, default: F| call_requires(changed, (value, default)),
                forall|f: spec_fn(F, F) -> bool| #[trigger]
                    decides(changed, f) ==> forall|k: int|
                        0 <= k < i ==> saves_keyboard(self.keyboards@[k]@, #[trigger] out@[k], f, unity),
            decreases self.keyboards@.len() - i,
        {
            out.push(save_keyboard(&self.keyboards[i], &changed, unity));
            i = i + 1;
        }
        out
    }

    /// The session was saved.
    pub fn saved(&mut self)
        ensures
            final(self)@ == (EditorView { dirty: false, ..old(self)@ }),
    {
        self.dirty = false;
    }
}

} // verus!
