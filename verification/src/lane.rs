//! One split of a keyboard: an instrument, its chain of effects, the modulators on each, and the
//! way of a MIDI event through all of it.
//!
//! Plugins are of a type `P` that this module only moves around.
use vstd::prelude::*;

use crate::midi::{classify, is_note, message_kind, MessageKind, MidiEvent};
use crate::model::{insert_position, moved, nth_mut, views};
use crate::modulation::{
    cross_base_updated, fixup_cross_mod_after_remove, modulators_after_remove, param_base_updated,
    update_cross_mod_base, update_param_base, CrossModField, LfoWaveform, ModSource, ModTarget, Modulator,
    ModulatorView,
};
use crate::pattern::{notification_view, PatternNotification, PatternPlayer, PlayerDefaults, PlayerView};
use crate::remap::{remapped_events, NoteRemapper, RemapEntry};

verus! {

/// A loaded instrument and the sample rate it runs at.
#[derive(Debug)]
pub struct Instrument<P, F> {
    pub plugin: P,
    pub sample_rate: F,
}

/// Scalars with which lanes and their players start out.
#[derive(Clone, Copy, Debug)]
pub struct LaneDefaults<F> {
    pub zero: F,
    /// Full volume.
    pub unity: F,
    /// The sample rate where no instrument says otherwise.
    pub sample_rate: F,
    pub length_beats: F,
    pub bpm: F,
}

/// One instrument and effect chain within a keyboard.
#[derive(Debug)]
pub struct SplitLane<P, F> {
    /// Lowest and highest note that this split answers to; everything where there is none.
    pub range: Option<(u8, u8)>,
    pub instrument: Option<Instrument<P, F>>,
    pub volume: F,
    pub inst_buf: Vec<Vec<F>>,
    pub effects: Vec<P>,
    /// Dry/wet mix of each effect.
    pub mix_values: Vec<F>,
    pub buf_a: Vec<Vec<F>>,
    pub buf_b: Vec<Vec<F>>,
    pub remapper: Option<NoteRemapper>,
    /// Modulators of the instrument.
    pub inst_modulators: Vec<Modulator<F>>,
    /// Modulators of each effect.
    pub effect_modulators: Vec<Vec<Modulator<F>>>,
    pub pattern: PatternPlayer<F>,
    /// Semitones by which notes are moved.
    pub transpose: i8,
    pub filtered_midi: Vec<MidiEvent>,
    pub remapped_events: Vec<MidiEvent>,
    /// The events that the plugins get.
    pub effective_events: Vec<MidiEvent>,
}

/// The mathematical content of a [`SplitLane`], scratch buffers aside.
#[verifier::ext_equal]
pub struct LaneView<P, F> {
    pub range: Option<(u8, u8)>,
    pub instrument: Option<Instrument<P, F>>,
    pub volume: F,
    pub inst_buf: Seq<Seq<F>>,
    pub effects: Seq<P>,
    pub mix_values: Seq<F>,
    pub buf_a: Seq<Seq<F>>,
    pub buf_b: Seq<Seq<F>>,
    pub remapper: Option<Map<u8, RemapEntry>>,
    pub inst_modulators: Seq<ModulatorView<F>>,
    pub effect_modulators: Seq<Seq<ModulatorView<F>>>,
    pub pattern: PlayerView<F>,
    pub transpose: i8,
    pub effective_events: Seq<MidiEvent>,
}

/// The contents of a list of modulator lists.
pub open spec fn rack_view<F>(rack: Seq<Vec<Modulator<F>>>) -> Seq<Seq<ModulatorView<F>>> {
    Seq::new(rack.len(), |i: int| views(rack[i]@))
}

/// The contents of an optional remapper.
pub open spec fn remapper_view(remapper: Option<NoteRemapper>) -> Option<Map<u8, RemapEntry>> {
    match remapper {
        Some(r) => Some(r@),
        None => None,
    }
}

impl<P, F> View for SplitLane<P, F> {
    type V = LaneView<P, F>;

    open spec fn view(&self) -> LaneView<P, F> {
        LaneView {
            range: self.range,
            instrument: self.instrument,
            volume: self.volume,
            inst_buf: views(self.inst_buf@),
            effects: self.effects@,
            mix_values: self.mix_values@,
            buf_a: views(self.buf_a@),
            buf_b: views(self.buf_b@),
            remapper: remapper_view(self.remapper),
            inst_modulators: views(self.inst_modulators@),
            effect_modulators: rack_view(self.effect_modulators@),
            pattern: self.pattern@,
            transpose: self.transpose,
            effective_events: self.effective_events@,
        }
    }
}

/// `count` empty audio buffers.
pub open spec fn empty_buffers<F>(count: int) -> Seq<Seq<F>> {
    Seq::new(count as nat, |i: int| Seq::<F>::empty())
}

impl<P, F> LaneView<P, F> {
    /// Every effect has a mix value and a list of modulators.
    pub open spec fn wf(self) -> bool {
        &&& self.mix_values.len() == self.effects.len()
        &&& self.effect_modulators.len() == self.effects.len()
    }

    /// An empty lane for `num_channels` channels.
    pub open spec fn initial(num_channels: int, d: LaneDefaults<F>) -> LaneView<P, F> {
        LaneView {
            range: None,
            instrument: None,
            volume: d.unity,
            inst_buf: Seq::empty(),
            effects: Seq::empty(),
            mix_values: Seq::empty(),
            buf_a: empty_buffers(num_channels),
            buf_b: empty_buffers(num_channels),
            remapper: None,
            inst_modulators: Seq::empty(),
            effect_modulators: Seq::empty(),
            pattern: PlayerView::initial(
                PlayerDefaults { sample_rate: d.sample_rate, length_beats: d.length_beats, bpm: d.bpm, zero: d.zero },
            ),
            transpose: 0,
            effective_events: Seq::empty(),
        }
    }

    /// The plugins of the lane: the instrument, then the effects.
    pub open spec fn plugins(self) -> Seq<P> {
        match self.instrument {
            Some(i) => seq![i.plugin] + self.effects,
            None => self.effects,
        }
    }

    /// Whether slot 0, the instrument, or slot `slot`, an effect, holds a plugin.
    pub open spec fn has_plugin(self, slot: usize) -> bool {
        if slot == 0 {
            self.instrument is Some
        } else {
            slot <= self.effects.len()
        }
    }

    /// The modulators of a slot.
    pub open spec fn modulators(self, slot: usize) -> Option<Seq<ModulatorView<F>>> {
        if slot == 0 {
            Some(self.inst_modulators)
        } else if slot <= self.effect_modulators.len() {
            Some(self.effect_modulators[slot - 1])
        } else {
            None
        }
    }

    /// The lane with the modulators of a slot replaced.
    pub open spec fn with_modulators(self, slot: usize, mods: Seq<ModulatorView<F>>) -> LaneView<P, F> {
        if slot == 0 {
            LaneView { inst_modulators: mods, ..self }
        } else {
            LaneView { effect_modulators: self.effect_modulators.update(slot - 1, mods), ..self }
        }
    }

    pub open spec fn instrument_swapped(
        self,
        instrument: Instrument<P, F>,
        inst_buf: Seq<Seq<F>>,
        remapper: Option<Map<u8, RemapEntry>>,
    ) -> LaneView<P, F> {
        LaneView { instrument: Some(instrument), inst_buf, remapper, ..self }
    }

    pub open spec fn effect_inserted(self, index: usize, effect: P, mix: F) -> LaneView<P, F> {
        let at = insert_position(index as int, self.effects.len() as int);
        LaneView {
            effects: self.effects.insert(at, effect),
            mix_values: self.mix_values.insert(at, mix),
            effect_modulators: self.effect_modulators.insert(at, Seq::empty()),
            ..self
        }
    }

    pub open spec fn effect_removed(self, index: usize) -> LaneView<P, F> {
        if index < self.effects.len() {
            LaneView {
                effects: self.effects.remove(index as int),
                mix_values: self.mix_values.remove(index as int),
                effect_modulators: self.effect_modulators.remove(index as int),
                ..self
            }
        } else {
            self
        }
    }

    pub open spec fn effect_moved(self, from: usize, to: usize) -> LaneView<P, F> {
        if from < self.effects.len() && to < self.effects.len() && from != to {
            LaneView {
                effects: moved(self.effects, from as int, to as int),
                mix_values: moved(self.mix_values, from as int, to as int),
                effect_modulators: moved(self.effect_modulators, from as int, to as int),
                ..self
            }
        } else {
            self
        }
    }

    pub open spec fn instrument_removed(self) -> LaneView<P, F> {
        LaneView {
            instrument: None,
            inst_buf: Seq::empty(),
            remapper: None,
            inst_modulators: Seq::empty(),
            ..self
        }
    }

    pub open spec fn mix_set(self, slot: usize, value: F) -> LaneView<P, F> {
        if 0 < slot <= self.mix_values.len() {
            LaneView { mix_values: self.mix_values.update(slot - 1, value), ..self }
        } else {
            self
        }
    }

    pub open spec fn parameter_set(self, slot: usize, param_index: u32, value: F) -> LaneView<P, F> {
        match self.modulators(slot) {
            Some(mods) => self.with_modulators(slot, param_base_updated(mods, param_index, value)),
            None => self,
        }
    }

    /// The sample rate of the instrument, or the default where there is none.
    pub open spec fn sample_rate(self, default_rate: F) -> F {
        match self.instrument {
            Some(i) => i.sample_rate,
            None => default_rate,
        }
    }

    pub open spec fn modulator_inserted(
        self,
        slot: usize,
        index: usize,
        source: ModSource<F>,
        d: LaneDefaults<F>,
    ) -> LaneView<P, F> {
        match self.modulators(slot) {
            Some(mods) => self.with_modulators(
                slot,
                mods.insert(
                    insert_position(index as int, mods.len() as int),
                    ModulatorView {
                        source,
                        sample_rate: self.sample_rate(d.sample_rate),
                        targets: Seq::empty(),
                        last_output: d.zero,
                    },
                ),
            ),
            None => self,
        }
    }

    pub open spec fn modulator_removed(self, slot: usize, index: usize) -> LaneView<P, F> {
        match self.modulators(slot) {
            Some(mods) => if index < mods.len() {
                self.with_modulators(slot, modulators_after_remove(mods, index))
            } else {
                self
            },
            None => self,
        }
    }

    /// The lane with one modulator replaced.
    pub open spec fn with_modulator(self, slot: usize, index: usize, m: ModulatorView<F>) -> LaneView<P, F> {
        self.with_modulators(slot, self.modulators(slot)->0.update(index as int, m))
    }

    /// Whether a slot has a modulator at `index`.
    pub open spec fn has_modulator(self, slot: usize, index: usize) -> bool {
        self.modulators(slot) is Some && index < self.modulators(slot)->0.len()
    }

    pub open spec fn modulator(self, slot: usize, index: usize) -> ModulatorView<F> {
        self.modulators(slot)->0[index as int]
    }
}

/// The modulators after `field` of modulator `index` was set to `value` by the user: the field
/// itself, and the base value of everything that drives it.
pub open spec fn field_set<F>(
    mods: Seq<ModulatorView<F>>,
    index: usize,
    field: CrossModField,
    value: F,
) -> Seq<ModulatorView<F>> {
    let m = if index < mods.len() {
        mods.update(index as int, mods[index as int].with_field(field, value))
    } else {
        mods
    };
    cross_base_updated(m, index, field, value)
}

/// The modulators after the rate of modulator `index` was set by the user.
pub open spec fn rate_set<F>(mods: Seq<ModulatorView<F>>, index: usize, rate: F) -> Seq<ModulatorView<F>> {
    field_set(mods, index, CrossModField::Rate, rate)
}

/// The modulators after the envelope of modulator `index` was set by the user.
pub open spec fn envelope_set<F>(
    mods: Seq<ModulatorView<F>>,
    index: usize,
    attack: F,
    decay: F,
    sustain: F,
    release: F,
) -> Seq<ModulatorView<F>> {
    field_set(
        field_set(
            field_set(
                field_set(mods, index, CrossModField::Attack, attack),
                index,
                CrossModField::Decay,
                decay,
            ),
            index,
            CrossModField::Sustain,
            sustain,
        ),
        index,
        CrossModField::Release,
        release,
    )
}

impl<F> ModulatorView<F> {
    /// The modulator with another waveform, where it is an LFO.
    pub open spec fn with_waveform(self, w: LfoWaveform) -> ModulatorView<F> {
        match self.source {
            ModSource::Lfo { waveform, rate, phase } => ModulatorView {
                source: ModSource::Lfo { waveform: w, rate, phase },
                ..self
            },
            _ => self,
        }
    }

    /// The modulator with one target fewer, where there is such a target.
    pub open spec fn without_target(self, index: usize) -> ModulatorView<F> {
        if index < self.targets.len() {
            ModulatorView { targets: self.targets.remove(index as int), ..self }
        } else {
            self
        }
    }
}

// ---------------------------------------------------------------------------
// Commands
// ---------------------------------------------------------------------------

/// `count` empty audio buffers.
pub fn new_buffers<F>(count: usize) -> (buffers: Vec<Vec<F>>)
    ensures
        views(buffers@) == empty_buffers::<F>(count as int),
{
    let mut buffers: Vec<Vec<F>> = Vec::new();
    let mut i: usize = 0;
    while i < count
        invariant
            i <= count,
            buffers@.len() == i,
            forall|k: int| 0 <= k < i ==> (#[trigger] buffers@[k])@ == Seq::<F>::empty(),
        decreases count - i,
    {
        buffers.push(Vec::new());
        i = i + 1;
    }
    assert(views(buffers@) =~= empty_buffers::<F>(count as int));
    buffers
}

impl<P, F: Copy> SplitLane<P, F> {
    /// An empty lane for `num_channels` channels.
    pub fn new(num_channels: usize, defaults: LaneDefaults<F>) -> (lane: Self)
        ensures
            lane@ == LaneView::<P, F>::initial(num_channels as int, defaults),
            lane@.wf(),
    {
        let lane = SplitLane {
            range: None,
            instrument: None,
            volume: defaults.unity,
            inst_buf: Vec::new(),
            effects: Vec::new(),
            mix_values: Vec::new(),
            buf_a: new_buffers(num_channels),
            buf_b: new_buffers(num_channels),
            remapper: None,
            inst_modulators: Vec::new(),
            effect_modulators: Vec::new(),
            pattern: PatternPlayer::new(
                PlayerDefaults {
                    sample_rate: defaults.sample_rate,
                    length_beats: defaults.length_beats,
                    bpm: defaults.bpm,
                    zero: defaults.zero,
                },
            ),
            transpose: 0,
            filtered_midi: Vec::new(),
            remapped_events: Vec::new(),
            effective_events: Vec::new(),
        };
        assert(lane@ =~= LaneView::<P, F>::initial(num_channels as int, defaults));
        lane
    }

    /// The modulators of a slot: 0 is the instrument, the effects count from 1.
    pub fn modulators_for(&mut self, parent_slot: usize) -> (mods: Option<&mut Vec<Modulator<F>>>)
        ensures
            match mods {
                Some(m) => old(self)@.modulators(parent_slot) == Some(views(m@)) && final(self)@ == old(
                    self,
                )@.with_modulators(parent_slot, views(final(m)@)),
                None => old(self)@.modulators(parent_slot) is None && *final(self) == *old(self),
            },
    {
        if parent_slot == 0 {
            Some(&mut self.inst_modulators)
        } else if parent_slot <= self.effect_modulators.len() {
            Some(&mut self.effect_modulators[parent_slot - 1])
        } else {
            None
        }
    }

    /// The sample rate of the instrument, or the default where there is none.
    pub fn sample_rate(&self, default_rate: F) -> (rate: F)
        ensures
            rate == self@.sample_rate(default_rate),
    {
        match &self.instrument {
            Some(i) => i.sample_rate,
            None => default_rate,
        }
    }

    /// Whether a slot holds a plugin.
    pub fn holds_plugin(&self, slot: usize) -> (r: bool)
        ensures
            r == self@.has_plugin(slot),
    {
        if slot == 0 {
            self.instrument.is_some()
        } else {
            slot <= self.effects.len()
        }
    }

    /// Puts in another instrument and hands out the one it replaces.
    pub fn swap_instrument(
        &mut self,
        instrument: Instrument<P, F>,
        inst_buf: Vec<Vec<F>>,
        remapper: Option<NoteRemapper>,
    ) -> (replaced: Option<P>)
        ensures
            final(self)@ == old(self)@.instrument_swapped(instrument, views(inst_buf@), remapper_view(remapper)),
            replaced == (match old(self).instrument {
                Some(i) => Some(i.plugin),
                None => None,
            }),
    {
        self.inst_buf = inst_buf;
        self.remapper = remapper;
        let replaced = self.instrument.take();
        self.instrument = Some(instrument);
        match replaced {
            Some(i) => Some(i.plugin),
            None => None,
        }
    }

    /// Puts an effect into the chain, at the end where `index` lies beyond it.
    pub fn insert_effect(&mut self, index: usize, effect: P, mix: F)
        requires
            old(self)@.wf(),
        ensures
            final(self)@ == old(self)@.effect_inserted(index, effect, mix),
            final(self)@.wf(),
    {
        let at: usize = if index < self.effects.len() {
            index
        } else {
            self.effects.len()
        };
        self.effects.insert(at, effect);
        self.mix_values.insert(at, mix);
        self.effect_modulators.insert(at, Vec::new());
        assert(self@ =~= old(self)@.effect_inserted(index, effect, mix)) by {
            assert(views(Seq::<Modulator<F>>::empty()) =~= Seq::<ModulatorView<F>>::empty());
            assert(self@.effect_modulators =~= old(self)@.effect_modulators.insert(at as int, Seq::empty()));
        }
    }

    /// Takes an effect, with its modulators, out of the chain.
    pub fn remove_effect(&mut self, index: usize) -> (removed: Option<P>)
        requires
            old(self)@.wf(),
        ensures
            final(self)@ == old(self)@.effect_removed(index),
            final(self)@.wf(),
            removed == (if index < old(self).effects@.len() {
                Some(old(self).effects@[index as int])
            } else {
                None
            }),
    {
        if index < self.effects.len() {
            let removed = self.effects.remove(index);
            self.mix_values.remove(index);
            self.effect_modulators.remove(index);
            assert(self@.effect_modulators =~= old(self)@.effect_modulators.remove(index as int));
            Some(removed)
        } else {
            None
        }
    }

    /// Moves an effect, with its mix and modulators, to another place in the chain.
    pub fn reorder_effect(&mut self, from: usize, to: usize)
        requires
            old(self)@.wf(),
        ensures
            final(self)@ == old(self)@.effect_moved(from, to),
            final(self)@.wf(),
    {
        if from < self.effects.len() && to < self.effects.len() && from != to {
            let effect = self.effects.remove(from);
            let mix = self.mix_values.remove(from);
            self.effects.insert(to, effect);
            self.mix_values.insert(to, mix);
            let mods = self.effect_modulators.remove(from);
            self.effect_modulators.insert(to, mods);
            assert(self@.effect_modulators =~= moved(old(self)@.effect_modulators, from as int, to as int));
        }
    }

    /// Takes out the instrument with everything that belongs to it.
    pub fn remove_instrument(&mut self) -> (removed: Option<P>)
        ensures
            final(self)@ == old(self)@.instrument_removed(),
            removed == (match old(self).instrument {
                Some(i) => Some(i.plugin),
                None => None,
            }),
    {
        self.inst_buf.clear();
        self.remapper = None;
        self.inst_modulators.clear();
        let removed = self.instrument.take();
        assert(self@ =~= old(self)@.instrument_removed());
        match removed {
            Some(i) => Some(i.plugin),
            None => None,
        }
    }

    /// Sets the mix of the effect in a slot.
    pub fn set_mix(&mut self, slot: usize, value: F)
        ensures
            final(self)@ == old(self)@.mix_set(slot, value),
    {
        if slot > 0 && slot <= self.mix_values.len() {
            self.mix_values[slot - 1] = value;
        }
    }

    /// Notes that a parameter of the plugin in a slot was set: modulation starts from there.
    pub fn note_parameter(&mut self, slot: usize, param_index: u32, value: F)
        ensures
            final(self)@ == old(self)@.parameter_set(slot, param_index, value),
    {
        if let Some(mods) = self.modulators_for(slot) {
            update_param_base(mods, param_index, value);
        }
    }

    /// Adds a modulator to a slot, at the end where `index` lies beyond it.
    pub fn insert_modulator(&mut self, slot: usize, index: usize, source: ModSource<F>, defaults: LaneDefaults<F>)
        ensures
            final(self)@ == old(self)@.modulator_inserted(slot, index, source, defaults),
    {
        let rate = self.sample_rate(defaults.sample_rate);
        if let Some(mods) = self.modulators_for(slot) {
            let ghost before = views(mods@);
            let at: usize = if index < mods.len() {
                index
            } else {
                mods.len()
            };
            let m = Modulator::new(source, rate, defaults.zero);
            let ghost content = m@;
            mods.insert(at, m);
            assert(views(mods@) =~= before.insert(at as int, content));
        }
    }

    /// Takes a modulator out of a slot and repairs the wiring of the others.
    pub fn remove_modulator(&mut self, slot: usize, index: usize)
        ensures
            final(self)@ == old(self)@.modulator_removed(slot, index),
    {
        if let Some(mods) = self.modulators_for(slot) {
            if index < mods.len() {
                let ghost before = views(mods@);
                mods.remove(index);
                assert(views(mods@) =~= before.remove(index as int));
                fixup_cross_mod_after_remove(mods, index);
            } else {
                assert(views(mods@) == old(self)@.modulators(slot)->0);
            }
        }
        proof {
            lemma_same_modulators(old(self)@, slot);
        }
    }

    /// Sets the rate of an LFO, and the base value of everything that drives it.
    pub fn set_rate(&mut self, slot: usize, index: usize, rate: F)
        ensures
            final(self)@ == (match old(self)@.modulators(slot) {
                Some(mods) => old(self)@.with_modulators(slot, rate_set(mods, index, rate)),
                None => old(self)@,
            }),
    {
        if let Some(mods) = self.modulators_for(slot) {
            set_field(mods, index, CrossModField::Rate, rate);
        }
    }

    /// Sets the four parameters of an envelope, and the base value of everything that drives them.
    pub fn set_envelope(&mut self, slot: usize, index: usize, attack: F, decay: F, sustain: F, release: F)
        ensures
            final(self)@ == (match old(self)@.modulators(slot) {
                Some(mods) => old(self)@.with_modulators(
                    slot,
                    envelope_set(mods, index, attack, decay, sustain, release),
                ),
                None => old(self)@,
            }),
    {
        if let Some(mods) = self.modulators_for(slot) {
            set_field(mods, index, CrossModField::Attack, attack);
            set_field(mods, index, CrossModField::Decay, decay);
            set_field(mods, index, CrossModField::Sustain, sustain);
            set_field(mods, index, CrossModField::Release, release);
        }
    }

    /// A modulator of a slot.
    pub fn modulator_mut(&mut self, slot: usize, index: usize) -> (m: Option<&mut Modulator<F>>)
        ensures
            match m {
                Some(m) => old(self)@.has_modulator(slot, index) && m@ == old(self)@.modulator(slot, index)
                    && final(self)@ == old(self)@.with_modulator(slot, index, final(m)@),
                None => !old(self)@.has_modulator(slot, index) && final(self)@ == old(self)@,
            },
    {
        proof {
            lemma_same_modulators(self@, slot);
        }
        match self.modulators_for(slot) {
            Some(mods) => nth_mut(mods, index),
            None => None,
        }
    }

    /// Sets the waveform of an LFO.
    pub fn set_waveform(&mut self, slot: usize, index: usize, waveform: LfoWaveform)
        ensures
            final(self)@ == (if old(self)@.has_modulator(slot, index) {
                old(self)@.with_modulator(
                    slot,
                    index,
                    old(self)@.modulator(slot, index).with_waveform(waveform),
                )
            } else {
                old(self)@
            }),
    {
        if let Some(m) = self.modulator_mut(slot, index) {
            if let ModSource::Lfo { waveform: w, .. } = &mut m.source {
                *w = waveform;
            }
        }
    }

    /// Replaces the source of a modulator; it starts over from no output.
    pub fn set_source(&mut self, slot: usize, index: usize, source: ModSource<F>, zero: F)
        ensures
            final(self)@ == (if old(self)@.has_modulator(slot, index) {
                old(self)@.with_modulator(
                    slot,
                    index,
                    ModulatorView { source, last_output: zero, ..old(self)@.modulator(slot, index) },
                )
            } else {
                old(self)@
            }),
    {
        if let Some(m) = self.modulator_mut(slot, index) {
            m.source = source;
            m.last_output = zero;
        }
    }

    /// Adds a target to a modulator.
    pub fn add_target(&mut self, slot: usize, index: usize, target: ModTarget<F>)
        ensures
            final(self)@ == (if old(self)@.has_modulator(slot, index) {
                let m = old(self)@.modulator(slot, index);
                old(self)@.with_modulator(
                    slot,
                    index,
                    ModulatorView { targets: m.targets.push(target), ..m },
                )
            } else {
                old(self)@
            }),
    {
        if let Some(m) = self.modulator_mut(slot, index) {
            m.targets.push(target);
        }
    }

    /// Takes a target from a modulator.
    pub fn remove_target(&mut self, slot: usize, index: usize, target_index: usize)
        ensures
            final(self)@ == (if old(self)@.has_modulator(slot, index) {
                old(self)@.with_modulator(
                    slot,
                    index,
                    old(self)@.modulator(slot, index).without_target(target_index),
                )
            } else {
                old(self)@
            }),
    {
        if let Some(m) = self.modulator_mut(slot, index) {
            if target_index < m.targets.len() {
                m.targets.remove(target_index);
            }
        }
    }

    /// Sets the depth of a modulator's target.
    pub fn set_target_depth(&mut self, slot: usize, index: usize, target_index: usize, depth: F)
        ensures
            final(self)@ == (if old(self)@.has_modulator(slot, index) {
                old(self)@.with_modulator(
                    slot,
                    index,
                    old(self)@.modulator(slot, index).with_field(CrossModField::Depth(target_index), depth),
                )
            } else {
                old(self)@
            }),
    {
        if let Some(m) = self.modulator_mut(slot, index) {
            m.set_field(CrossModField::Depth(target_index), depth);
        }
    }
}

/// Writing back the modulators of a slot as they are changes nothing.
proof fn lemma_same_modulators<P, F>(lane: LaneView<P, F>, slot: usize)
    ensures
        lane.modulators(slot) matches Some(mods) ==> lane.with_modulators(slot, mods) == lane,
{
    if lane.modulators(slot) is Some && slot > 0 {
        assert(lane.effect_modulators.update(slot - 1, lane.effect_modulators[slot - 1])
            =~= lane.effect_modulators);
    }
}

/// Sets `field` of modulator `index`, and the base value of everything that drives it.
fn set_field<F: Copy>(mods: &mut Vec<Modulator<F>>, index: usize, field: CrossModField, value: F)
    ensures
        views(final(mods)@) == field_set(views(old(mods)@), index, field, value),
{
    let ghost before = views(mods@);
    if index < mods.len() {
        mods[index].set_field(field, value);
        assert(views(mods@) =~= before.update(index as int, before[index as int].with_field(field, value)));
    }
    update_cross_mod_base(mods, index, field, value);
}

// ---------------------------------------------------------------------------
// The way of a MIDI event
// ---------------------------------------------------------------------------

/// Whether a split with this range answers to an event. Only notes are filtered.
pub open spec fn passes(range: Option<(u8, u8)>, event: MidiEvent) -> bool {
    match range {
        Some((low, high)) => is_note(event.1) ==> low <= event.1[1] <= high,
        None => true,
    }
}

/// The events that a split with this range answers to, in order.
pub open spec fn filtered(range: Option<(u8, u8)>, events: Seq<MidiEvent>) -> Seq<MidiEvent>
    decreases events.len(),
{
    if events.len() == 0 {
        Seq::empty()
    } else {
        let rest = filtered(range, events.drop_last());
        if passes(range, events.last()) {
            rest.push(events.last())
        } else {
            rest
        }
    }
}

/// An event moved by `by` semitones, if it is a note; a note that leaves the MIDI range is gone.
pub open spec fn shifted_event(event: MidiEvent, by: int) -> Option<MidiEvent> {
    let (frame, bytes) = event;
    if !is_note(bytes) {
        Some(event)
    } else if 0 <= bytes[1] + by <= 127 {
        Some((frame, [bytes[0], (bytes[1] + by) as u8, bytes[2]]))
    } else {
        None
    }
}

/// Events moved by `by` semitones, in order. Nothing is touched where `by` is zero.
pub open spec fn shifted(events: Seq<MidiEvent>, by: int) -> Seq<MidiEvent>
    decreases events.len(),
{
    if by == 0 || events.len() == 0 {
        events
    } else {
        let rest = shifted(events.drop_last(), by);
        match shifted_event(events.last(), by) {
            Some(e) => rest.push(e),
            None => rest,
        }
    }
}

impl<P, F> LaneView<P, F> {
    /// The events that reach the pattern player.
    pub open spec fn incoming(self, midi: Seq<MidiEvent>) -> Seq<MidiEvent> {
        match self.remapper {
            Some(table) => remapped_events(table, filtered(self.range, midi)),
            None => filtered(self.range, midi),
        }
    }

    /// The lane after it took in the events of a buffer.
    pub open spec fn received(self, midi: Seq<MidiEvent>) -> LaneView<P, F> {
        LaneView { pattern: self.pattern.heard(self.incoming(midi)), ..self }
    }

    /// The lane after its player advanced by `frames` samples and the events for the plugins are
    /// ready.
    pub open spec fn delivered(self, frames: u64, length: u64) -> LaneView<P, F> {
        let pattern = self.pattern.advanced(frames, length);
        LaneView {
            pattern,
            effective_events: shifted(pattern.output_events, self.transpose as int),
            ..self
        }
    }
}

impl<P, F: Copy> SplitLane<P, F> {
    /// Filters events by the key range: notes outside it are dropped, all else passes.
    fn filter_midi(&mut self, midi_events: &[MidiEvent])
        ensures
            final(self)@ == old(self)@,
            final(self).filtered_midi@ == filtered(old(self).range, midi_events@),
            final(self).remapper == old(self).remapper,
    {
        self.filtered_midi.clear();
        let n: usize = midi_events.len();
        let mut i: usize = 0;
        while i < n
            invariant
                i <= n,
                n == midi_events@.len(),
                self@ == old(self)@,
                self.remapper == old(self).remapper,
                self.filtered_midi@ == filtered(self.range, midi_events@.take(i as int)),
            decreases n - i,
        {
            proof {
                assert(midi_events@.take(i + 1).drop_last() =~= midi_events@.take(i as int));
            }
            let event = midi_events[i];
            let pass = match self.range {
                Some((low, high)) => match classify(event.1) {
                    MessageKind::Other => true,
                    _ => event.1[1] >= low && event.1[1] <= high,
                },
                None => true,
            };
            if pass {
                self.filtered_midi.push(event);
            }
            i = i + 1;
        }
        proof {
            assert(midi_events@.take(n as int) =~= midi_events@);
        }
    }

    /// Sorts out the events of a buffer that concern this split, remapped where a remapper is set.
    fn sort_events(&mut self, midi_events: &[MidiEvent]) -> (events: Vec<MidiEvent>)
        ensures
            final(self)@ == old(self)@,
            events@ == old(self)@.incoming(midi_events@),
    {
        self.filter_midi(midi_events);
        let mut events: Vec<MidiEvent> = Vec::new();
        match &self.remapper {
            Some(remapper) => {
                remapper.remap_events(self.filtered_midi.as_slice(), &mut events);
            },
            None => {
                std::mem::swap(&mut events, &mut self.filtered_midi);
            },
        }
        events
    }

    /// Takes in the events of a buffer: by range, remapped, and through the pattern player. Says
    /// `false`, with nothing recorded, where the player would run off its sample clock.
    pub fn receive(&mut self, midi_events: &[MidiEvent]) -> (ok: bool)
        ensures
            ok == old(self)@.pattern.can_hear(old(self)@.incoming(midi_events@)),
            ok ==> final(self)@ == old(self)@.received(midi_events@),
            !ok ==> final(self)@ == old(self)@,
    {
        let events = self.sort_events(midi_events);
        if !self.pattern.check_hear(events.as_slice()) {
            return false;
        }
        self.pattern.hear(events.as_slice());
        true
    }

    /// Advances the player by `frames` samples and makes the events for the plugins: what the
    /// player gives, transposed.
    pub fn deliver(&mut self, frames: u64, length: u64) -> (note: Option<PatternNotification<F>>)
        requires
            old(self)@.pattern.can_advance(frames),
        ensures
            final(self)@ == old(self)@.delivered(frames, length),
            notification_view(note) == old(self)@.pattern.report(frames, length),
    {
        let note = self.pattern.advance(frames, length);
        let ghost output = self.pattern.output_events@;
        self.effective_events.clear();
        let n: usize = self.pattern.output_events.len();
        let mut i: usize = 0;
        while i < n
            invariant
                i <= n,
                n == self.pattern.output_events@.len(),
                output == self.pattern.output_events@,
                self@ == (LaneView {
                    pattern: old(self)@.pattern.advanced(frames, length),
                    effective_events: self.effective_events@,
                    ..old(self)@
                }),
                self.effective_events@ == shifted(output.take(i as int), self.transpose as int),
            decreases n - i,
        {
            let event = self.pattern.output_events[i];
            proof {
                assert(output.take(i + 1).drop_last() =~= output.take(i as int));
                assert(output.take(i + 1) =~= output.take(i as int).push(event));
            }
            if self.transpose == 0 {
                self.effective_events.push(event);
            } else {
                match classify(event.1) {
                    MessageKind::Other => {
                        self.effective_events.push(event);
                    },
                    _ => {
                        let note: i16 = event.1[1] as i16 + self.transpose as i16;
                        if 0 <= note && note <= 127 {
                            self.effective_events.push((event.0, [event.1[0], note as u8, event.1[2]]));
                        }
                    },
                }
            }
            i = i + 1;
        }
        proof {
            assert(output.take(n as int) =~= output);
        }
        note
    }

    /// Lets the envelopes hear the events of the buffer: those of the instrument where there is
    /// one, and those of each effect.
    pub fn gate_modulators(&mut self)
        requires
            old(self)@.wf(),
        ensures
            final(self)@ == (LaneView {
                inst_modulators: if old(self).instrument is Some {
                    gated_all(old(self)@.inst_modulators, old(self)@.effective_events)
                } else {
                    old(self)@.inst_modulators
                },
                effect_modulators: old(self)@.effect_modulators.map_values(
                    |mods: Seq<ModulatorView<F>>| gated_all(mods, old(self)@.effective_events),
                ),
                ..old(self)@
            }),
    {
        if self.instrument.is_some() {
            gate_all(&mut self.inst_modulators, self.effective_events.as_slice());
        }
        let n: usize = self.effect_modulators.len();
        let mut i: usize = 0;
        while i < n
            invariant
                i <= n,
                n == self.effect_modulators@.len(),
                n == old(self).effect_modulators@.len(),
                self.effective_events@ == old(self).effective_events@,
                self@ == (LaneView {
                    inst_modulators: if old(self).instrument is Some {
                        gated_all(old(self)@.inst_modulators, old(self)@.effective_events)
                    } else {
                        old(self)@.inst_modulators
                    },
                    effect_modulators: self@.effect_modulators,
                    ..old(self)@
                }),
                forall|k: int|
                    0 <= k < i ==> views((#[trigger] self.effect_modulators@[k])@) == gated_all(
                        views(old(self).effect_modulators@[k]@),
                        self.effective_events@,
                    ),
                forall|k: int|
                    i <= k < n ==> #[trigger] self.effect_modulators@[k] == old(self).effect_modulators@[k],
            decreases n - i,
        {
            gate_all(&mut self.effect_modulators[i], self.effective_events.as_slice());
            i = i + 1;
        }
        assert(self@.effect_modulators =~= old(self)@.effect_modulators.map_values(
            |mods: Seq<ModulatorView<F>>| gated_all(mods, old(self)@.effective_events),
        ));
    }
}

/// The modulators after their envelopes heard `events`.
pub open spec fn gated_all<F>(mods: Seq<ModulatorView<F>>, events: Seq<MidiEvent>) -> Seq<ModulatorView<F>> {
    mods.map_values(|m: ModulatorView<F>| m.gated(events))
}

fn gate_all<F: Copy>(mods: &mut Vec<Modulator<F>>, events: &[MidiEvent])
    ensures
        views(final(mods)@) == gated_all(views(old(mods)@), events@),
{
    let n: usize = mods.len();
    let mut i: usize = 0;
    while i < n
        invariant
            i <= n,
            n == mods@.len(),
            n == old(mods)@.len(),
            forall|k: int| 0 <= k < i ==> (#[trigger] mods@[k])@ == old(mods)@[k]@.gated(events@),
            forall|k: int| i <= k < n ==> #[trigger] mods@[k] == old(mods)@[k],
        decreases n - i,
    {
        mods[i].hear(events);
        i = i + 1;
    }
}

// ---------------------------------------------------------------------------
// The way of the audio
// ---------------------------------------------------------------------------

/// How the audio of a buffer is made.
#[derive(Clone, Copy, Debug, PartialEq, Eq, Structural)]
pub enum RenderPath {
    /// There is no instrument.
    Silence,
    /// The instrument plays straight into the output.
    Direct,
    /// The instrument plays into its own buffers, which are copied.
    Copy,
    /// The instrument's buffers go through the effects.
    Chain,
}

impl<P, F> LaneView<P, F> {
    /// How audio for `num_channels` channels is made; `unity` says that the volume is full.
    pub open spec fn render_path(self, num_channels: usize, unity: bool) -> RenderPath {
        if self.instrument is None {
            RenderPath::Silence
        } else if self.effects.len() > 0 {
            RenderPath::Chain
        } else if self.inst_buf.len() <= num_channels && unity {
            RenderPath::Direct
        } else {
            RenderPath::Copy
        }
    }
}

impl<P, F: Copy> SplitLane<P, F> {
    /// How audio for `num_channels` channels is made; `unity` says that the volume is full.
    pub fn render_path(&self, num_channels: usize, unity: bool) -> (path: RenderPath)
        ensures
            path == self@.render_path(num_channels, unity),
    {
        if self.instrument.is_none() {
            RenderPath::Silence
        } else if self.inst_buf.len() <= num_channels && self.effects.len() == 0 && unity {
            RenderPath::Direct
        } else if self.effects.len() == 0 {
            RenderPath::Copy
        } else {
            RenderPath::Chain
        }
    }

    /// Whether effect `index` of the chain reads the first of the two buffers and writes the
    /// second; the effects take turns. For the number of effects it says where the result is.
    pub fn reads_first_buffer(&self, index: usize) -> (r: bool)
        ensures
            r == (index % 2 == 0),
    {
        index % 2 == 0
    }
}

// ---------------------------------------------------------------------------
// Laws
// ---------------------------------------------------------------------------

/// A split without a range hears everything.
pub proof fn full_range_hears_everything(events: Seq<MidiEvent>)
    ensures
        filtered(None, events) == events,
    decreases events.len(),
{
    if events.len() > 0 {
        full_range_hears_everything(events.drop_last());
        assert(filtered(None, events) =~= events);
    }
}

/// Controllers, pitch bend and the like reach every split, whatever its range.
pub proof fn controllers_reach_every_split(range: Option<(u8, u8)>, event: MidiEvent)
    requires
        !is_note(event.1),
    ensures
        passes(range, event),
{
}

/// A note reaches a split exactly when it lies within the split's range, ends included.
pub proof fn notes_reach_their_splits(low: u8, high: u8, event: MidiEvent)
    requires
        is_note(event.1),
    ensures
        passes(Some((low, high)), event) <==> low <= event.1[1] <= high,
{
}

/// Whether every note among the events lies within the MIDI range.
pub open spec fn notes_in_midi_range(events: Seq<MidiEvent>) -> bool {
    forall|i: int| 0 <= i < events.len() && is_note((#[trigger] events[i]).1) ==> events[i].1[1] <= 127
}

/// Transposed notes lie within the MIDI range: those that would leave it are dropped.
pub proof fn shifted_notes_stay_in_range(events: Seq<MidiEvent>, by: int)
    requires
        by != 0,
    ensures
        notes_in_midi_range(shifted(events, by)),
    decreases events.len(),
{
    if events.len() > 0 {
        shifted_notes_stay_in_range(events.drop_last(), by);
    }
}

/// Transposing a note up and down again gives the note back, unless it left the MIDI range.
pub proof fn shift_there_and_back(event: MidiEvent, by: int)
    requires
        is_note(event.1) ==> event.1[1] <= 127 && 0 <= event.1[1] + by <= 127,
    ensures
        shifted_event(event, by) is Some,
        shifted_event(shifted_event(event, by)->0, -by) is Some,
        shifted_event(shifted_event(event, by)->0, -by)->0 == event,
{
    let there = shifted_event(event, by)->0;
    let back = shifted_event(there, -by);
    assert(there.1[0] == event.1[0] && there.1[2] == event.1[2]);
    assert(message_kind(there.1) == message_kind(event.1));
    assert((back->0).1 =~= event.1);
}

} // verus!
