//! The keyboards as the user interface sees them, and the places in them.
use vstd::prelude::*;

use crate::model::{nth_mut, views};
use crate::modulation::{
    cross_mod_index, adjust_cross_mod_index, kind_after_remove, EnvState, LfoWaveform, ModSource, ModTargetKind,
};

verus! {

/// A parameter of a loaded plugin, and the value it is set to.
#[derive(Debug)]
pub struct ParamSlot<F> {
    pub name: String,
    pub index: u32,
    pub min: F,
    pub max: F,
    pub default: F,
    pub value: F,
}

/// The source of a modulator.
#[derive(Clone, Copy, Debug)]
pub enum ModSourceSlot<F> {
    Lfo { waveform: LfoWaveform, rate: F },
    Envelope { attack: F, decay: F, sustain: F, release: F },
}

/// A target of a modulator.
#[derive(Debug)]
pub struct ModTargetSlot<F> {
    pub param_name: String,
    pub kind: ModTargetKind,
    pub depth: F,
    pub param_min: F,
    pub param_max: F,
}

/// A modulator.
#[derive(Debug)]
pub struct ModulatorSlot<F> {
    pub source: ModSourceSlot<F>,
    pub targets: Vec<ModTargetSlot<F>>,
}

/// A loaded plugin.
#[derive(Debug)]
pub struct PluginSlot<F> {
    pub name: String,
    pub format: String,
    pub id: String,
    pub is_instrument: bool,
    pub params: Vec<ParamSlot<F>>,
    pub modulators: Vec<ModulatorSlot<F>>,
}

/// The pattern of a split.
#[derive(Debug)]
pub struct PatternState<F> {
    pub bpm: F,
    pub length_beats: F,
    pub looping: bool,
    pub base_note: Option<u8>,
    /// Frame, status, note and velocity of each event.
    pub events: Vec<(u64, u8, u8, u8)>,
    pub enabled: bool,
    pub recording: bool,
}

/// A split of a keyboard.
#[derive(Debug)]
pub struct SplitNode<F> {
    pub range: Option<(u8, u8)>,
    pub transpose: i8,
    pub instrument: Option<PluginSlot<F>>,
    pub effects: Vec<PluginSlot<F>>,
    pub pattern: Option<PatternState<F>>,
}

/// A keyboard.
#[derive(Debug)]
pub struct KeyboardNode<F> {
    pub name: String,
    pub splits: Vec<SplitNode<F>>,
}

// ---------------------------------------------------------------------------
// Contents
// ---------------------------------------------------------------------------

/// The mathematical content of a [`ModulatorSlot`].
#[verifier::ext_equal]
pub struct ModSlotView<F> {
    pub source: ModSourceSlot<F>,
    pub targets: Seq<ModTargetSlot<F>>,
}

impl<F> View for ModulatorSlot<F> {
    type V = ModSlotView<F>;

    open spec fn view(&self) -> ModSlotView<F> {
        ModSlotView { source: self.source, targets: self.targets@ }
    }
}

/// The mathematical content of a [`PluginSlot`].
#[verifier::ext_equal]
pub struct PluginView<F> {
    pub name: Seq<char>,
    pub format: Seq<char>,
    pub id: Seq<char>,
    pub is_instrument: bool,
    pub params: Seq<ParamSlot<F>>,
    pub modulators: Seq<ModSlotView<F>>,
}

impl<F> View for PluginSlot<F> {
    type V = PluginView<F>;

    open spec fn view(&self) -> PluginView<F> {
        PluginView {
            name: self.name@,
            format: self.format@,
            id: self.id@,
            is_instrument: self.is_instrument,
            params: self.params@,
            modulators: views(self.modulators@),
        }
    }
}

/// The mathematical content of a [`PatternState`].
#[verifier::ext_equal]
pub struct PatternStateView<F> {
    pub bpm: F,
    pub length_beats: F,
    pub looping: bool,
    pub base_note: Option<u8>,
    pub events: Seq<(u64, u8, u8, u8)>,
    pub enabled: bool,
    pub recording: bool,
}

impl<F> View for PatternState<F> {
    type V = PatternStateView<F>;

    open spec fn view(&self) -> PatternStateView<F> {
        PatternStateView {
            bpm: self.bpm,
            length_beats: self.length_beats,
            looping: self.looping,
            base_note: self.base_note,
            events: self.events@,
            enabled: self.enabled,
            recording: self.recording,
        }
    }
}

/// The content of something that may be missing.
pub open spec fn opt_view<T: View>(item: Option<T>) -> Option<T::V> {
    match item {
        Some(x) => Some(x@),
        None => None,
    }
}

/// The mathematical content of a [`SplitNode`].
#[verifier::ext_equal]
pub struct SplitView<F> {
    pub range: Option<(u8, u8)>,
    pub transpose: i8,
    pub instrument: Option<PluginView<F>>,
    pub effects: Seq<PluginView<F>>,
    pub pattern: Option<PatternStateView<F>>,
}

impl<F> View for SplitNode<F> {
    type V = SplitView<F>;

    open spec fn view(&self) -> SplitView<F> {
        SplitView {
            range: self.range,
            transpose: self.transpose,
            instrument: opt_view(self.instrument),
            effects: views(self.effects@),
            pattern: opt_view(self.pattern),
        }
    }
}

/// The mathematical content of a [`KeyboardNode`].
#[verifier::ext_equal]
pub struct KeyboardView<F> {
    pub name: Seq<char>,
    pub splits: Seq<SplitView<F>>,
}

impl<F> View for KeyboardNode<F> {
    type V = KeyboardView<F>;

    open spec fn view(&self) -> KeyboardView<F> {
        KeyboardView { name: self.name@, splits: views(self.splits@) }
    }
}

// ---------------------------------------------------------------------------
// Places
// ---------------------------------------------------------------------------

/// A node of the keyboard tree. The parent slot of a modulator is 0 for the instrument, effects
/// count from 1.
#[derive(Clone, Copy, Debug, PartialEq, Eq, Structural)]
pub enum TreeAddress {
    Keyboard(usize),
    Split { kb: usize, split: usize },
    Instrument { kb: usize, split: usize },
    Effect { kb: usize, split: usize, index: usize },
    Pattern { kb: usize, split: usize },
    Modulator { kb: usize, split: usize, parent_slot: usize, index: usize },
}

impl TreeAddress {
    /// The keyboard and split of a node below a keyboard.
    pub open spec fn place(self) -> Option<(usize, usize)> {
        match self {
            TreeAddress::Keyboard(_) => None,
            TreeAddress::Split { kb, split } => Some((kb, split)),
            TreeAddress::Instrument { kb, split } => Some((kb, split)),
            TreeAddress::Effect { kb, split, .. } => Some((kb, split)),
            TreeAddress::Pattern { kb, split } => Some((kb, split)),
            TreeAddress::Modulator { kb, split, .. } => Some((kb, split)),
        }
    }

    /// The audio slot of a node: 0 for the instrument, effects count from 1.
    pub open spec fn audio_slot(self) -> int {
        match self {
            TreeAddress::Effect { index, .. } => index + 1,
            TreeAddress::Modulator { parent_slot, .. } => parent_slot as int,
            _ => 0,
        }
    }

    /// The keyboard and split of a node below a keyboard.
    pub fn kb_split(&self) -> (place: Option<(usize, usize)>)
        ensures
            place == self.place(),
    {
        match *self {
            TreeAddress::Keyboard(_) => None,
            TreeAddress::Split { kb, split } => Some((kb, split)),
            TreeAddress::Instrument { kb, split } => Some((kb, split)),
            TreeAddress::Effect { kb, split, .. } => Some((kb, split)),
            TreeAddress::Pattern { kb, split } => Some((kb, split)),
            TreeAddress::Modulator { kb, split, .. } => Some((kb, split)),
        }
    }

    /// The audio slot of a node: 0 for the instrument, effects count from 1.
    pub fn slot(&self) -> (slot: usize)
        requires
            self.audio_slot() <= usize::MAX,
        ensures
            slot == self.audio_slot(),
    {
        match *self {
            TreeAddress::Effect { index, .. } => index + 1,
            TreeAddress::Modulator { parent_slot, .. } => parent_slot,
            _ => 0,
        }
    }

    /// Whether the node is a plugin.
    pub open spec fn names_plugin(self) -> bool {
        self is Instrument || self is Effect
    }

    /// Whether the node is a plugin.
    pub fn is_plugin(&self) -> (r: bool)
        ensures
            r == self.names_plugin(),
    {
        match *self {
            TreeAddress::Instrument { .. } => true,
            TreeAddress::Effect { .. } => true,
            _ => false,
        }
    }
}

impl<F> SplitView<F> {
    /// The plugin in a slot.
    pub open spec fn plugin(self, slot: int) -> Option<PluginView<F>> {
        if slot == 0 {
            self.instrument
        } else if 0 < slot <= self.effects.len() {
            Some(self.effects[slot - 1])
        } else {
            None
        }
    }

    /// The split with the plugin in a slot replaced.
    pub open spec fn with_plugin(self, slot: int, plugin: PluginView<F>) -> SplitView<F> {
        if slot == 0 {
            SplitView { instrument: Some(plugin), ..self }
        } else {
            SplitView { effects: self.effects.update(slot - 1, plugin), ..self }
        }
    }
}

/// The split at a place.
pub open spec fn split_at<F>(kbs: Seq<KeyboardView<F>>, kb: usize, split: usize) -> Option<SplitView<F>> {
    if kb < kbs.len() && split < kbs[kb as int].splits.len() {
        Some(kbs[kb as int].splits[split as int])
    } else {
        None
    }
}

/// The keyboards with the splits of one replaced.
pub open spec fn with_splits<F>(kbs: Seq<KeyboardView<F>>, kb: usize, splits: Seq<SplitView<F>>) -> Seq<KeyboardView<F>> {
    kbs.update(kb as int, KeyboardView { splits, ..kbs[kb as int] })
}

/// The keyboards with one split replaced.
pub open spec fn with_split<F>(kbs: Seq<KeyboardView<F>>, kb: usize, split: usize, s: SplitView<F>) -> Seq<
    KeyboardView<F>,
> {
    with_splits(kbs, kb, kbs[kb as int].splits.update(split as int, s))
}

/// The plugin in a slot of a split.
pub open spec fn plugin_in<F>(kbs: Seq<KeyboardView<F>>, kb: usize, split: usize, slot: int) -> Option<PluginView<F>> {
    match split_at(kbs, kb, split) {
        Some(s) => s.plugin(slot),
        None => None,
    }
}

/// The keyboards with the plugin in a slot of a split replaced.
pub open spec fn with_plugin<F>(
    kbs: Seq<KeyboardView<F>>,
    kb: usize,
    split: usize,
    slot: int,
    plugin: PluginView<F>,
) -> Seq<KeyboardView<F>> {
    with_split(kbs, kb, split, split_at(kbs, kb, split)->0.with_plugin(slot, plugin))
}

/// The plugin at a node; only instruments and effects are plugins.
pub open spec fn plugin_at<F>(kbs: Seq<KeyboardView<F>>, addr: TreeAddress) -> Option<PluginView<F>> {
    match addr {
        TreeAddress::Instrument { kb, split } => plugin_in(kbs, kb, split, 0),
        TreeAddress::Effect { kb, split, index } => plugin_in(kbs, kb, split, index + 1),
        _ => None,
    }
}

/// The modulator at `index` of the plugin in a slot.
pub open spec fn modulator_in<F>(
    kbs: Seq<KeyboardView<F>>,
    kb: usize,
    split: usize,
    slot: int,
    index: usize,
) -> Option<ModSlotView<F>> {
    match plugin_in(kbs, kb, split, slot) {
        Some(p) => if index < p.modulators.len() {
            Some(p.modulators[index as int])
        } else {
            None
        },
        None => None,
    }
}

/// The keyboards with one modulator replaced.
pub open spec fn with_modulator<F>(
    kbs: Seq<KeyboardView<F>>,
    kb: usize,
    split: usize,
    slot: int,
    index: usize,
    m: ModSlotView<F>,
) -> Seq<KeyboardView<F>> {
    let p = plugin_in(kbs, kb, split, slot)->0;
    with_plugin(
        kbs,
        kb,
        split,
        slot,
        PluginView { modulators: p.modulators.update(index as int, m), ..p },
    )
}

/// Writing back a split as it is changes nothing.
pub proof fn lemma_same_split<F>(kbs: Seq<KeyboardView<F>>, kb: usize, split: usize)
    ensures
        split_at(kbs, kb, split) matches Some(s) ==> with_split(kbs, kb, split, s) == kbs,
{
    if split_at(kbs, kb, split) is Some {
        let k = kbs[kb as int];
        assert(k.splits.update(split as int, k.splits[split as int]) =~= k.splits);
        assert(kbs.update(kb as int, k) =~= kbs);
    }
}

/// The split at a place, to be changed.
pub fn split_mut<F>(keyboards: &mut Vec<KeyboardNode<F>>, kb: usize, split: usize) -> (s: Option<&mut SplitNode<F>>)
    ensures
        match s {
            Some(s) => split_at(views(old(keyboards)@), kb, split) == Some(s@) && views(final(keyboards)@)
                == with_split(views(old(keyboards)@), kb, split, final(s)@),
            None => split_at(views(old(keyboards)@), kb, split) is None && views(final(keyboards)@) == views(
                old(keyboards)@,
            ),
        },
{
    proof {
        let v = views(keyboards@);
        if kb < v.len() {
            assert(v.update(kb as int, v[kb as int]) =~= v);
        }
    }
    match nth_mut(keyboards, kb) {
        Some(k) => nth_mut(&mut k.splits, split),
        None => None,
    }
}

/// The plugin in a slot of a split, to be changed.
pub fn plugin_slot_mut<F>(s: &mut SplitNode<F>, slot: usize) -> (p: Option<&mut PluginSlot<F>>)
    ensures
        match p {
            Some(p) => old(s)@.plugin(slot as int) == Some(p@) && final(s)@ == old(s)@.with_plugin(
                slot as int,
                final(p)@,
            ),
            None => old(s)@.plugin(slot as int) is None && final(s)@ == old(s)@,
        },
{
    if slot == 0 {
        s.instrument.as_mut()
    } else {
        nth_mut(&mut s.effects, slot - 1)
    }
}

/// The plugin in a slot at a place, to be changed.
pub fn plugin_mut<F>(keyboards: &mut Vec<KeyboardNode<F>>, kb: usize, split: usize, slot: usize) -> (p: Option<
    &mut PluginSlot<F>,
>)
    ensures
        match p {
            Some(p) => plugin_in(views(old(keyboards)@), kb, split, slot as int) == Some(p@) && views(
                final(keyboards)@,
            ) == with_plugin(views(old(keyboards)@), kb, split, slot as int, final(p)@),
            None => plugin_in(views(old(keyboards)@), kb, split, slot as int) is None && views(final(keyboards)@)
                == views(old(keyboards)@),
        },
{
    proof {
        lemma_same_split(views(keyboards@), kb, split);
    }
    match split_mut(keyboards, kb, split) {
        Some(s) => plugin_slot_mut(s, slot),
        None => None,
    }
}

/// The modulator at `index` of the plugin in a slot, to be changed.
pub fn modulator_mut<F>(
    keyboards: &mut Vec<KeyboardNode<F>>,
    kb: usize,
    split: usize,
    slot: usize,
    index: usize,
) -> (m: Option<&mut ModulatorSlot<F>>)
    ensures
        match m {
            Some(m) => modulator_in(views(old(keyboards)@), kb, split, slot as int, index) == Some(m@) && views(
                final(keyboards)@,
            ) == with_modulator(views(old(keyboards)@), kb, split, slot as int, index, final(m)@),
            None => modulator_in(views(old(keyboards)@), kb, split, slot as int, index) is None && views(
                final(keyboards)@,
            ) == views(old(keyboards)@),
        },
{
    proof {
        lemma_same_plugin(views(keyboards@), kb, split, slot as int);
    }
    match plugin_mut(keyboards, kb, split, slot) {
        Some(p) => nth_mut(&mut p.modulators, index),
        None => None,
    }
}

/// Writing back a plugin as it is changes nothing.
pub proof fn lemma_same_plugin<F>(kbs: Seq<KeyboardView<F>>, kb: usize, split: usize, slot: int)
    requires
        0 <= slot,
    ensures
        plugin_in(kbs, kb, split, slot) matches Some(p) ==> with_plugin(kbs, kb, split, slot, p) == kbs,
{
    if plugin_in(kbs, kb, split, slot) is Some {
        let s = split_at(kbs, kb, split)->0;
        if slot > 0 {
            assert(s.effects.update(slot - 1, s.effects[slot - 1]) =~= s.effects);
        }
        assert(s.with_plugin(slot, s.plugin(slot)->0) == s);
        lemma_same_split(kbs, kb, split);
    }
}

/// The split at a place.
pub fn find_split<F>(keyboards: &Vec<KeyboardNode<F>>, kb: usize, split: usize) -> (s: Option<&SplitNode<F>>)
    ensures
        match s {
            Some(s) => split_at(views(keyboards@), kb, split) == Some(s@),
            None => split_at(views(keyboards@), kb, split) is None,
        },
{
    if kb < keyboards.len() && split < keyboards[kb].splits.len() {
        Some(&keyboards[kb].splits[split])
    } else {
        None
    }
}

/// The plugin in a slot at a place.
pub fn find_plugin<F>(keyboards: &Vec<KeyboardNode<F>>, kb: usize, split: usize, slot: usize) -> (p: Option<
    &PluginSlot<F>,
>)
    ensures
        match p {
            Some(p) => plugin_in(views(keyboards@), kb, split, slot as int) == Some(p@),
            None => plugin_in(views(keyboards@), kb, split, slot as int) is None,
        },
{
    match find_split(keyboards, kb, split) {
        Some(s) => if slot == 0 {
            match &s.instrument {
                Some(p) => Some(p),
                None => None,
            }
        } else if slot <= s.effects.len() {
            Some(&s.effects[slot - 1])
        } else {
            None
        },
        None => None,
    }
}

/// The plugin at a node.
pub fn find_plugin_at<F>(keyboards: &Vec<KeyboardNode<F>>, addr: TreeAddress) -> (p: Option<&PluginSlot<F>>)
    ensures
        match p {
            Some(p) => plugin_at(views(keyboards@), addr) == Some(p@) && addr.audio_slot() <= usize::MAX,
            None => plugin_at(views(keyboards@), addr) is None,
        },
{
    match addr {
        TreeAddress::Instrument { kb, split } => find_plugin(keyboards, kb, split, 0),
        TreeAddress::Effect { kb, split, index } => match find_split(keyboards, kb, split) {
            Some(s) => if index < s.effects.len() {
                Some(&s.effects[index])
            } else {
                None
            },
            None => None,
        },
        _ => None,
    }
}

/// The modulator at `index` of the plugin in a slot.
pub fn find_modulator<F>(
    keyboards: &Vec<KeyboardNode<F>>,
    kb: usize,
    split: usize,
    slot: usize,
    index: usize,
) -> (m: Option<&ModulatorSlot<F>>)
    ensures
        match m {
            Some(m) => modulator_in(views(keyboards@), kb, split, slot as int, index) == Some(m@),
            None => modulator_in(views(keyboards@), kb, split, slot as int, index) is None,
        },
{
    match find_plugin(keyboards, kb, split, slot) {
        Some(p) => if index < p.modulators.len() {
            Some(&p.modulators[index])
        } else {
            None
        },
        None => None,
    }
}

// ---------------------------------------------------------------------------
// Modulators
// ---------------------------------------------------------------------------

/// The source as the audio graph has it, at the start of its course; `zero` is the scalar zero.
pub open spec fn graph_source<F>(slot: ModSourceSlot<F>, zero: F) -> ModSource<F> {
    match slot {
        ModSourceSlot::Lfo { waveform, rate } => ModSource::Lfo { waveform, rate, phase: zero },
        ModSourceSlot::Envelope { attack, decay, sustain, release } => ModSource::Envelope {
            attack,
            decay,
            sustain,
            release,
            state: EnvState::Idle,
            level: zero,
            notes_held: 0,
        },
    }
}

/// The source as the audio graph has it, at the start of its course; `zero` is the scalar zero.
pub fn mod_source_slot_to_graph<F: Copy>(slot: &ModSourceSlot<F>, zero: F) -> (source: ModSource<F>)
    ensures
        source == graph_source(*slot, zero),
{
    match *slot {
        ModSourceSlot::Lfo { waveform, rate } => ModSource::Lfo { waveform, rate, phase: zero },
        ModSourceSlot::Envelope { attack, decay, sustain, release } => ModSource::Envelope {
            attack,
            decay,
            sustain,
            release,
            state: EnvState::Idle,
            level: zero,
            notes_held: 0,
        },
    }
}

/// The targets that survive the removal of sibling `removed`, renumbered, in order.
pub open spec fn slot_targets_after_remove<F>(targets: Seq<ModTargetSlot<F>>, removed: usize) -> Seq<ModTargetSlot<F>>
    decreases targets.len(),
{
    if targets.len() == 0 {
        Seq::empty()
    } else {
        let rest = slot_targets_after_remove(targets.drop_last(), removed);
        let t = targets.last();
        if t.kind.sibling() == Some(removed) {
            rest
        } else {
            rest.push(ModTargetSlot { kind: kind_after_remove(t.kind, removed), ..t })
        }
    }
}

impl<F> ModSlotView<F> {
    /// The modulator once its sibling `removed` is gone.
    pub open spec fn after_remove(self, removed: usize) -> ModSlotView<F> {
        ModSlotView { targets: slot_targets_after_remove(self.targets, removed), ..self }
    }
}

/// The modulators that remain once the one at `index` is gone and the wiring is repaired.
pub open spec fn slots_after_remove<F>(mods: Seq<ModSlotView<F>>, index: usize) -> Seq<ModSlotView<F>> {
    mods.remove(index as int).map_values(|m: ModSlotView<F>| m.after_remove(index))
}

fn repair_targets<F>(targets: Vec<ModTargetSlot<F>>, removed: usize) -> (kept: Vec<ModTargetSlot<F>>)
    ensures
        kept@ == slot_targets_after_remove(targets@, removed),
{
    let ghost whole = targets@;
    let mut rest = crate::session::reversed(targets);
    let mut kept: Vec<ModTargetSlot<F>> = Vec::new();
    let ghost mut done: int = 0;
    while rest.len() > 0
        invariant
            0 <= done,
            rest@.len() + done == whole.len(),
            forall|k: int| 0 <= k < rest@.len() ==> #[trigger] rest@[k] == whole[whole.len() - 1 - k],
            kept@ == slot_targets_after_remove(whole.take(done), removed),
        decreases rest@.len(),
    {
        if let Some(next) = rest.pop() {
            let mut t = next;
            assert(t == whole[done]);
            proof {
                assert(whole.take(done + 1).drop_last() =~= whole.take(done));
            }
            if cross_mod_index(&t.kind) != Some(removed) {
                adjust_cross_mod_index(&mut t.kind, removed);
                kept.push(t);
            }
            proof {
                done = done + 1;
            }
        }
    }
    assert(whole.take(done) =~= whole);
    kept
}

/// Repairs the wiring of the modulators that remain after the one at `removed_index` was taken
/// out: targets that drove it disappear, indices above it go down by one.
pub fn fixup_tui_cross_mod_after_remove<F>(modulators: &mut Vec<ModulatorSlot<F>>, removed_index: usize)
    ensures
        views(final(modulators)@) == views(old(modulators)@).map_values(
            |m: ModSlotView<F>| m.after_remove(removed_index),
        ),
{
    let n: usize = modulators.len();
    let mut i: usize = 0;
    while i < n
        invariant
            i <= n,
            n == modulators@.len(),
            n == old(modulators)@.len(),
            forall|k: int|
                0 <= k < i ==> (#[trigger] modulators@[k])@ == old(modulators)@[k]@.after_remove(removed_index),
            forall|k: int| i <= k < n ==> #[trigger] modulators@[k] == old(modulators)@[k],
        decreases n - i,
    {
        let mut targets: Vec<ModTargetSlot<F>> = Vec::new();
        std::mem::swap(&mut targets, &mut modulators[i].targets);
        modulators[i].targets = repair_targets(targets, removed_index);
        i = i + 1;
    }
}

} // verus!
