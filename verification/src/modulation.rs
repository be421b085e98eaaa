//! Modulators: low-frequency oscillators and envelopes, what they are wired to, and how the
//! wiring is kept right while modulators come and go.
//!
//! Samples, rates and depths are of a scalar type `F` that this module only moves around; the
//! arithmetic on them belongs to the audio code.
use vstd::prelude::*;

use crate::midi::{classify, message_kind, MessageKind, MidiEvent};
use crate::model::views;
use crate::text::{lowered, same_lower};

verus! {

/// LFO waveform shape.
#[derive(Clone, Copy, Debug, PartialEq, Eq, Structural)]
pub enum LfoWaveform {
    Sine,
    Triangle,
    Saw,
    Square,
}

impl LfoWaveform {
    /// The place of the waveform in the cycle.
    pub open spec fn index(self) -> int {
        match self {
            LfoWaveform::Sine => 0,
            LfoWaveform::Triangle => 1,
            LfoWaveform::Saw => 2,
            LfoWaveform::Square => 3,
        }
    }

    /// The waveform at a place in the cycle.
    pub open spec fn at(index: int) -> LfoWaveform {
        if index == 0 {
            LfoWaveform::Sine
        } else if index == 1 {
            LfoWaveform::Triangle
        } else if index == 2 {
            LfoWaveform::Saw
        } else {
            LfoWaveform::Square
        }
    }

    /// The name of the waveform.
    pub open spec fn label(self) -> Seq<char> {
        match self {
            LfoWaveform::Sine => "sine"@,
            LfoWaveform::Triangle => "triangle"@,
            LfoWaveform::Saw => "saw"@,
            LfoWaveform::Square => "square"@,
        }
    }

    /// The waveform that a text names, in any case.
    pub open spec fn named(text: Seq<char>) -> Option<LfoWaveform> {
        let t = lowered(text);
        if t == "sine"@ {
            Some(LfoWaveform::Sine)
        } else if t == "triangle"@ || t == "tri"@ {
            Some(LfoWaveform::Triangle)
        } else if t == "saw"@ || t == "sawtooth"@ {
            Some(LfoWaveform::Saw)
        } else if t == "square"@ || t == "sq"@ {
            Some(LfoWaveform::Square)
        } else {
            None
        }
    }

    /// The next waveform in the cycle.
    pub fn next(self) -> (w: Self)
        ensures
            w == LfoWaveform::at((self.index() + 1) % 4),
    {
        match self {
            LfoWaveform::Sine => LfoWaveform::Triangle,
            LfoWaveform::Triangle => LfoWaveform::Saw,
            LfoWaveform::Saw => LfoWaveform::Square,
            LfoWaveform::Square => LfoWaveform::Sine,
        }
    }

    /// The previous waveform in the cycle.
    pub fn prev(self) -> (w: Self)
        ensures
            w == LfoWaveform::at((self.index() + 3) % 4),
    {
        match self {
            LfoWaveform::Sine => LfoWaveform::Square,
            LfoWaveform::Triangle => LfoWaveform::Sine,
            LfoWaveform::Saw => LfoWaveform::Triangle,
            LfoWaveform::Square => LfoWaveform::Saw,
        }
    }

    /// The place of the waveform in the cycle.
    pub fn to_index(self) -> (i: usize)
        ensures
            i == self.index(),
    {
        match self {
            LfoWaveform::Sine => 0,
            LfoWaveform::Triangle => 1,
            LfoWaveform::Saw => 2,
            LfoWaveform::Square => 3,
        }
    }

    /// The name of the waveform.
    pub fn name(self) -> (name: &'static str)
        ensures
            name@ == self.label(),
    {
        match self {
            LfoWaveform::Sine => "sine",
            LfoWaveform::Triangle => "triangle",
            LfoWaveform::Saw => "saw",
            LfoWaveform::Square => "square",
        }
    }

    /// The waveform that a text names, in any case; "tri", "sawtooth" and "sq" will do too.
    pub fn from_str(s: &str) -> (w: Option<Self>)
        ensures
            w == LfoWaveform::named(s@),
    {
        if same_lower(s, "sine") {
            Some(LfoWaveform::Sine)
        } else if same_lower(s, "triangle") || same_lower(s, "tri") {
            Some(LfoWaveform::Triangle)
        } else if same_lower(s, "saw") || same_lower(s, "sawtooth") {
            Some(LfoWaveform::Saw)
        } else if same_lower(s, "square") || same_lower(s, "sq") {
            Some(LfoWaveform::Square)
        } else {
            None
        }
    }
}

/// Going on one step and back one step in the cycle of waveforms changes nothing.
pub proof fn next_and_prev_are_inverse(w: LfoWaveform)
    ensures
        LfoWaveform::at((LfoWaveform::at((w.index() + 1) % 4).index() + 3) % 4) == w,
        LfoWaveform::at((LfoWaveform::at((w.index() + 3) % 4).index() + 1) % 4) == w,
{
}

/// Reading back the name of a waveform gives the waveform.
pub proof fn waveform_name_round_trip(w: LfoWaveform)
    ensures
        LfoWaveform::named(w.label()) == Some(w),
{
    reveal_strlit("sine");
    reveal_strlit("triangle");
    reveal_strlit("tri");
    reveal_strlit("saw");
    reveal_strlit("sawtooth");
    reveal_strlit("square");
    reveal_strlit("sq");
    assert(lowered(w.label()) =~= w.label());
    assert("saw"@[0] != "tri"@[0]);
}

/// Identifies what a modulation target points at.
#[derive(Clone, Copy, Debug, PartialEq, Eq, Structural)]
pub enum ModTargetKind {
    /// A plugin parameter by index.
    PluginParam { param_index: u32 },
    /// A sibling modulator's LFO rate.
    ModulatorRate { mod_index: usize },
    /// The depth of one of a sibling modulator's targets.
    ModulatorDepth { mod_index: usize, target_index: usize },
    /// A sibling envelope's attack.
    ModulatorAttack { mod_index: usize },
    /// A sibling envelope's decay.
    ModulatorDecay { mod_index: usize },
    /// A sibling envelope's sustain.
    ModulatorSustain { mod_index: usize },
    /// A sibling envelope's release.
    ModulatorRelease { mod_index: usize },
}

/// A modulation target: one parameter of the parent plugin or of a sibling modulator.
#[derive(Clone, Copy, Debug)]
pub struct ModTarget<F> {
    pub kind: ModTargetKind,
    /// Fraction of the parameter range swept by the modulation.
    pub depth: F,
    /// The value the user set.
    pub base_value: F,
    pub param_min: F,
    pub param_max: F,
}

/// ADSR envelope state.
#[derive(Clone, Copy, Debug, PartialEq, Eq, Structural)]
pub enum EnvState {
    Idle,
    Attack,
    Decay,
    Sustain,
    Release,
}

/// Modulation source: either an LFO or an ADSR envelope.
#[derive(Clone, Copy, Debug)]
pub enum ModSource<F> {
    Lfo { waveform: LfoWaveform, rate: F, phase: F },
    Envelope {
        attack: F,
        decay: F,
        sustain: F,
        release: F,
        state: EnvState,
        level: F,
        notes_held: u32,
    },
}

/// A block-rate modulator: a source and the targets it drives.
#[derive(Debug)]
pub struct Modulator<F> {
    pub source: ModSource<F>,
    pub sample_rate: F,
    pub targets: Vec<ModTarget<F>>,
    /// Last computed output.
    pub last_output: F,
}

/// The mathematical content of a [`Modulator`].
#[verifier::ext_equal]
pub struct ModulatorView<F> {
    pub source: ModSource<F>,
    pub sample_rate: F,
    pub targets: Seq<ModTarget<F>>,
    pub last_output: F,
}

impl<F> View for Modulator<F> {
    type V = ModulatorView<F>;

    open spec fn view(&self) -> ModulatorView<F> {
        ModulatorView {
            source: self.source,
            sample_rate: self.sample_rate,
            targets: self.targets@,
            last_output: self.last_output,
        }
    }
}

/// The field of a modulator that another modulator can drive.
#[derive(Clone, Copy, Debug, PartialEq, Eq, Structural)]
pub enum CrossModField {
    Rate,
    Attack,
    Decay,
    Sustain,
    Release,
    Depth(usize),
}

// ---------------------------------------------------------------------------
// Cross-modulation wiring
// ---------------------------------------------------------------------------

impl ModTargetKind {
    /// The sibling modulator and field that a target of this kind drives, if it drives one.
    pub open spec fn cross(self) -> Option<(usize, CrossModField)> {
        match self {
            ModTargetKind::PluginParam { .. } => None,
            ModTargetKind::ModulatorRate { mod_index } => Some((mod_index, CrossModField::Rate)),
            ModTargetKind::ModulatorAttack { mod_index } => Some((mod_index, CrossModField::Attack)),
            ModTargetKind::ModulatorDecay { mod_index } => Some((mod_index, CrossModField::Decay)),
            ModTargetKind::ModulatorSustain { mod_index } => Some((mod_index, CrossModField::Sustain)),
            ModTargetKind::ModulatorRelease { mod_index } => Some((mod_index, CrossModField::Release)),
            ModTargetKind::ModulatorDepth { mod_index, target_index } => Some(
                (mod_index, CrossModField::Depth(target_index)),
            ),
        }
    }

    /// The index of the sibling modulator that a target of this kind drives, if it drives one.
    pub open spec fn sibling(self) -> Option<usize> {
        match self.cross() {
            Some((index, _)) => Some(index),
            None => None,
        }
    }

    /// The kind with its sibling index replaced.
    pub open spec fn with_sibling(self, index: usize) -> ModTargetKind {
        match self {
            ModTargetKind::PluginParam { param_index } => ModTargetKind::PluginParam { param_index },
            ModTargetKind::ModulatorRate { .. } => ModTargetKind::ModulatorRate { mod_index: index },
            ModTargetKind::ModulatorAttack { .. } => ModTargetKind::ModulatorAttack { mod_index: index },
            ModTargetKind::ModulatorDecay { .. } => ModTargetKind::ModulatorDecay { mod_index: index },
            ModTargetKind::ModulatorSustain { .. } => ModTargetKind::ModulatorSustain { mod_index: index },
            ModTargetKind::ModulatorRelease { .. } => ModTargetKind::ModulatorRelease { mod_index: index },
            ModTargetKind::ModulatorDepth { target_index, .. } => ModTargetKind::ModulatorDepth {
                mod_index: index,
                target_index,
            },
        }
    }
}

/// Where the element at `index` stands once the element at `removed` is gone.
pub open spec fn index_after_remove(index: usize, removed: usize) -> usize {
    if index > removed {
        (index - 1) as usize
    } else {
        index
    }
}

/// The kind, renumbered for the list that remains once modulator `removed` is gone.
pub open spec fn kind_after_remove(kind: ModTargetKind, removed: usize) -> ModTargetKind {
    match kind.sibling() {
        Some(index) => kind.with_sibling(index_after_remove(index, removed)),
        None => kind,
    }
}

/// The targets that survive the removal of modulator `removed`, renumbered, in order: those that
/// drove the removed modulator are gone.
pub open spec fn targets_after_remove<F>(targets: Seq<ModTarget<F>>, removed: usize) -> Seq<ModTarget<F>>
    decreases targets.len(),
{
    if targets.len() == 0 {
        Seq::empty()
    } else {
        let rest = targets_after_remove(targets.drop_last(), removed);
        let t = targets.last();
        if t.kind.sibling() == Some(removed) {
            rest
        } else {
            rest.push(ModTarget { kind: kind_after_remove(t.kind, removed), ..t })
        }
    }
}

impl<F> ModulatorView<F> {
    /// The modulator once its sibling `removed` is gone.
    pub open spec fn after_remove(self, removed: usize) -> ModulatorView<F> {
        ModulatorView { targets: targets_after_remove(self.targets, removed), ..self }
    }
}

/// The modulators that remain once the one at `index` is removed and the wiring is repaired.
pub open spec fn modulators_after_remove<F>(mods: Seq<ModulatorView<F>>, index: usize) -> Seq<
    ModulatorView<F>,
> {
    mods.remove(index as int).map_values(|m: ModulatorView<F>| m.after_remove(index))
}

/// The index of the sibling modulator in a cross-modulation target kind, if any.
pub fn cross_mod_index(kind: &ModTargetKind) -> (index: Option<usize>)
    ensures
        index == kind.sibling(),
{
    match *kind {
        ModTargetKind::PluginParam { .. } => None,
        ModTargetKind::ModulatorRate { mod_index }
        | ModTargetKind::ModulatorAttack { mod_index }
        | ModTargetKind::ModulatorDecay { mod_index }
        | ModTargetKind::ModulatorSustain { mod_index }
        | ModTargetKind::ModulatorRelease { mod_index }
        | ModTargetKind::ModulatorDepth { mod_index, .. } => Some(mod_index),
    }
}

/// Lowers a sibling index above `removed_index` by one.
pub fn adjust_cross_mod_index(kind: &mut ModTargetKind, removed_index: usize)
    ensures
        *final(kind) == kind_after_remove(*old(kind), removed_index),
{
    let idx = match kind {
        ModTargetKind::PluginParam { .. } => return,
        ModTargetKind::ModulatorRate { mod_index } => mod_index,
        ModTargetKind::ModulatorAttack { mod_index } => mod_index,
        ModTargetKind::ModulatorDecay { mod_index } => mod_index,
        ModTargetKind::ModulatorSustain { mod_index } => mod_index,
        ModTargetKind::ModulatorRelease { mod_index } => mod_index,
        ModTargetKind::ModulatorDepth { mod_index, .. } => mod_index,
    };
    if *idx > removed_index {
        *idx = *idx - 1;
    }
}

impl<F: Copy> Modulator<F> {
    /// A modulator with no targets that has produced nothing yet; `zero` is the scalar zero.
    pub fn new(source: ModSource<F>, sample_rate: F, zero: F) -> (m: Self)
        ensures
            m@ == (ModulatorView { source, sample_rate, targets: Seq::empty(), last_output: zero }),
    {
        Modulator { source, sample_rate, targets: Vec::new(), last_output: zero }
    }

    /// Drops the targets that drive sibling `removed_index` and renumbers the others.
    fn forget_sibling(&mut self, removed_index: usize)
        ensures
            final(self)@ == old(self)@.after_remove(removed_index),
    {
        let mut kept: Vec<ModTarget<F>> = Vec::new();
        let n: usize = self.targets.len();
        let mut i: usize = 0;
        while i < n
            invariant
                i <= n,
                n == self.targets@.len(),
                self@ == old(self)@,
                kept@ == targets_after_remove(self.targets@.take(i as int), removed_index),
            decreases n - i,
        {
            let mut t = self.targets[i];
            proof {
                assert(self.targets@.take(i + 1).drop_last() =~= self.targets@.take(i as int));
            }
            if cross_mod_index(&t.kind) != Some(removed_index) {
                adjust_cross_mod_index(&mut t.kind, removed_index);
                kept.push(t);
            }
            i = i + 1;
        }
        proof {
            assert(self.targets@.take(n as int) =~= self.targets@);
        }
        self.targets = kept;
    }
}

/// Repairs the wiring of the modulators that remain after the one at `removed_index` was taken
/// out of the list: targets that drove it disappear, indices above it go down by one.
pub fn fixup_cross_mod_after_remove<F: Copy>(modulators: &mut Vec<Modulator<F>>, removed_index: usize)
    ensures
        views(final(modulators)@) == views(old(modulators)@).map_values(
            |m: ModulatorView<F>| m.after_remove(removed_index),
        ),
{
    let n: usize = modulators.len();
    let mut i: usize = 0;
    while i < n
        invariant
            i <= n,
            n == modulators@.len(),
            n == old(modulators)@.len(),
            forall|k: int| 0 <= k < i ==> (#[trigger] modulators@[k])@ == old(modulators)@[k]@.after_remove(
                removed_index,
            ),
            forall|k: int| i <= k < n ==> #[trigger] modulators@[k] == old(modulators)@[k],
        decreases n - i,
    {
        modulators[i].forget_sibling(removed_index);
        i = i + 1;
    }
}

// ---------------------------------------------------------------------------
// Base values
// ---------------------------------------------------------------------------

/// The target with its base value set to `value` where `hit` says that it drives the thing set.
pub open spec fn rebased<F>(t: ModTarget<F>, hit: bool, value: F) -> ModTarget<F> {
    if hit {
        ModTarget { base_value: value, ..t }
    } else {
        t
    }
}

impl<F> ModulatorView<F> {
    /// The modulator after the user set `field` of modulator `index` to `value`.
    pub open spec fn with_cross_base(self, index: usize, field: CrossModField, value: F) -> ModulatorView<F> {
        ModulatorView {
            targets: self.targets.map_values(
                |t: ModTarget<F>| rebased(t, t.kind.cross() == Some((index, field)), value),
            ),
            ..self
        }
    }

    /// The modulator after the user set plugin parameter `param_index` to `value`.
    pub open spec fn with_param_base(self, param_index: u32, value: F) -> ModulatorView<F> {
        ModulatorView {
            targets: self.targets.map_values(
                |t: ModTarget<F>|
                    rebased(t, t.kind == ModTargetKind::PluginParam { param_index }, value),
            ),
            ..self
        }
    }
}

/// The modulators after the user set `field` of modulator `index` to `value`: every target that
/// drives that field starts from the new value.
pub open spec fn cross_base_updated<F>(
    mods: Seq<ModulatorView<F>>,
    index: usize,
    field: CrossModField,
    value: F,
) -> Seq<ModulatorView<F>> {
    mods.map_values(|m: ModulatorView<F>| m.with_cross_base(index, field, value))
}

/// The modulators after the user set plugin parameter `param_index` to `value`.
pub open spec fn param_base_updated<F>(mods: Seq<ModulatorView<F>>, param_index: u32, value: F) -> Seq<
    ModulatorView<F>,
> {
    mods.map_values(|m: ModulatorView<F>| m.with_param_base(param_index, value))
}

/// Whether a target of `kind` drives `field` of modulator `index`.
fn drives(kind: &ModTargetKind, index: usize, field: CrossModField) -> (hit: bool)
    ensures
        hit == (kind.cross() == Some((index, field))),
{
    match (*kind, field) {
        (ModTargetKind::ModulatorRate { mod_index }, CrossModField::Rate) => mod_index == index,
        (ModTargetKind::ModulatorAttack { mod_index }, CrossModField::Attack) => mod_index == index,
        (ModTargetKind::ModulatorDecay { mod_index }, CrossModField::Decay) => mod_index == index,
        (ModTargetKind::ModulatorSustain { mod_index }, CrossModField::Sustain) => mod_index == index,
        (ModTargetKind::ModulatorRelease { mod_index }, CrossModField::Release) => mod_index == index,
        (ModTargetKind::ModulatorDepth { mod_index, target_index }, CrossModField::Depth(ti)) => {
            mod_index == index && target_index == ti
        },
        _ => false,
    }
}

impl<F: Copy> Modulator<F> {
    fn rebase_cross(&mut self, index: usize, field: CrossModField, value: F)
        ensures
            final(self)@ == old(self)@.with_cross_base(index, field, value),
    {
        let n: usize = self.targets.len();
        let mut i: usize = 0;
        while i < n
            invariant
                i <= n,
                n == self.targets@.len(),
                n == old(self).targets@.len(),
                self@ == (ModulatorView { targets: self.targets@, ..old(self)@ }),
                forall|k: int| 0 <= k < i ==> #[trigger] self.targets@[k] == rebased(
                    old(self).targets@[k],
                    old(self).targets@[k].kind.cross() == Some((index, field)),
                    value,
                ),
                forall|k: int| i <= k < n ==> #[trigger] self.targets@[k] == old(self).targets@[k],
            decreases n - i,
        {
            let mut t = self.targets[i];
            if drives(&t.kind, index, field) {
                t.base_value = value;
                self.targets[i] = t;
            }
            i = i + 1;
        }
    }

    fn rebase_param(&mut self, param_index: u32, value: F)
        ensures
            final(self)@ == old(self)@.with_param_base(param_index, value),
    {
        let n: usize = self.targets.len();
        let mut i: usize = 0;
        while i < n
            invariant
                i <= n,
                n == self.targets@.len(),
                n == old(self).targets@.len(),
                self@ == (ModulatorView { targets: self.targets@, ..old(self)@ }),
                forall|k: int| 0 <= k < i ==> #[trigger] self.targets@[k] == rebased(
                    old(self).targets@[k],
                    old(self).targets@[k].kind == ModTargetKind::PluginParam { param_index },
                    value,
                ),
                forall|k: int| i <= k < n ==> #[trigger] self.targets@[k] == old(self).targets@[k],
            decreases n - i,
        {
            let mut t = self.targets[i];
            if let ModTargetKind::PluginParam { param_index: pi } = t.kind {
                if pi == param_index {
                    t.base_value = value;
                    self.targets[i] = t;
                }
            }
            i = i + 1;
        }
    }
}

/// When the user sets a modulator parameter, moves the base value of every target that drives it.
pub fn update_cross_mod_base<F: Copy>(
    modulators: &mut Vec<Modulator<F>>,
    target_mod_index: usize,
    field: CrossModField,
    value: F,
)
    ensures
        views(final(modulators)@) == cross_base_updated(
            views(old(modulators)@),
            target_mod_index,
            field,
            value,
        ),
{
    let n: usize = modulators.len();
    let mut i: usize = 0;
    while i < n
        invariant
            i <= n,
            n == modulators@.len(),
            n == old(modulators)@.len(),
            forall|k: int| 0 <= k < i ==> (#[trigger] modulators@[k])@ == old(modulators)@[k]@.with_cross_base(
                target_mod_index,
                field,
                value,
            ),
            forall|k: int| i <= k < n ==> #[trigger] modulators@[k] == old(modulators)@[k],
        decreases n - i,
    {
        modulators[i].rebase_cross(target_mod_index, field, value);
        i = i + 1;
    }
}

/// When the user sets a plugin parameter, moves the base value of every target that drives it.
pub fn update_param_base<F: Copy>(modulators: &mut Vec<Modulator<F>>, param_index: u32, value: F)
    ensures
        views(final(modulators)@) == param_base_updated(views(old(modulators)@), param_index, value),
{
    let n: usize = modulators.len();
    let mut i: usize = 0;
    while i < n
        invariant
            i <= n,
            n == modulators@.len(),
            n == old(modulators)@.len(),
            forall|k: int| 0 <= k < i ==> (#[trigger] modulators@[k])@ == old(modulators)@[k]@.with_param_base(
                param_index,
                value,
            ),
            forall|k: int| i <= k < n ==> #[trigger] modulators@[k] == old(modulators)@[k],
        decreases n - i,
    {
        modulators[i].rebase_param(param_index, value);
        i = i + 1;
    }
}

// ---------------------------------------------------------------------------
// Cross-modulation, once per buffer
// ---------------------------------------------------------------------------

/// One modulator driving a field of another: target `target` of modulator `source` drives
/// `field` of modulator `sibling`.
#[derive(Clone, Copy, Debug, PartialEq, Eq, Structural)]
pub struct CrossRoute {
    pub source: usize,
    pub target: usize,
    pub sibling: usize,
    pub field: CrossModField,
}

/// The routes that the first `count` targets of modulator `source` make, in order.
pub open spec fn routes_of_targets<F>(source: usize, targets: Seq<ModTarget<F>>, count: int) -> Seq<CrossRoute>
    decreases count,
{
    if count <= 0 {
        Seq::empty()
    } else {
        let rest = routes_of_targets(source, targets, count - 1);
        match targets[count - 1].kind.cross() {
            Some((sibling, field)) => if sibling == source {
                rest
            } else {
                rest.push(CrossRoute { source, target: (count - 1) as usize, sibling, field })
            },
            None => rest,
        }
    }
}

/// The routes of the first `count` modulators: by modulator, then by target. A target that points
/// back at its own modulator makes no route.
pub open spec fn cross_routes<F>(mods: Seq<ModulatorView<F>>, count: int) -> Seq<CrossRoute>
    decreases count,
{
    if count <= 0 {
        Seq::empty()
    } else {
        cross_routes(mods, count - 1) + routes_of_targets(
            (count - 1) as usize,
            mods[count - 1].targets,
            mods[count - 1].targets.len() as int,
        )
    }
}

/// The sibling and field driven by a target of `kind`.
fn cross_target(kind: &ModTargetKind) -> (target: Option<(usize, CrossModField)>)
    ensures
        target == kind.cross(),
{
    match *kind {
        ModTargetKind::ModulatorRate { mod_index } => Some((mod_index, CrossModField::Rate)),
        ModTargetKind::ModulatorAttack { mod_index } => Some((mod_index, CrossModField::Attack)),
        ModTargetKind::ModulatorDecay { mod_index } => Some((mod_index, CrossModField::Decay)),
        ModTargetKind::ModulatorSustain { mod_index } => Some((mod_index, CrossModField::Sustain)),
        ModTargetKind::ModulatorRelease { mod_index } => Some((mod_index, CrossModField::Release)),
        ModTargetKind::ModulatorDepth { mod_index, target_index } => {
            Some((mod_index, CrossModField::Depth(target_index)))
        },
        ModTargetKind::PluginParam { .. } => None,
    }
}

/// Every route of a modulator list, in the order in which the routes take effect.
pub fn cross_mod_routes<F: Copy>(modulators: &Vec<Modulator<F>>) -> (routes: Vec<CrossRoute>)
    ensures
        routes@ == cross_routes(views(modulators@), modulators@.len() as int),
{
    let mut routes: Vec<CrossRoute> = Vec::new();
    let n: usize = modulators.len();
    let mut i: usize = 0;
    while i < n
        invariant
            i <= n,
            n == modulators@.len(),
            routes@ == cross_routes(views(modulators@), i as int),
        decreases n - i,
    {
        let ghost before = routes@;
        let targets = &modulators[i].targets;
        let count: usize = targets.len();
        let mut j: usize = 0;
        while j < count
            invariant
                j <= count,
                count == targets@.len(),
                routes@ == before + routes_of_targets(i, targets@, j as int),
            decreases count - j,
        {
            if let Some((sibling, field)) = cross_target(&targets[j].kind) {
                if sibling != i {
                    routes.push(CrossRoute { source: i, target: j, sibling, field });
                }
            }
            j = j + 1;
        }
        i = i + 1;
    }
    routes
}

impl<F> ModulatorView<F> {
    /// The modulator with `field` set to `value`, where its source has such a field.
    pub open spec fn with_field(self, field: CrossModField, value: F) -> ModulatorView<F> {
        match (field, self.source) {
            (CrossModField::Rate, ModSource::Lfo { waveform, rate, phase }) => ModulatorView {
                source: ModSource::Lfo { waveform, rate: value, phase },
                ..self
            },
            (
                CrossModField::Attack,
                ModSource::Envelope { attack, decay, sustain, release, state, level, notes_held },
            ) => ModulatorView {
                source: ModSource::Envelope { attack: value, decay, sustain, release, state, level, notes_held },
                ..self
            },
            (
                CrossModField::Decay,
                ModSource::Envelope { attack, decay, sustain, release, state, level, notes_held },
            ) => ModulatorView {
                source: ModSource::Envelope { attack, decay: value, sustain, release, state, level, notes_held },
                ..self
            },
            (
                CrossModField::Sustain,
                ModSource::Envelope { attack, decay, sustain, release, state, level, notes_held },
            ) => ModulatorView {
                source: ModSource::Envelope { attack, decay, sustain: value, release, state, level, notes_held },
                ..self
            },
            (
                CrossModField::Release,
                ModSource::Envelope { attack, decay, sustain, release, state, level, notes_held },
            ) => ModulatorView {
                source: ModSource::Envelope { attack, decay, sustain, release: value, state, level, notes_held },
                ..self
            },
            (CrossModField::Depth(ti), _) => if ti < self.targets.len() {
                ModulatorView {
                    targets: self.targets.update(
                        ti as int,
                        ModTarget { depth: value, ..self.targets[ti as int] },
                    ),
                    ..self
                }
            } else {
                self
            },
            _ => self,
        }
    }
}

/// The modulators after the first `count` routes wrote their values, in order.
pub open spec fn cross_applied<F>(
    mods: Seq<ModulatorView<F>>,
    routes: Seq<CrossRoute>,
    values: Seq<F>,
    count: int,
) -> Seq<ModulatorView<F>>
    decreases count,
{
    if count <= 0 {
        mods
    } else {
        let before = cross_applied(mods, routes, values, count - 1);
        let route = routes[count - 1];
        if route.sibling < before.len() {
            before.update(
                route.sibling as int,
                before[route.sibling as int].with_field(route.field, values[count - 1]),
            )
        } else {
            before
        }
    }
}

impl<F: Copy> Modulator<F> {
    /// Sets `field` to `value` where the source has such a field.
    pub fn set_field(&mut self, field: CrossModField, value: F)
        ensures
            final(self)@ == old(self)@.with_field(field, value),
    {
        match field {
            CrossModField::Rate => {
                if let ModSource::Lfo { rate, .. } = &mut self.source {
                    *rate = value;
                }
            },
            CrossModField::Attack => {
                if let ModSource::Envelope { attack, .. } = &mut self.source {
                    *attack = value;
                }
            },
            CrossModField::Decay => {
                if let ModSource::Envelope { decay, .. } = &mut self.source {
                    *decay = value;
                }
            },
            CrossModField::Sustain => {
                if let ModSource::Envelope { sustain, .. } = &mut self.source {
                    *sustain = value;
                }
            },
            CrossModField::Release => {
                if let ModSource::Envelope { release, .. } = &mut self.source {
                    *release = value;
                }
            },
            CrossModField::Depth(ti) => {
                if ti < self.targets.len() {
                    let mut t = self.targets[ti];
                    t.depth = value;
                    self.targets[ti] = t;
                }
            },
        }
    }
}

/// Writes `values[k]` through `routes[k]`, in order. A route to a modulator that does not exist,
/// or to a field that the modulator's source lacks, writes nothing.
pub fn apply_cross_mod<F: Copy>(
    modulators: &mut Vec<Modulator<F>>,
    routes: &Vec<CrossRoute>,
    values: &Vec<F>,
)
    requires
        routes@.len() == values@.len(),
    ensures
        views(final(modulators)@) == cross_applied(
            views(old(modulators)@),
            routes@,
            values@,
            routes@.len() as int,
        ),
{
    let n: usize = routes.len();
    let mut i: usize = 0;
    while i < n
        invariant
            i <= n,
            n == routes@.len(),
            n == values@.len(),
            views(modulators@) == cross_applied(views(old(modulators)@), routes@, values@, i as int),
        decreases n - i,
    {
        let sibling: usize = routes[i].sibling;
        let ghost before = views(modulators@);
        if sibling < modulators.len() {
            modulators[sibling].set_field(routes[i].field, values[i]);
            assert(views(modulators@) =~= before.update(
                sibling as int,
                before[sibling as int].with_field(routes@[i as int].field, values@[i as int]),
            ));
        }
        i = i + 1;
    }
}

// ---------------------------------------------------------------------------
// Envelopes
// ---------------------------------------------------------------------------

impl EnvState {
    /// The state after a buffer in which the level did, or did not, reach the end of the stage.
    pub open spec fn advanced(self, reached: bool) -> EnvState {
        match (self, reached) {
            (EnvState::Attack, true) => EnvState::Decay,
            (EnvState::Decay, true) => EnvState::Sustain,
            (EnvState::Release, true) => EnvState::Idle,
            _ => self,
        }
    }

    /// The state after a buffer; `reached` says that the level came to the end of the stage: full
    /// in the attack, the sustain level in the decay, silence in the release.
    pub fn advance(self, reached: bool) -> (next: EnvState)
        ensures
            next == self.advanced(reached),
    {
        match (self, reached) {
            (EnvState::Attack, true) => EnvState::Decay,
            (EnvState::Decay, true) => EnvState::Sustain,
            (EnvState::Release, true) => EnvState::Idle,
            _ => self,
        }
    }
}

/// An envelope's gate: its state and the number of notes held.
pub open spec fn gate_step(gate: (EnvState, u32), bytes: [u8; 3]) -> (EnvState, u32) {
    match message_kind(bytes) {
        MessageKind::NoteOn => (
            EnvState::Attack,
            if gate.1 < u32::MAX {
                (gate.1 + 1) as u32
            } else {
                gate.1
            },
        ),
        MessageKind::NoteOff => {
            let held = if gate.1 > 0 {
                (gate.1 - 1) as u32
            } else {
                0u32
            };
            (
                if held == 0 {
                    EnvState::Release
                } else {
                    gate.0
                },
                held,
            )
        },
        MessageKind::Other => gate,
    }
}

/// Envelope state and held notes after a run of events: a note-on retriggers the attack, the release of the last held
/// note starts the release.
pub open spec fn gate_after(gate: (EnvState, u32), events: Seq<MidiEvent>) -> (EnvState, u32)
    decreases events.len(),
{
    if events.len() == 0 {
        gate
    } else {
        gate_step(gate_after(gate, events.drop_last()), events.last().1)
    }
}

impl<F> ModulatorView<F> {
    /// The modulator after its envelope, if it is one, heard `events`.
    pub open spec fn gated(self, events: Seq<MidiEvent>) -> ModulatorView<F> {
        match self.source {
            ModSource::Lfo { .. } => self,
            ModSource::Envelope { attack, decay, sustain, release, state, level, notes_held } => {
                let gate = gate_after((state, notes_held), events);
                ModulatorView {
                    source: ModSource::Envelope {
                        attack,
                        decay,
                        sustain,
                        release,
                        state: gate.0,
                        level,
                        notes_held: gate.1,
                    },
                    ..self
                }
            },
        }
    }
}

/// Envelope state and held notes after one message.
fn step_gate(state: EnvState, notes_held: u32, bytes: [u8; 3]) -> (gate: (EnvState, u32))
    ensures
        gate == gate_step((state, notes_held), bytes),
{
    match classify(bytes) {
        MessageKind::NoteOn => (EnvState::Attack, notes_held.saturating_add(1)),
        MessageKind::NoteOff => {
            let held: u32 = notes_held.saturating_sub(1);
            if held == 0 {
                (EnvState::Release, held)
            } else {
                (state, held)
            }
        },
        MessageKind::Other => (state, notes_held),
    }
}

impl<F: Copy> Modulator<F> {
    /// Lets an envelope hear the notes of a buffer. An LFO does not listen.
    pub fn hear(&mut self, events: &[MidiEvent])
        ensures
            final(self)@ == old(self)@.gated(events@),
    {
        if let ModSource::Envelope { state, notes_held, .. } = &mut self.source {
            let mut gate: (EnvState, u32) = (*state, *notes_held);
            let n: usize = events.len();
            let mut i: usize = 0;
            while i < n
                invariant
                    i <= n,
                    n == events@.len(),
                    gate == gate_after((*state, *notes_held), events@.take(i as int)),
                decreases n - i,
            {
                proof {
                    assert(events@.take(i + 1).drop_last() =~= events@.take(i as int));
                }
                gate = step_gate(gate.0, gate.1, events[i].1);
                i = i + 1;
            }
            proof {
                assert(events@.take(n as int) =~= events@);
            }
            *state = gate.0;
            *notes_held = gate.1;
        }
    }

    /// Stores what an envelope's buffer came to: the new level, which is also the output, and the
    /// stage that follows. An LFO is left alone.
    pub fn settle_envelope(&mut self, new_level: F, reached: bool)
        ensures
            final(self)@ == match old(self)@.source {
                ModSource::Lfo { .. } => old(self)@,
                ModSource::Envelope { attack, decay, sustain, release, state, level, notes_held } => {
                    ModulatorView {
                        source: ModSource::Envelope {
                            attack,
                            decay,
                            sustain,
                            release,
                            state: state.advanced(reached),
                            level: new_level,
                            notes_held,
                        },
                        last_output: new_level,
                        ..old(self)@
                    }
                },
            },
    {
        if let ModSource::Envelope { state, level, .. } = &mut self.source {
            *state = state.advance(reached);
            *level = new_level;
            self.last_output = new_level;
        }
    }
}

// ---------------------------------------------------------------------------
// Laws
// ---------------------------------------------------------------------------

/// Whether every target that drives a sibling drives one of `count` modulators.
pub open spec fn siblings_below<F>(targets: Seq<ModTarget<F>>, count: int) -> bool {
    forall|i: int|
        #![trigger targets[i]]
        0 <= i < targets.len() ==> match targets[i].kind.sibling() {
            Some(index) => index < count,
            None => true,
        }
}

/// Whether a modulator list is wired within itself.
pub open spec fn wired_within<F>(mods: Seq<ModulatorView<F>>) -> bool {
    forall|i: int|
        #![trigger mods[i]]
        0 <= i < mods.len() ==> siblings_below(mods[i].targets, mods.len() as int)
}

proof fn lemma_targets_after_remove_below<F>(targets: Seq<ModTarget<F>>, removed: usize, count: int)
    requires
        siblings_below(targets, count),
        removed < count,
    ensures
        siblings_below(targets_after_remove(targets, removed), count - 1),
    decreases targets.len(),
{
    if targets.len() > 0 {
        let init = targets.drop_last();
        assert(siblings_below(init, count)) by {
            assert forall|i: int| #![trigger init[i]] 0 <= i < init.len() implies match init[i].kind.sibling() {
                Some(index) => index < count,
                None => true,
            } by {
                assert(init[i] == targets[i]);
            }
        }
        lemma_targets_after_remove_below(init, removed, count);
        assert(targets.last() == targets[targets.len() - 1]);
    }
}

/// Removing a modulator leaves no dangling wire: a list wired within itself stays so, one shorter.
pub proof fn removal_keeps_wiring<F>(mods: Seq<ModulatorView<F>>, index: usize)
    requires
        index < mods.len(),
        wired_within(mods),
    ensures
        modulators_after_remove(mods, index).len() == mods.len() - 1,
        wired_within(modulators_after_remove(mods, index)),
{
    let after = modulators_after_remove(mods, index);
    let kept = mods.remove(index as int);
    assert forall|i: int| #![trigger after[i]] 0 <= i < after.len() implies siblings_below(
        after[i].targets,
        after.len() as int,
    ) by {
        assert(kept[i] == mods[if i < index {
            i
        } else {
            i + 1
        }]);
        lemma_targets_after_remove_below(kept[i].targets, index, mods.len() as int);
    }
}

/// A wire that survives a removal still leads to the modulator that it led to before: the
/// renumbered index finds the same modulator in the shortened list.
pub proof fn removal_keeps_references<F>(mods: Seq<ModulatorView<F>>, kind: ModTargetKind, removed: usize)
    requires
        removed < mods.len(),
        kind.sibling() is Some,
        kind.sibling()->0 < mods.len(),
        kind.sibling()->0 != removed,
    ensures
        kind_after_remove(kind, removed).sibling() is Some,
        kind_after_remove(kind, removed).sibling()->0 < mods.len() - 1,
        mods.remove(removed as int)[kind_after_remove(kind, removed).sibling()->0 as int]
            == mods[kind.sibling()->0 as int],
        (kind_after_remove(kind, removed).cross()->0).1 == (kind.cross()->0).1,
{
}

proof fn lemma_routes_of_targets<F>(source: usize, targets: Seq<ModTarget<F>>, count: int)
    requires
        0 <= count <= targets.len(),
        targets.len() <= usize::MAX,
    ensures
        forall|k: int|
            #![trigger routes_of_targets(source, targets, count)[k]]
            0 <= k < routes_of_targets(source, targets, count).len() ==> {
                let r = routes_of_targets(source, targets, count)[k];
                r.source == source && r.sibling != source && r.target < targets.len()
                    && targets[r.target as int].kind.cross() == Some((r.sibling, r.field))
            },
    decreases count,
{
    if count > 0 {
        lemma_routes_of_targets(source, targets, count - 1);
    }
}

proof fn lemma_cross_routes<F>(mods: Seq<ModulatorView<F>>, count: int)
    requires
        0 <= count <= mods.len(),
        mods.len() <= usize::MAX,
        forall|i: int| 0 <= i < mods.len() ==> (#[trigger] mods[i]).targets.len() <= usize::MAX,
    ensures
        forall|k: int|
            #![trigger cross_routes(mods, count)[k]]
            0 <= k < cross_routes(mods, count).len() ==> {
                let r = cross_routes(mods, count)[k];
                r.source < mods.len() && r.sibling != r.source && r.target < mods[r.source as int].targets.len()
                    && mods[r.source as int].targets[r.target as int].kind.cross() == Some((r.sibling, r.field))
            },
    decreases count,
{
    if count > 0 {
        lemma_cross_routes(mods, count - 1);
        let targets = mods[count - 1].targets;
        lemma_routes_of_targets((count - 1) as usize, targets, targets.len() as int);
        let a = cross_routes(mods, count - 1);
        let b = routes_of_targets((count - 1) as usize, targets, targets.len() as int);
        assert forall|k: int| #![trigger cross_routes(mods, count)[k]] 0 <= k < cross_routes(mods, count).len() implies {
            let r = cross_routes(mods, count)[k];
            r.source < mods.len() && r.sibling != r.source && r.target < mods[r.source as int].targets.len()
                && mods[r.source as int].targets[r.target as int].kind.cross() == Some((r.sibling, r.field))
        } by {
            if k < a.len() {
                assert((a + b)[k] == a[k]);
            } else {
                assert((a + b)[k] == b[k - a.len()]);
            }
        }
    }
}

/// No modulator drives itself, and every route belongs to an existing target that asks for it.
pub proof fn routes_are_between_siblings<F>(mods: Seq<ModulatorView<F>>, k: int)
    requires
        mods.len() <= usize::MAX,
        forall|i: int| 0 <= i < mods.len() ==> (#[trigger] mods[i]).targets.len() <= usize::MAX,
        0 <= k < cross_routes(mods, mods.len() as int).len(),
    ensures
        ({
            let r = cross_routes(mods, mods.len() as int)[k];
            r.source < mods.len() && r.sibling != r.source && r.target < mods[r.source as int].targets.len()
                && mods[r.source as int].targets[r.target as int].kind.cross() == Some((r.sibling, r.field))
        }),
{
    lemma_cross_routes(mods, mods.len() as int);
}

/// A modulator that no route leads to comes out of cross-modulation as it went in.
pub proof fn unrouted_modulator_is_untouched<F>(
    mods: Seq<ModulatorView<F>>,
    routes: Seq<CrossRoute>,
    values: Seq<F>,
    count: int,
    i: int,
)
    requires
        0 <= count <= routes.len(),
        0 <= i < mods.len(),
        forall|k: int| 0 <= k < routes.len() ==> (#[trigger] routes[k]).sibling != i,
    ensures
        cross_applied(mods, routes, values, count).len() == mods.len(),
        cross_applied(mods, routes, values, count)[i] == mods[i],
    decreases count,
{
    if count > 0 {
        unrouted_modulator_is_untouched(mods, routes, values, count - 1, i);
        assert(routes[count - 1].sibling != i);
    }
}

/// Playing a note and letting it go leaves an envelope that held nothing in its release, with
/// nothing held.
pub proof fn note_on_then_off_releases(state: EnvState, on: MidiEvent, off: MidiEvent)
    requires
        message_kind(on.1) == MessageKind::NoteOn,
        message_kind(off.1) == MessageKind::NoteOff,
    ensures
        gate_after((state, 0), seq![on, off]) == (EnvState::Release, 0u32),
{
    let events = seq![on, off];
    assert(events.drop_last() =~= seq![on]);
    assert(seq![on].drop_last() =~= Seq::<MidiEvent>::empty());
    reveal_with_fuel(gate_after, 3);
}

} // verus!
