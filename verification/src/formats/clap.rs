//! CLAP plugins: their audio ports, their presets and their parameters.
use vstd::prelude::*;

use crate::plugin::{ParameterInfo, Preset};
use crate::text::{decimal, has_char, parse_usize, push_decimal, same, starts_with, usize_value};

verus! {

// ---------------------------------------------------------------------------
// Audio ports
// ---------------------------------------------------------------------------

/// The channels of the first `count` ports together.
pub open spec fn channel_sum(ports: Seq<u32>, count: int) -> nat
    decreases count,
{
    if count <= 0 {
        0
    } else {
        channel_sum(ports, count - 1) + ports[count - 1] as nat
    }
}

/// The channels of a plugin's ports, and of all of them together.
#[derive(Debug)]
pub struct PortLayout {
    pub total: usize,
    pub channels: Vec<u32>,
}

proof fn lemma_sum_grows(ports: Seq<u32>, a: int, b: int)
    requires
        0 <= a <= b <= ports.len(),
    ensures
        channel_sum(ports, a) <= channel_sum(ports, b),
    decreases b - a,
{
    if a < b {
        lemma_sum_grows(ports, a, b - 1);
    }
}

fn sum_channels(ports: &Vec<u32>) -> (total: u32)
    requires
        channel_sum(ports@, ports@.len() as int) <= u32::MAX,
    ensures
        total == channel_sum(ports@, ports@.len() as int),
{
    let mut total: u32 = 0;
    let mut i: usize = 0;
    while i < ports.len()
        invariant
            i <= ports@.len(),
            channel_sum(ports@, ports@.len() as int) <= u32::MAX,
            total == channel_sum(ports@, i as int),
        decreases ports@.len() - i,
    {
        proof {
            lemma_sum_grows(ports@, i + 1, ports@.len() as int);
        }
        total = total + ports[i];
        i = i + 1;
    }
    total
}

/// The output ports of a plugin that names these; one stereo port where it names none, or none
/// with channels.
pub fn output_ports(named: Option<Vec<u32>>) -> (layout: PortLayout)
    requires
        named matches Some(ports) ==> channel_sum(ports@, ports@.len() as int) <= u32::MAX,
    ensures
        match named {
            Some(ports) => if channel_sum(ports@, ports@.len() as int) > 0 {
                layout.total == channel_sum(ports@, ports@.len() as int) && layout.channels@ == ports@
            } else {
                layout.total == 2 && layout.channels@ == seq![2u32]
            },
            None => layout.total == 2 && layout.channels@ == seq![2u32],
        },
{
    if let Some(ports) = named {
        let total: u32 = sum_channels(&ports);
        if total > 0 {
            return PortLayout { total: total as usize, channels: ports };
        }
    }
    PortLayout { total: 2, channels: vec![2] }
}

/// The input ports of a plugin that names these; none where it names none.
pub fn input_ports(named: Option<Vec<u32>>) -> (layout: PortLayout)
    requires
        named matches Some(ports) ==> channel_sum(ports@, ports@.len() as int) <= u32::MAX,
    ensures
        match named {
            Some(ports) => layout.total == channel_sum(ports@, ports@.len() as int) && layout.channels@ == ports@,
            None => layout.total == 0 && layout.channels@.len() == 0,
        },
{
    match named {
        Some(ports) => {
            let total: u32 = sum_channels(&ports);
            PortLayout { total: total as usize, channels: ports }
        },
        None => PortLayout { total: 0, channels: Vec::new() },
    }
}

/// Where the channels of port `index` begin among all of them, and how many they are.
pub open spec fn port_span(ports: Seq<u32>, index: int) -> (usize, usize) {
    (channel_sum(ports, index) as usize, ports[index] as usize)
}

/// Where the channels of each port begin, and how many they are: one port after the other.
pub fn port_spans(ports: &Vec<u32>) -> (spans: Vec<(usize, usize)>)
    requires
        channel_sum(ports@, ports@.len() as int) <= u32::MAX,
    ensures
        spans@.len() == ports@.len(),
        forall|i: int| 0 <= i < ports@.len() ==> #[trigger] spans@[i] == port_span(ports@, i),
{
    let mut spans: Vec<(usize, usize)> = Vec::new();
    let mut start: usize = 0;
    let mut i: usize = 0;
    while i < ports.len()
        invariant
            i <= ports@.len(),
            channel_sum(ports@, ports@.len() as int) <= u32::MAX,
            start == channel_sum(ports@, i as int),
            spans@.len() == i,
            forall|k: int| 0 <= k < i ==> #[trigger] spans@[k] == port_span(ports@, k),
        decreases ports@.len() - i,
    {
        proof {
            lemma_sum_grows(ports@, i + 1, ports@.len() as int);
        }
        spans.push((start, ports[i] as usize));
        start = start + ports[i] as usize;
        i = i + 1;
    }
    spans
}

// ---------------------------------------------------------------------------
// Finding a plugin
// ---------------------------------------------------------------------------

/// Where a CLAP plugin is loaded from.
#[derive(Debug)]
pub enum ClapSource {
    /// The plugin with this identifier, in one of the installed bundles.
    Id(String),
    /// The first plugin of the bundle at this path.
    Path(String),
}

/// Where a CLAP plugin is loaded from.
pub fn source_kind(source: &str) -> (kind: ClapSource)
    ensures
        if "clap:"@.is_prefix_of(source@) {
            kind matches ClapSource::Id(id) && id@ == source@.skip("clap:"@.len() as int)
        } else {
            kind matches ClapSource::Path(path) && path@ == source@
        },
{
    if starts_with(source, "clap:") {
        ClapSource::Id(source.substring_char("clap:".unicode_len(), source.unicode_len()).to_owned())
    } else {
        ClapSource::Path(source.to_owned())
    }
}

/// The first plugin from `from` on with this identifier; some have none.
pub open spec fn plugin_with_id(ids: Seq<Option<String>>, id: Seq<char>, from: int) -> Option<int>
    decreases ids.len() - from,
{
    if from >= ids.len() {
        None
    } else if ids[from] matches Some(own) && own@ == id {
        Some(from)
    } else {
        plugin_with_id(ids, id, from + 1)
    }
}

/// The first plugin of a bundle with this identifier.
pub fn find_plugin(ids: &Vec<Option<String>>, id: &str) -> (index: Option<usize>)
    ensures
        match index {
            Some(i) => plugin_with_id(ids@, id@, 0) == Some(i as int) && i < ids@.len(),
            None => plugin_with_id(ids@, id@, 0) is None,
        },
{
    let mut i: usize = 0;
    while i < ids.len()
        invariant
            i <= ids@.len(),
            plugin_with_id(ids@, id@, 0) == plugin_with_id(ids@, id@, i as int),
        decreases ids@.len() - i,
    {
        if let Some(own) = &ids[i] {
            if same(own.as_str(), id) {
                return Some(i);
            }
        }
        i = i + 1;
    }
    None
}

/// The name of a plugin: its own, or its identifier.
pub fn plugin_name(name: Option<String>, id: &str) -> (shown: String)
    ensures
        shown@ == (match name {
            Some(name) => name@,
            None => id@,
        }),
{
    match name {
        Some(name) => name,
        None => id.to_owned(),
    }
}

// ---------------------------------------------------------------------------
// Parameters
// ---------------------------------------------------------------------------

/// A parameter as a plugin tells it.
#[derive(Debug)]
pub struct RawParam<F> {
    pub id: u32,
    pub name: String,
    pub min: F,
    pub max: F,
    pub default: F,
}

/// The places among the first `count` at which a plugin tells something.
pub open spec fn told<F>(raw: Seq<Option<RawParam<F>>>, count: int) -> Seq<int>
    decreases count,
{
    if count <= 0 {
        Seq::empty()
    } else if raw[count - 1] is Some {
        told(raw, count - 1).push(count - 1)
    } else {
        told(raw, count - 1)
    }
}

/// What is kept of a parameter, told at place `at`.
pub open spec fn keeps_param<F>(p: ParameterInfo<F>, raw: RawParam<F>, at: int) -> bool {
    &&& p.index == at
    &&& p.name@ == raw.name@
    &&& p.min == raw.min
    &&& p.max == raw.max
    &&& p.default == raw.default
}

/// The parameters that a plugin tells, numbered by the place at which it tells them, and their
/// identifiers in a row.
pub fn collect_params<F: Copy>(raw: &Vec<Option<RawParam<F>>>) -> (r: (Vec<ParameterInfo<F>>, Vec<u32>))
    requires
        raw@.len() <= u32::MAX,
    ensures
        ({
            let places = told(raw@, raw@.len() as int);
            &&& r.0@.len() == places.len()
            &&& r.1@.len() == places.len()
            &&& forall|i: int|
                0 <= i < places.len() ==> keeps_param(#[trigger] r.0@[i], raw@[places[i]]->0, places[i])
            &&& forall|i: int| 0 <= i < places.len() ==> #[trigger] r.1@[i] == (raw@[places[i]]->0).id
        }),
{
    let mut params: Vec<ParameterInfo<F>> = Vec::new();
    let mut ids: Vec<u32> = Vec::new();
    let mut i: usize = 0;
    while i < raw.len()
        invariant
            i <= raw@.len() <= u32::MAX,
            params@.len() == told(raw@, i as int).len(),
            ids@.len() == params@.len(),
            forall|k: int|
                0 <= k < params@.len() ==> keeps_param(
                    #[trigger] params@[k],
                    raw@[told(raw@, i as int)[k]]->0,
                    told(raw@, i as int)[k],
                ),
            forall|k: int| 0 <= k < ids@.len() ==> #[trigger] ids@[k] == (raw@[told(raw@, i as int)[k]]->0).id,
        decreases raw@.len() - i,
    {
        let ghost before = told(raw@, i as int);
        if let Some(p) = &raw[i] {
            ids.push(p.id);
            params.push(
                ParameterInfo { index: i as u32, name: p.name.clone(), min: p.min, max: p.max, default: p.default },
            );
            assert(told(raw@, i + 1) == before.push(i as int));
        }
        i = i + 1;
    }
    (params, ids)
}

// ---------------------------------------------------------------------------
// Presets
// ---------------------------------------------------------------------------

/// A preset as a plugin tells it, and where it was found: in the plugin, or in a file.
#[derive(Debug)]
pub struct FoundPreset {
    pub name: Option<String>,
    pub load_key: Option<String>,
    pub file_path: Option<String>,
}

/// Where a preset is loaded from.
#[derive(Debug)]
pub struct PresetData {
    pub is_plugin_location: bool,
    pub file_path: Option<String>,
    pub load_key: Option<String>,
}

/// The name of a preset that may have none.
pub open spec fn preset_name(name: Option<String>) -> Seq<char> {
    match name {
        Some(name) => name@,
        None => "Unknown"@,
    }
}

/// Lists the presets that were found; the identifier of each is its number.
pub fn list_presets(found: &Vec<FoundPreset>) -> (r: (Vec<Preset>, Vec<PresetData>))
    ensures
        r.0@.len() == found@.len(),
        r.1@.len() == found@.len(),
        forall|i: int|
            0 <= i < found@.len() ==> (#[trigger] r.0@[i]).name@ == preset_name(found@[i].name) && r.0@[i].id@ == decimal(
                i as nat,
            ),
        forall|i: int|
            0 <= i < found@.len() ==> #[trigger] r.1@[i] == (PresetData {
                is_plugin_location: found@[i].file_path is None,
                file_path: found@[i].file_path,
                load_key: found@[i].load_key,
            }),
{
    let mut presets: Vec<Preset> = Vec::new();
    let mut data: Vec<PresetData> = Vec::new();
    let mut i: usize = 0;
    while i < found.len()
        invariant
            i <= found@.len(),
            presets@.len() == i,
            data@.len() == i,
            forall|k: int|
                0 <= k < i ==> (#[trigger] presets@[k]).name@ == preset_name(found@[k].name) && presets@[k].id@
                    == decimal(k as nat),
            forall|k: int|
                0 <= k < i ==> #[trigger] data@[k] == (PresetData {
                    is_plugin_location: found@[k].file_path is None,
                    file_path: found@[k].file_path,
                    load_key: found@[k].load_key,
                }),
        decreases found@.len() - i,
    {
        let f = &found[i];
        let name = match &f.name {
            Some(name) => name.clone(),
            None => "Unknown".to_owned(),
        };
        let mut id = String::new();
        push_decimal(&mut id, i as u64);
        presets.push(Preset { name, id });
        let file_path = match &f.file_path {
            Some(path) => Some(path.clone()),
            None => None,
        };
        let load_key = match &f.load_key {
            Some(key) => Some(key.clone()),
            None => None,
        };
        data.push(PresetData { is_plugin_location: f.file_path.is_none(), file_path, load_key });
        i = i + 1;
    }
    (presets, data)
}

/// Why a preset cannot be loaded.
#[derive(Clone, Copy, Debug, PartialEq, Eq, Structural)]
pub enum LoadFault {
    InvalidId,
    OutOfRange,
    Unsupported,
    InvalidKey,
    InvalidPath,
    NoLocation,
}

impl LoadFault {
    /// The fault in words.
    pub open spec fn text(self, id: Seq<char>) -> Seq<char> {
        match self {
            LoadFault::InvalidId => "Invalid preset ID: "@ + id,
            LoadFault::OutOfRange => "Preset index out of range: "@ + id,
            LoadFault::Unsupported => "Plugin does not support preset loading"@,
            LoadFault::InvalidKey => "Invalid load key"@,
            LoadFault::InvalidPath => "Invalid file path"@,
            LoadFault::NoLocation => "Preset has no location"@,
        }
    }

    /// The fault in words.
    pub fn message(self, id: &str) -> (text: String)
        ensures
            text@ == self.text(id@),
    {
        match self {
            LoadFault::InvalidId => {
                let mut text = "Invalid preset ID: ".to_owned();
                text.append(id);
                text
            },
            LoadFault::OutOfRange => {
                let mut text = "Preset index out of range: ".to_owned();
                text.append(id);
                text
            },
            LoadFault::Unsupported => "Plugin does not support preset loading".to_owned(),
            LoadFault::InvalidKey => "Invalid load key".to_owned(),
            LoadFault::InvalidPath => "Invalid file path".to_owned(),
            LoadFault::NoLocation => "Preset has no location".to_owned(),
        }
    }
}

/// Whether a text that may be missing can end in a zero: it holds none itself.
pub open spec fn zero_free(text: Option<String>) -> bool {
    match text {
        Some(text) => !text@.contains('\0'),
        None => true,
    }
}

/// Which preset an identifier means, where it can be loaded.
pub open spec fn preset_choice(id: Seq<char>, data: Seq<PresetData>, supported: bool) -> Result<usize, LoadFault> {
    match usize_value(id) {
        None => Err(LoadFault::InvalidId),
        Some(i) => if i >= data.len() {
            Err(LoadFault::OutOfRange)
        } else if !supported {
            Err(LoadFault::Unsupported)
        } else if !zero_free(data[i as int].load_key) {
            Err(LoadFault::InvalidKey)
        } else if !zero_free(data[i as int].file_path) {
            Err(LoadFault::InvalidPath)
        } else if !data[i as int].is_plugin_location && data[i as int].file_path is None {
            Err(LoadFault::NoLocation)
        } else {
            Ok(i)
        },
    }
}

fn is_zero_free(text: &Option<String>) -> (r: bool)
    ensures
        r == zero_free(*text),
{
    match text {
        Some(text) => !has_char(text.as_str(), '\0'),
        None => true,
    }
}

/// Which preset an identifier means, where it can be loaded; `supported` says whether the plugin
/// loads presets.
pub fn choose_preset(id: &str, data: &Vec<PresetData>, supported: bool) -> (choice: Result<usize, LoadFault>)
    ensures
        choice == preset_choice(id@, data@, supported),
{
    let i: usize = match parse_usize(id) {
        Some(i) => i,
        None => return Err(LoadFault::InvalidId),
    };
    if i >= data.len() {
        return Err(LoadFault::OutOfRange);
    }
    if !supported {
        return Err(LoadFault::Unsupported);
    }
    if !is_zero_free(&data[i].load_key) {
        return Err(LoadFault::InvalidKey);
    }
    if !is_zero_free(&data[i].file_path) {
        return Err(LoadFault::InvalidPath);
    }
    if !data[i].is_plugin_location && data[i].file_path.is_none() {
        return Err(LoadFault::NoLocation);
    }
    Ok(i)
}

/// Whether a file is looked into for presets: its extension is one that was declared, or none was.
pub open spec fn looked_into(extension: Option<&str>, declared: Seq<String>) -> bool {
    declared.len() == 0 || (extension matches Some(ext) && exists|i: int|
        0 <= i < declared.len() && #[trigger] declared[i]@ == ext@)
}

/// Whether a file is looked into for presets.
pub fn is_preset_file(extension: Option<&str>, declared: &Vec<String>) -> (r: bool)
    ensures
        r == looked_into(extension, declared@),
{
    if declared.len() == 0 {
        return true;
    }
    let ext = match extension {
        Some(ext) => ext,
        None => return false,
    };
    let mut i: usize = 0;
    while i < declared.len()
        invariant
            i <= declared@.len(),
            extension == Some(ext),
            declared@.len() > 0,
            forall|k: int| 0 <= k < i ==> #[trigger] declared@[k]@ != ext@,
        decreases declared@.len() - i,
    {
        if same(declared[i].as_str(), ext) {
            assert(declared@[i as int]@ == ext@);
            return true;
        }
        i = i + 1;
    }
    false
}

// ---------------------------------------------------------------------------
// Parameters
// ---------------------------------------------------------------------------

/// The identifier of the parameter at an index.
pub fn param_id(ids: &Vec<u32>, index: u32) -> (id: Option<u32>)
    ensures
        id == (if index < ids@.len() {
            Some(ids@[index as int])
        } else {
            None
        }),
{
    if (index as usize) < ids.len() {
        Some(ids[index as usize])
    } else {
        None
    }
}

// ---------------------------------------------------------------------------
// Laws
// ---------------------------------------------------------------------------

/// A preset that is listed is found again by its identifier, unless its texts hold zeros.
pub proof fn listed_presets_are_found(data: Seq<PresetData>, index: usize)
    requires
        index < data.len(),
        zero_free(data[index as int].load_key),
        zero_free(data[index as int].file_path),
        data[index as int].is_plugin_location == (data[index as int].file_path is None),
    ensures
        preset_choice(decimal(index as nat), data, true) == Ok::<usize, LoadFault>(index),
{
    crate::text::decimal_round_trip(index as nat);
}

} // verus!
