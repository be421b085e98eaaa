//! What the host knows about plugins: their parameters and presets, and the kinds there are.
use vstd::prelude::*;

use crate::autodetect::{resolution_matches, resolve, ResolveError};
use crate::text::{ends_with, starts_with};

verus! {

/// A plugin parameter.
#[derive(Clone, Debug)]
pub struct ParameterInfo<F> {
    pub index: u32,
    pub name: String,
    pub min: F,
    pub max: F,
    pub default: F,
}

/// A preset of a plugin.
#[derive(Clone, Debug)]
pub struct Preset {
    pub name: String,
    pub id: String,
}

/// What is known of a plugin without loading it.
#[derive(Debug)]
pub struct PluginInfo {
    pub name: String,
    pub id: String,
    pub is_instrument: bool,
    pub param_count: usize,
    pub preset_count: usize,
    pub path: String,
    /// How long it took to find out, in milliseconds.
    pub scan_ms: u64,
}

/// The plugin formats that a source can name.
#[derive(Clone, Copy, Debug, PartialEq, Eq, Structural)]
pub enum PluginType {
    Lv2,
    Clap,
}

/// Where a plugin is loaded from.
#[derive(Debug)]
pub enum LoadRoute {
    /// From the host itself.
    Builtin,
    /// From a VST3 bundle.
    Vst3,
    /// From a plugin of this type, under this resolved source.
    Hosted(PluginType, String),
}

/// Whether a source names a VST3 plugin: by name behind a prefix, or by the path of its bundle.
pub open spec fn names_vst3(source: Seq<char>) -> bool {
    "vst3:"@.is_prefix_of(source) || ".vst3"@.is_suffix_of(source)
}

/// Finds out where the plugin that `source` names is loaded from; `lv2` says whether LV2 is
/// supported.
pub fn load_route(source: &str, lv2: bool) -> (route: Result<LoadRoute, ResolveError>)
    ensures
        match route {
            Ok(LoadRoute::Builtin) => "builtin:"@.is_prefix_of(source@),
            Ok(LoadRoute::Vst3) => !"builtin:"@.is_prefix_of(source@) && names_vst3(source@),
            Ok(LoadRoute::Hosted(plugin_type, resolved)) => !"builtin:"@.is_prefix_of(source@) && !names_vst3(source@)
                && resolution_matches(Ok((plugin_type, resolved)), source@, lv2),
            Err(e) => !"builtin:"@.is_prefix_of(source@) && !names_vst3(source@) && resolution_matches(
                Err(e),
                source@,
                lv2,
            ),
        },
{
    if starts_with(source, "builtin:") {
        return Ok(LoadRoute::Builtin);
    }
    if starts_with(source, "vst3:") || ends_with(source, ".vst3") {
        return Ok(LoadRoute::Vst3);
    }
    match resolve(source, lv2) {
        Ok((plugin_type, resolved)) => Ok(LoadRoute::Hosted(plugin_type, resolved)),
        Err(e) => Err(e),
    }
}

/// The first preset of this name, if there is one.
pub open spec fn preset_named(presets: Seq<Preset>, name: Seq<char>, from: int) -> Option<int>
    decreases presets.len() - from,
{
    if from >= presets.len() {
        None
    } else if presets[from].name@ == name {
        Some(from)
    } else {
        preset_named(presets, name, from + 1)
    }
}

/// The position of the first preset of this name.
pub fn find_preset(presets: &Vec<Preset>, name: &str) -> (found: Option<usize>)
    ensures
        match found {
            Some(i) => preset_named(presets@, name@, 0) == Some(i as int) && i < presets@.len(),
            None => preset_named(presets@, name@, 0) is None,
        },
{
    let n: usize = presets.len();
    let mut i: usize = 0;
    while i < n
        invariant
            i <= n,
            n == presets@.len(),
            preset_named(presets@, name@, 0) == preset_named(presets@, name@, i as int),
        decreases n - i,
    {
        if crate::text::same(presets[i].name.as_str(), name) {
            return Some(i);
        }
        i = i + 1;
    }
    None
}

} // verus!
