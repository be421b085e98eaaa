//! LV2 plugins: where they are loaded from, their parameters and their presets.
use vstd::prelude::*;

use crate::plugin::{ParameterInfo, Preset};
use crate::text::{same, starts_with};

verus! {

/// Where an LV2 plugin is loaded from.
#[derive(Debug)]
pub enum Lv2Source {
    /// By its URI, from what is installed.
    Uri(String),
    /// From the bundle with this URI.
    Bundle(String),
    /// From the bundle at this path.
    Path(String),
}

/// Where an LV2 plugin is loaded from.
pub fn source_kind(source: &str) -> (kind: Lv2Source)
    ensures
        if "lv2:"@.is_prefix_of(source@) {
            kind matches Lv2Source::Uri(uri) && uri@ == source@.skip("lv2:"@.len() as int)
        } else if "file://"@.is_prefix_of(source@) {
            kind matches Lv2Source::Bundle(uri) && uri@ == source@
        } else {
            kind matches Lv2Source::Path(path) && path@ == source@
        },
{
    if starts_with(source, "lv2:") {
        Lv2Source::Uri(source.substring_char("lv2:".unicode_len(), source.unicode_len()).to_owned())
    } else if starts_with(source, "file://") {
        Lv2Source::Bundle(source.to_owned())
    } else {
        Lv2Source::Path(source.to_owned())
    }
}

/// The URI of the bundle at an absolute path.
pub fn bundle_uri(absolute: &str) -> (uri: String)
    ensures
        uri@ == "file://"@ + absolute@ + "/"@,
{
    let mut uri = "file://".to_owned();
    uri.append(absolute);
    uri.append("/");
    uri
}

/// The path of the bundle with a URI; none where it is no file.
pub fn bundle_path(uri: &str) -> (path: String)
    ensures
        path@ == (if "file://"@.is_prefix_of(uri@) {
            uri@.skip("file://"@.len() as int)
        } else {
            Seq::empty()
        }),
{
    if starts_with(uri, "file://") {
        uri.substring_char("file://".unicode_len(), uri.unicode_len()).to_owned()
    } else {
        String::new()
    }
}

/// A control input port.
#[derive(Debug)]
pub struct ControlPort<F> {
    pub index: u32,
    pub name: String,
    pub symbol: String,
    pub min: Option<F>,
    pub max: Option<F>,
    pub default: F,
}

/// The parameter that a port is; a range that is not given is from zero to unity.
pub open spec fn port_param<F>(port: ControlPort<F>, zero: F, unity: F) -> ParameterInfo<F> {
    ParameterInfo {
        index: port.index,
        name: port.name,
        min: match port.min {
            Some(min) => min,
            None => zero,
        },
        max: match port.max {
            Some(max) => max,
            None => unity,
        },
        default: port.default,
    }
}

/// The parameters of a plugin with these ports.
pub fn parameters<F: Copy>(ports: &Vec<ControlPort<F>>, zero: F, unity: F) -> (params: Vec<ParameterInfo<F>>)
    ensures
        params@ == ports@.map_values(|p: ControlPort<F>| port_param(p, zero, unity)),
{
    let mut params: Vec<ParameterInfo<F>> = Vec::new();
    let mut i: usize = 0;
    while i < ports.len()
        invariant
            i <= ports@.len(),
            params@ == ports@.take(i as int).map_values(|p: ControlPort<F>| port_param(p, zero, unity)),
        decreases ports@.len() - i,
    {
        let p = &ports[i];
        let min = match p.min {
            Some(min) => min,
            None => zero,
        };
        let max = match p.max {
            Some(max) => max,
            None => unity,
        };
        params.push(ParameterInfo { index: p.index, name: p.name.clone(), min, max, default: p.default });
        assert(ports@.take(i + 1) =~= ports@.take(i as int).push(ports@[i as int]));
        i = i + 1;
    }
    assert(ports@.take(i as int) =~= ports@);
    params
}

/// The first port from `from` on with this symbol.
pub open spec fn port_with<F>(ports: Seq<ControlPort<F>>, symbol: Seq<char>, from: int) -> Option<u32>
    decreases ports.len() - from,
{
    if from < 0 || from >= ports.len() {
        None
    } else if ports[from].symbol@ == symbol {
        Some(ports[from].index)
    } else {
        port_with(ports, symbol, from + 1)
    }
}

/// The values that the first `count` settings of a preset give to ports; settings of unknown ports
/// are passed over.
pub open spec fn port_values<F>(ports: Seq<ControlPort<F>>, settings: Seq<(String, F)>, count: int) -> Seq<(u32, F)>
    decreases count,
{
    if count <= 0 {
        Seq::empty()
    } else {
        let rest = port_values(ports, settings, count - 1);
        match port_with(ports, settings[count - 1].0@, 0) {
            Some(index) => rest.push((index, settings[count - 1].1)),
            None => rest,
        }
    }
}

fn find_port<F>(ports: &Vec<ControlPort<F>>, symbol: &str) -> (index: Option<u32>)
    ensures
        index == port_with(ports@, symbol@, 0),
{
    let mut i: usize = 0;
    while i < ports.len()
        invariant
            i <= ports@.len(),
            port_with(ports@, symbol@, 0) == port_with(ports@, symbol@, i as int),
        decreases ports@.len() - i,
    {
        if same(ports[i].symbol.as_str(), symbol) {
            return Some(ports[i].index);
        }
        i = i + 1;
    }
    None
}

/// The values that the settings of a preset give to ports.
pub fn preset_values<F: Copy>(ports: &Vec<ControlPort<F>>, settings: &Vec<(String, F)>) -> (values: Vec<(u32, F)>)
    ensures
        values@ == port_values(ports@, settings@, settings@.len() as int),
{
    let mut values: Vec<(u32, F)> = Vec::new();
    let mut i: usize = 0;
    while i < settings.len()
        invariant
            i <= settings@.len(),
            values@ == port_values(ports@, settings@, i as int),
        decreases settings@.len() - i,
    {
        let (symbol, value) = &settings[i];
        if let Some(index) = find_port(ports, symbol.as_str()) {
            values.push((index, *value));
        }
        i = i + 1;
    }
    values
}

/// A preset with this URI: its label is its name, else its URI. Without a URI it is none.
pub fn name_preset(uri: Option<&str>, label: Option<&str>) -> (preset: Option<Preset>)
    ensures
        match uri {
            Some(uri) => if uri@.len() == 0 {
                preset is None
            } else {
                preset matches Some(p) && p.id@ == uri@ && p.name@ == match label {
                    Some(label) => label@,
                    None => uri@,
                }
            },
            None => preset is None,
        },
{
    let uri = match uri {
        Some(uri) => uri,
        None => return None,
    };
    if uri.unicode_len() == 0 {
        return None;
    }
    let name = match label {
        Some(label) => label.to_owned(),
        None => uri.to_owned(),
    };
    Some(Preset { name, id: uri.to_owned() })
}

/// The first preset from `from` on with this identifier.
pub open spec fn preset_with(presets: Seq<Preset>, id: Seq<char>, from: int) -> Option<int>
    decreases presets.len() - from,
{
    if from < 0 || from >= presets.len() {
        None
    } else if presets[from].id@ == id {
        Some(from)
    } else {
        preset_with(presets, id, from + 1)
    }
}

/// The first preset with this identifier.
pub fn find_preset_id(presets: &Vec<Preset>, id: &str) -> (index: Option<usize>)
    ensures
        match index {
            Some(i) => preset_with(presets@, id@, 0) == Some(i as int) && i < presets@.len(),
            None => preset_with(presets@, id@, 0) is None,
        },
{
    let mut i: usize = 0;
    while i < presets.len()
        invariant
            i <= presets@.len(),
            preset_with(presets@, id@, 0) == preset_with(presets@, id@, i as int),
        decreases presets@.len() - i,
    {
        if same(presets[i].id.as_str(), id) {
            return Some(i);
        }
        i = i + 1;
    }
    None
}

} // verus!
