//! User configuration: extra directories to look for plugins in.
use vstd::prelude::*;

verus! {

/// The configuration file.
#[derive(Debug)]
pub struct Config {
    pub plugin_paths: PluginPaths,
}

/// Extra directories, by plugin format.
#[derive(Debug)]
pub struct PluginPaths {
    pub clap: Vec<String>,
    pub vst3: Vec<String>,
    pub lv2: Vec<String>,
}

/// Holds the configuration once it is known. The first one to be set stays.
#[derive(Debug)]
pub struct ConfigCell {
    pub config: Option<Config>,
}

impl Default for PluginPaths {
    fn default() -> (p: Self)
        ensures
            p.clap@.len() == 0,
            p.vst3@.len() == 0,
            p.lv2@.len() == 0,
    {
        PluginPaths { clap: Vec::new(), vst3: Vec::new(), lv2: Vec::new() }
    }
}

impl Default for Config {
    fn default() -> (c: Self)
        ensures
            c.plugin_paths.clap@.len() == 0,
            c.plugin_paths.vst3@.len() == 0,
            c.plugin_paths.lv2@.len() == 0,
    {
        Config { plugin_paths: PluginPaths::default() }
    }
}

impl ConfigCell {
    /// Nothing is known yet.
    pub fn new() -> (c: Self)
        ensures
            c.config is None,
    {
        ConfigCell { config: None }
    }

    /// The extra CLAP directories; none where nothing is known.
    pub open spec fn clap_paths(self) -> Seq<String> {
        match self.config {
            Some(c) => c.plugin_paths.clap@,
            None => Seq::empty(),
        }
    }

    /// The extra VST3 directories; none where nothing is known.
    pub open spec fn vst3_paths(self) -> Seq<String> {
        match self.config {
            Some(c) => c.plugin_paths.vst3@,
            None => Seq::empty(),
        }
    }

    /// The extra LV2 directories; none where nothing is known.
    pub open spec fn lv2_paths(self) -> Seq<String> {
        match self.config {
            Some(c) => c.plugin_paths.lv2@,
            None => Seq::empty(),
        }
    }

    /// Sets the configuration, unless one is set already.
    pub fn init(&mut self, config: Config)
        ensures
            *final(self) == (if old(self).config is Some {
                *old(self)
            } else {
                ConfigCell { config: Some(config) }
            }),
    {
        if self.config.is_none() {
            self.config = Some(config);
        }
    }

    /// Extra directories for CLAP plugins.
    pub fn extra_clap_paths(&self) -> (paths: &[String])
        ensures
            paths@ == self.clap_paths(),
    {
        match &self.config {
            Some(c) => c.plugin_paths.clap.as_slice(),
            None => &[],
        }
    }

    /// Extra directories for VST3 plugins.
    pub fn extra_vst3_paths(&self) -> (paths: &[String])
        ensures
            paths@ == self.vst3_paths(),
    {
        match &self.config {
            Some(c) => c.plugin_paths.vst3.as_slice(),
            None => &[],
        }
    }

    /// Extra directories for LV2 plugins.
    pub fn extra_lv2_paths(&self) -> (paths: &[String])
        ensures
            paths@ == self.lv2_paths(),
    {
        match &self.config {
            Some(c) => c.plugin_paths.lv2.as_slice(),
            None => &[],
        }
    }
}

/// The paths joined by colons.
pub open spec fn joined(paths: Seq<String>, count: int) -> Seq<char>
    decreases count,
{
    if count <= 0 {
        Seq::empty()
    } else if count == 1 {
        paths[0]@
    } else {
        joined(paths, count - 1) + ":"@ + paths[count - 1]@
    }
}

/// A search path in the form of an environment variable: the extra directories, then what is set
/// already. None where there are no extra directories.
pub fn search_path(extra: &[String], current: &str) -> (path: Option<String>)
    ensures
        match path {
            Some(p) => extra@.len() > 0 && p@ == (if current@.len() == 0 {
                joined(extra@, extra@.len() as int)
            } else {
                joined(extra@, extra@.len() as int) + ":"@ + current@
            }),
            None => extra@.len() == 0,
        },
{
    let n: usize = extra.len();
    if n == 0 {
        return None;
    }
    let mut path = extra[0].as_str().to_owned();
    let mut i: usize = 1;
    while i < n
        invariant
            1 <= i <= n,
            n == extra@.len(),
            path@ == joined(extra@, i as int),
        decreases n - i,
    {
        path.append(":");
        path.append(extra[i].as_str());
        i = i + 1;
    }
    if !current.is_empty() {
        path.append(":");
        path.append(current);
    }
    Some(path)
}

} // verus!
