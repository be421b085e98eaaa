//! Tells from a source string which kind of plugin it names.
use vstd::prelude::*;

use crate::plugin::PluginType;
use crate::text::{ends_with, has_char, starts_with};

verus! {

/// Why a source names no plugin that can be loaded.
#[derive(Clone, Copy, Debug, PartialEq, Eq, Structural)]
pub enum ResolveFault {
    /// It names an LV2 plugin, and LV2 is not supported.
    Lv2Disabled,
    /// It has none of the known forms.
    Unknown,
}

/// A source that names no plugin that can be loaded.
#[derive(Debug)]
pub struct ResolveError {
    pub fault: ResolveFault,
    pub source: String,
}

/// An LV2 plugin under this source, where LV2 is supported.
pub open spec fn lv2_resolution(source: Seq<char>, lv2: bool) -> Result<(PluginType, Seq<char>), ResolveFault> {
    if lv2 {
        Ok((PluginType::Lv2, source))
    } else {
        Err(ResolveFault::Lv2Disabled)
    }
}

/// The plugin type and normalized source that a source stands for.
///
/// Prefixes go first, then the extensions of bundles, then URIs, and last a name with dots and
/// without slashes.
pub open spec fn resolution(source: Seq<char>, lv2: bool) -> Result<(PluginType, Seq<char>), ResolveFault> {
    if "lv2:"@.is_prefix_of(source) {
        lv2_resolution(source, lv2)
    } else if "clap:"@.is_prefix_of(source) {
        Ok((PluginType::Clap, source))
    } else if ".lv2"@.is_suffix_of(source) || ".lv2/"@.is_suffix_of(source) {
        lv2_resolution(source, lv2)
    } else if ".clap"@.is_suffix_of(source) || ".clap/"@.is_suffix_of(source) {
        Ok((PluginType::Clap, source))
    } else if "http://"@.is_prefix_of(source) || "https://"@.is_prefix_of(source) || "urn:"@.is_prefix_of(source) {
        lv2_resolution("lv2:"@ + source, lv2)
    } else if source.contains('.') && !source.contains('/') {
        Ok((PluginType::Clap, "clap:"@ + source))
    } else {
        Err(ResolveFault::Unknown)
    }
}

/// Whether resolving `source` gives `r`.
pub open spec fn resolution_matches(
    r: Result<(PluginType, String), ResolveError>,
    source: Seq<char>,
    lv2: bool,
) -> bool {
    match r {
        Ok((plugin_type, resolved)) => resolution(source, lv2) == Ok::<(PluginType, Seq<char>), ResolveFault>(
            (plugin_type, resolved@),
        ),
        Err(e) => resolution(source, lv2) == Err::<(PluginType, Seq<char>), ResolveFault>(e.fault) && e.source@
            == source,
    }
}

/// An LV2 plugin under `resolved`, where LV2 is supported.
fn lv2_resolve(source: &str, resolved: String, lv2: bool) -> (r: Result<(PluginType, String), ResolveError>)
    ensures
        match r {
            Ok((plugin_type, text)) => lv2 && plugin_type == PluginType::Lv2 && text == resolved,
            Err(e) => !lv2 && e.fault == ResolveFault::Lv2Disabled && e.source@ == source@,
        },
{
    if lv2 {
        Ok((PluginType::Lv2, resolved))
    } else {
        Err(ResolveError { fault: ResolveFault::Lv2Disabled, source: source.to_owned() })
    }
}

/// Resolves a source into a plugin type and a normalized source; `lv2` says whether LV2 is
/// supported.
///
/// Known forms: `lv2:<URI>`, `clap:<ID>`, paths to `.lv2` and `.clap` bundles, `http:`, `https:` and
/// `urn:` URIs for LV2, and reverse-domain names for CLAP.
pub fn resolve(source: &str, lv2: bool) -> (r: Result<(PluginType, String), ResolveError>)
    ensures
        resolution_matches(r, source@, lv2),
{
    if starts_with(source, "lv2:") {
        return lv2_resolve(source, source.to_owned(), lv2);
    }
    if starts_with(source, "clap:") {
        return Ok((PluginType::Clap, source.to_owned()));
    }
    if ends_with(source, ".lv2") || ends_with(source, ".lv2/") {
        return lv2_resolve(source, source.to_owned(), lv2);
    }
    if ends_with(source, ".clap") || ends_with(source, ".clap/") {
        return Ok((PluginType::Clap, source.to_owned()));
    }
    if starts_with(source, "http://") || starts_with(source, "https://") || starts_with(source, "urn:") {
        let mut resolved = "lv2:".to_owned();
        resolved.append(source);
        return lv2_resolve(source, resolved, lv2);
    }
    if has_char(source, '.') && !has_char(source, '/') {
        let mut resolved = "clap:".to_owned();
        resolved.append(source);
        return Ok((PluginType::Clap, resolved));
    }
    Err(ResolveError { fault: ResolveFault::Unknown, source: source.to_owned() })
}

impl ResolveError {
    /// The error in words.
    pub open spec fn text(self) -> Seq<char> {
        match self.fault {
            ResolveFault::Lv2Disabled => "LV2 support is not enabled (compile with --features lv2)"@,
            ResolveFault::Unknown => "Unknown plugin format: "@ + self.source@ + KNOWN_FORMATS@,
        }
    }

    /// The error in words.
    pub fn message(&self) -> (text: String)
        ensures
            text@ == self.text(),
    {
        match self.fault {
            ResolveFault::Lv2Disabled => "LV2 support is not enabled (compile with --features lv2)".to_owned(),
            ResolveFault::Unknown => {
                let mut text = "Unknown plugin format: ".to_owned();
                text.append(self.source.as_str());
                text.append(KNOWN_FORMATS);
                text
            },
        }
    }
}

/// The forms that a source can have, for the user to read.
pub const KNOWN_FORMATS: &'static str =
    "\nExpected one of:\n  http://…               (LV2 URI)\n  com.vendor.plugin      (CLAP ID)\n  lv2:<URI>              (explicit LV2)\n  clap:<ID>              (explicit CLAP)\n  /path/to/plugin.lv2\n  /path/to/plugin.clap\nRun `tang enumerate plugins` to list available plugins.";

// ---------------------------------------------------------------------------
// Laws
// ---------------------------------------------------------------------------

/// Resolving what a source was resolved to changes nothing more.
pub proof fn resolving_twice_changes_nothing(source: Seq<char>, lv2: bool)
    requires
        resolution(source, lv2) is Ok,
    ensures
        resolution((resolution(source, lv2)->Ok_0).1, lv2) == resolution(source, lv2),
{
    let r = (resolution(source, lv2)->Ok_0).1;
    reveal_strlit("lv2:");
    reveal_strlit("clap:");
    if r != source {
        assert(("lv2:"@ + source).len() != ("clap:"@ + source).len());
        if r == "lv2:"@ + source {
            assert(("lv2:"@ + source).subrange(0, "lv2:"@.len() as int) =~= "lv2:"@);
        } else {
            assert(r == "clap:"@ + source);
            assert(r.subrange(0, "clap:"@.len() as int) =~= "clap:"@);
            assert(r.subrange(0, 4)[0] == 'c');
            assert(!"lv2:"@.is_prefix_of(r));
        }
    }
}

} // verus!
