//! Laws of how plugins, files and devices are named and found.
use vstd::prelude::*;

use crate::audio::{device_named, padded_input, refilled};
use crate::autodetect::{resolution, ResolveFault};
use crate::builtin::{builtin_name, builtin_named, BuiltinKind, Waveform};
use crate::formats::vst3::{binary_dir, binary_ending, search_dirs};
use crate::paths::{absolute, joined, System};
use crate::plugin::PluginType;
use crate::session::resolved_plugin;
use crate::startup::config_place;
use crate::text::has_part;

verus! {

// ---------------------------------------------------------------------------
// Plugin sources
// ---------------------------------------------------------------------------

/// A source that says what it is is taken at its word: behind "lv2:" it is an LV2 plugin, behind
/// "clap:" a CLAP plugin, and it stays as it is. LV2 plugins are refused where LV2 is not supported.
pub proof fn explicit_sources_are_taken_at_their_word(name: Seq<char>)
    ensures
        resolution("lv2:"@ + name, true) == Ok::<(PluginType, Seq<char>), ResolveFault>(
            (PluginType::Lv2, "lv2:"@ + name),
        ),
        resolution("lv2:"@ + name, false) == Err::<(PluginType, Seq<char>), ResolveFault>(ResolveFault::Lv2Disabled),
        forall|lv2: bool| #[trigger] resolution("clap:"@ + name, lv2) == Ok::<(PluginType, Seq<char>), ResolveFault>(
            (PluginType::Clap, "clap:"@ + name),
        ),
{
    reveal_strlit("lv2:");
    reveal_strlit("clap:");
    let a = "lv2:"@ + name;
    let b = "clap:"@ + name;
    assert(a.subrange(0, 4) =~= "lv2:"@);
    assert(b.subrange(0, 5) =~= "clap:"@);
    assert(b.subrange(0, 4)[0] == 'c');
    assert(!"lv2:"@.is_prefix_of(b));
}

/// The path of a bundle names a plugin of the bundle's kind and stays as it is.
pub proof fn bundles_are_known_by_their_ending(path: Seq<char>, lv2: bool)
    requires
        path.len() > 0,
        path[0] == '/',
    ensures
        resolution(path + ".clap"@, lv2) == Ok::<(PluginType, Seq<char>), ResolveFault>(
            (PluginType::Clap, path + ".clap"@),
        ),
        resolution(path + ".lv2"@, true) == Ok::<(PluginType, Seq<char>), ResolveFault>(
            (PluginType::Lv2, path + ".lv2"@),
        ),
        resolution(path + ".lv2"@, false) == Err::<(PluginType, Seq<char>), ResolveFault>(ResolveFault::Lv2Disabled),
{
    reveal_strlit("lv2:");
    reveal_strlit("clap:");
    reveal_strlit(".lv2");
    reveal_strlit(".lv2/");
    reveal_strlit(".clap");
    let a = path + ".clap"@;
    let b = path + ".lv2"@;
    assert(a[0] == '/' && b[0] == '/');
    assert("lv2:"@[0] == 'l' && "clap:"@[0] == 'c');
    assert(!"lv2:"@.is_prefix_of(a)) by {
        if "lv2:"@.is_prefix_of(a) {
            assert(a.subrange(0, 4)[0] == 'l');
        }
    }
    assert(!"clap:"@.is_prefix_of(a)) by {
        if "clap:"@.is_prefix_of(a) {
            assert(a.subrange(0, 5)[0] == 'c');
        }
    }
    assert(!"lv2:"@.is_prefix_of(b)) by {
        if "lv2:"@.is_prefix_of(b) {
            assert(b.subrange(0, 4)[0] == 'l');
        }
    }
    assert(!"clap:"@.is_prefix_of(b)) by {
        if "clap:"@.is_prefix_of(b) {
            assert(b.subrange(0, 5)[0] == 'c');
        }
    }
    assert(a.subrange(a.len() - 5, a.len() as int) =~= ".clap"@);
    assert(b.subrange(b.len() - 4, b.len() as int) =~= ".lv2"@);
    assert(a.last() == 'p');
    assert(!".lv2"@.is_suffix_of(a)) by {
        if ".lv2"@.is_suffix_of(a) {
            assert(a.subrange(a.len() - 4, a.len() as int)[3] == '2');
        }
    }
    assert(!".lv2/"@.is_suffix_of(a)) by {
        if ".lv2/"@.is_suffix_of(a) {
            assert(a.subrange(a.len() - 5, a.len() as int)[4] == '/');
        }
    }
}

/// A name with dots, without slashes and colons, is the identifier of a CLAP plugin, unless it ends
/// like a bundle. A plain word names nothing.
pub proof fn dotted_names_are_clap_identifiers(source: Seq<char>, lv2: bool)
    requires
        !source.contains('/'),
        !source.contains(':'),
    ensures
        source.contains('.') && !".lv2"@.is_suffix_of(source) && !".clap"@.is_suffix_of(source) ==> resolution(
            source,
            lv2,
        ) == Ok::<(PluginType, Seq<char>), ResolveFault>((PluginType::Clap, "clap:"@ + source)),
        !source.contains('.') ==> resolution(source, lv2) == Err::<(PluginType, Seq<char>), ResolveFault>(
            ResolveFault::Unknown,
        ),
{
    reveal_strlit("lv2:");
    reveal_strlit("clap:");
    reveal_strlit("http://");
    reveal_strlit("https://");
    reveal_strlit("urn:");
    reveal_strlit(".lv2");
    reveal_strlit(".clap");
    reveal_strlit(".lv2/");
    reveal_strlit(".clap/");
    lemma_prefix_inside("lv2:"@, source, 3);
    lemma_prefix_inside("clap:"@, source, 4);
    lemma_prefix_inside("http://"@, source, 4);
    lemma_prefix_inside("https://"@, source, 5);
    lemma_prefix_inside("urn:"@, source, 3);
    lemma_suffix_inside(".lv2"@, source, 0);
    lemma_suffix_inside(".clap"@, source, 0);
    lemma_suffix_inside(".lv2/"@, source, 4);
    lemma_suffix_inside(".clap/"@, source, 5);
}

proof fn lemma_prefix_inside(part: Seq<char>, text: Seq<char>, i: int)
    requires
        0 <= i < part.len(),
    ensures
        part.is_prefix_of(text) ==> text.contains(part[i]),
{
    if part.is_prefix_of(text) {
        assert(text.subrange(0, part.len() as int)[i] == text[i]);
    }
}

proof fn lemma_suffix_inside(part: Seq<char>, text: Seq<char>, i: int)
    requires
        0 <= i < part.len(),
    ensures
        part.is_suffix_of(text) ==> text.contains(part[i]),
{
    if part.is_suffix_of(text) {
        let from = text.len() - part.len();
        assert(text.subrange(from, text.len() as int)[i] == text[from + i]);
    }
}

/// An address is that of an LV2 plugin, unless it ends like a bundle.
pub proof fn addresses_are_lv2_plugins(rest: Seq<char>)
    requires
        !".lv2"@.is_suffix_of("http://"@ + rest),
        !".lv2/"@.is_suffix_of("http://"@ + rest),
        !".clap"@.is_suffix_of("http://"@ + rest),
        !".clap/"@.is_suffix_of("http://"@ + rest),
    ensures
        resolution("http://"@ + rest, true) == Ok::<(PluginType, Seq<char>), ResolveFault>(
            (PluginType::Lv2, "lv2:"@ + ("http://"@ + rest)),
        ),
        resolution("http://"@ + rest, false) == Err::<(PluginType, Seq<char>), ResolveFault>(ResolveFault::Lv2Disabled),
{
    reveal_strlit("lv2:");
    reveal_strlit("clap:");
    reveal_strlit("http://");
    let source = "http://"@ + rest;
    assert(source.subrange(0, 7) =~= "http://"@);
    assert(source.subrange(0, 4)[0] == 'h');
    assert(source.subrange(0, 5)[0] == 'h');
}

/// The built-in plugins answer to their names, with and without "builtin:" in front; each waveform
/// to the source that loads it.
pub proof fn builtins_answer_to_their_names(w: Waveform, name: Seq<char>)
    ensures
        builtin_named(builtin_name(w.source())) == Some(BuiltinKind::Oscillator(w)),
        builtin_name("builtin:"@ + name) == name,
        builtin_named("reverb"@) == Some(BuiltinKind::Reverb),
        builtin_named("filter"@) == Some(BuiltinKind::Filter),
        builtin_named("osc"@) == Some(BuiltinKind::Oscillator(Waveform::Sine)),
        builtin_named("sine"@) == Some(BuiltinKind::Oscillator(Waveform::Sine)),
        builtin_named("triangle"@) == Some(BuiltinKind::Oscillator(Waveform::Triangle)),
        builtin_named("square"@) == Some(BuiltinKind::Oscillator(Waveform::Square)),
{
    reveal_strlit("builtin:");
    reveal_strlit("builtin:sine");
    reveal_strlit("builtin:triangle");
    reveal_strlit("builtin:square");
    reveal_strlit("osc");
    reveal_strlit("oscillator");
    reveal_strlit("sine");
    reveal_strlit("triangle");
    reveal_strlit("square");
    reveal_strlit("reverb");
    reveal_strlit("filter");
    let s = "builtin:"@ + name;
    assert(s.subrange(0, 8) =~= "builtin:"@);
    assert(s.skip(8) =~= name);
    assert("builtin:sine"@.subrange(0, 8) =~= "builtin:"@);
    assert("builtin:triangle"@.subrange(0, 8) =~= "builtin:"@);
    assert("builtin:square"@.subrange(0, 8) =~= "builtin:"@);
    assert("builtin:sine"@.skip(8) =~= "sine"@);
    assert("builtin:triangle"@.skip(8) =~= "triangle"@);
    assert("builtin:square"@.skip(8) =~= "square"@);
    assert("square"@[0] != "reverb"@[0] && "square"@[0] != "filter"@[0] && "reverb"@[0] != "filter"@[0]);
}

// ---------------------------------------------------------------------------
// Files
// ---------------------------------------------------------------------------

/// A plugin that a session names by a path is found from the directory of the session; a source with
/// a colon and a path from the root stand for themselves.
pub proof fn session_paths_start_from_the_session(dir: Seq<char>, source: Seq<char>)
    requires
        dir.len() > 0,
        dir.last() != '/',
    ensures
        source.contains(':') ==> resolved_plugin(System::Linux, source, dir) == source,
        source.len() > 0 && source[0] == '/' ==> resolved_plugin(System::Linux, source, dir) == source,
        !source.contains(':') && (source.len() == 0 || source[0] != '/') ==> resolved_plugin(
            System::Linux,
            source,
            dir,
        ) == dir + "/"@ + source,
{
}

/// Outside Windows a path from the root stands for itself and any other is put behind the directory,
/// with one slash between them.
pub proof fn paths_are_joined_with_a_slash(system: System, dir: Seq<char>, name: Seq<char>)
    requires
        system != System::Windows,
    ensures
        name.len() > 0 && name[0] == '/' ==> joined(system, dir, name) == name,
        name.len() == 0 || name[0] != '/' ==> joined(system, dir, name) == if dir.len() == 0 || dir.last() == '/' {
            dir + name
        } else {
            dir + "/"@ + name
        },
        absolute(system, name) <==> name.len() > 0 && name[0] == '/',
{
}

/// The configuration lies in the configuration directory where there is one, and below the home
/// directory on macOS and where there is none.
pub proof fn configuration_has_its_place(system: System, config: Option<&str>, home: Option<&str>)
    ensures
        system != System::Mac && config is Some ==> config_place(system, config, home) == Some(
            joined(system, config->0@, "tang"@),
        ),
        (system == System::Mac || config is None) && home is Some ==> config_place(system, config, home) == Some(
            joined(system, joined(system, home->0@, ".config"@), "tang"@),
        ),
        (system == System::Mac || config is None) && home is None ==> config_place(system, config, home) is None,
{
}

/// VST3 plugins are looked for in the user's own directory first, then in the shared ones, then in
/// those that the user adds.
pub proof fn vst3_is_searched_from_the_user_on(system: System, own: Option<&str>, extra: Seq<String>, i: int)
    ensures
        ({
            let dirs = search_dirs(system, own, extra);
            let shared = if system == System::Linux {
                2int
            } else {
                1
            };
            let first = if own is Some {
                1int
            } else {
                0
            };
            &&& dirs.len() == first + shared + extra.len()
            &&& system == System::Linux ==> dirs[first] == "/usr/lib/vst3"@ && dirs[first + 1]
                == "/usr/local/lib/vst3"@
            &&& system == System::Mac ==> dirs[first] == "/Library/Audio/Plug-Ins/VST3"@
            &&& system == System::Linux && own is Some ==> dirs[0] == joined(system, own->0@, ".vst3"@)
            &&& 0 <= i < extra.len() ==> dirs[first + shared + i] == extra[i]@
        }),
{
}

/// The binary of a VST3 bundle lies in the directory of the system and the machine, under the ending
/// that the system has for it.
pub proof fn vst3_binaries_follow_the_machine()
    ensures
        binary_dir(System::Linux, "x86_64"@) == "x86_64-linux"@,
        binary_dir(System::Linux, "aarch64"@) == "aarch64-linux"@,
        binary_dir(System::Windows, "x86_64"@) == "x86_64-win"@,
        binary_dir(System::Windows, "aarch64"@) == "aarch64-win"@,
        forall|machine: Seq<char>| #[trigger] binary_dir(System::Mac, machine) == "MacOS"@,
        binary_ending(System::Linux) == ".so"@,
        binary_ending(System::Windows) == ".vst3"@,
        binary_ending(System::Mac).len() == 0,
{
    reveal_strlit("x86_64");
    reveal_strlit("aarch64");
    assert("x86_64"@.len() != "aarch64"@.len());
}

// ---------------------------------------------------------------------------
// Devices and buffers
// ---------------------------------------------------------------------------

/// The device that a text means is the first whose name holds it.
pub proof fn texts_mean_the_first_device(names: Seq<Option<String>>, part: Seq<char>, from: int)
    requires
        0 <= from,
    ensures
        match device_named(names, part, from) {
            Some(i) => from <= i < names.len() && names[i] is Some && has_part(names[i]->0@, part) && forall|k: int|
                from <= k < i ==> !(#[trigger] names[k] is Some && has_part(names[k]->0@, part)),
            None => forall|k: int|
                from <= k < names.len() ==> !(#[trigger] names[k] is Some && has_part(names[k]->0@, part)),
        },
    decreases names.len() - from,
{
    if from < names.len() && !(names[from] is Some && has_part(names[from]->0@, part)) {
        texts_mean_the_first_device(names, part, from + 1);
    }
}

/// A plugin gets the samples that there are and silence behind them.
pub proof fn inputs_are_padded_with_silence<F>(input: Seq<F>, frames: nat, zero: F, i: int)
    requires
        0 <= i < frames,
    ensures
        padded_input(Some(input), frames, zero).len() == frames,
        padded_input(None, frames, zero).len() == frames,
        i < input.len() ==> padded_input(Some(input), frames, zero)[i] == input[i],
        i >= input.len() ==> padded_input(Some(input), frames, zero)[i] == zero,
        padded_input(None, frames, zero)[i] == zero,
{
}

/// A buffer that is filled again has the new samples as far as they go; without any it is silent.
pub proof fn refilled_buffers_hold_the_new_samples<F>(old_buf: Seq<F>, input: Seq<F>, frames: nat, zero: F, i: int)
    requires
        0 <= i < frames,
    ensures
        refilled(old_buf, Some(input), frames, zero).len() == frames,
        i < input.len() ==> refilled(old_buf, Some(input), frames, zero)[i] == input[i],
        i >= input.len() && i < old_buf.len() ==> refilled(old_buf, Some(input), frames, zero)[i] == old_buf[i],
        i >= input.len() && i >= old_buf.len() ==> refilled(old_buf, Some(input), frames, zero)[i] == zero,
        refilled(old_buf, None, frames, zero)[i] == zero,
{
}

} // verus!
