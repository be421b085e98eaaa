//! What the command line asks for.
use vstd::prelude::*;

use crate::paths::{join, joined, System};

verus! {

/// Frames in an audio buffer, where none are asked for.
pub const BUFFER_SIZE: u32 = 512;

/// The sample rate in Hz, where none is asked for.
pub const SAMPLE_RATE: u32 = 48000;

/// The command line.
#[derive(Debug)]
pub struct Cli {
    /// A session file to show.
    pub session: Option<String>,
    pub command: Option<Command>,
}

/// A subcommand.
#[derive(Debug)]
pub enum Command {
    /// List devices or plugins.
    Enumerate(EnumerateTarget),
    /// Describe a plugin.
    Describe { plugin: String },
    /// Play a session.
    Play(PlayArgs),
}

/// What to list.
#[derive(Clone, Copy, Debug, PartialEq, Eq, Structural)]
pub enum EnumerateTarget {
    Midi,
    Audio,
    Plugins,
    Builtins,
}

/// How to play.
#[derive(Debug)]
pub struct PlayArgs {
    pub session: Option<String>,
    /// Part of an output device's name.
    pub audio_device: Option<String>,
    /// Part of a MIDI input's name.
    pub midi_device: Option<String>,
    pub buffer_size: u32,
    pub sample_rate: u32,
    /// Whether the user interface is shown.
    pub view: bool,
}

/// Where a session comes from.
#[derive(Debug)]
pub enum SessionSource {
    File(String),
    /// The default session of the configuration directory.
    Default,
    /// A session that is saved under a new name.
    New,
}

/// A session to run.
#[derive(Debug)]
pub struct Run {
    pub source: SessionSource,
    pub audio_device: Option<String>,
    pub midi_device: Option<String>,
    pub buffer_size: u32,
    pub sample_rate: u32,
    pub view: bool,
}

/// What there is to do.
#[derive(Debug)]
pub enum Task {
    Enumerate(EnumerateTarget),
    Describe(String),
    Run(Run),
}

/// What a command line asks for: without a subcommand the user interface, on the session that is
/// named or on the default one.
pub fn choose_task(cli: Cli) -> (task: Task)
    ensures
        match cli.command {
            Some(Command::Enumerate(target)) => task == Task::Enumerate(target),
            Some(Command::Describe { plugin }) => task == Task::Describe(plugin),
            Some(Command::Play(args)) => task == Task::Run(
                Run {
                    source: match args.session {
                        Some(s) => SessionSource::File(s),
                        None => SessionSource::New,
                    },
                    audio_device: args.audio_device,
                    midi_device: args.midi_device,
                    buffer_size: args.buffer_size,
                    sample_rate: args.sample_rate,
                    view: args.view,
                },
            ),
            None => task == Task::Run(
                Run {
                    source: match cli.session {
                        Some(s) => SessionSource::File(s),
                        None => SessionSource::Default,
                    },
                    audio_device: None,
                    midi_device: None,
                    buffer_size: BUFFER_SIZE,
                    sample_rate: SAMPLE_RATE,
                    view: true,
                },
            ),
        },
{
    match cli.command {
        Some(Command::Enumerate(target)) => Task::Enumerate(target),
        Some(Command::Describe { plugin }) => Task::Describe(plugin),
        Some(Command::Play(args)) => {
            let source = match args.session {
                Some(s) => SessionSource::File(s),
                None => SessionSource::New,
            };
            Task::Run(
                Run {
                    source,
                    audio_device: args.audio_device,
                    midi_device: args.midi_device,
                    buffer_size: args.buffer_size,
                    sample_rate: args.sample_rate,
                    view: args.view,
                },
            )
        },
        None => {
            let source = match cli.session {
                Some(s) => SessionSource::File(s),
                None => SessionSource::Default,
            };
            Task::Run(
                Run {
                    source,
                    audio_device: None,
                    midi_device: None,
                    buffer_size: BUFFER_SIZE,
                    sample_rate: SAMPLE_RATE,
                    view: true,
                },
            )
        },
    }
}

/// The file of the default session.
pub fn default_session_path(system: System, config_dir: &str) -> (path: String)
    ensures
        path@ == joined(system, config_dir@, "default.toml"@),
{
    join(system, config_dir, "default.toml")
}

/// The file of the user's configuration.
pub fn config_path(system: System, config_dir: &str) -> (path: String)
    ensures
        path@ == joined(system, config_dir@, "config.toml"@),
{
    join(system, config_dir, "config.toml")
}

/// Whether a key ends a run without the user interface.
pub fn is_quit_key(key: char, control: bool) -> (r: bool)
    ensures
        r == (control && (key == 'c' || key == 'q')),
{
    control && (key == 'c' || key == 'q')
}

} // verus!
