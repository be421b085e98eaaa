//! Tang: the decision-making core of a terminal plugin host.
pub mod audio;
pub mod autodetect;
pub mod builtin;
pub mod chord;
pub mod cli;
pub mod config;
pub mod formats;
pub mod graph;
pub mod held_notes;
pub mod lane;
pub mod laws;
pub mod midi;
pub mod model;
pub mod modulation;
pub mod notes;
pub mod paths;
pub mod pattern;
pub mod piano;
pub mod piano_filter;
pub mod play;
pub mod plugin;
pub mod reload;
pub mod remap;
pub mod scale;
pub mod session;
pub mod startup;
pub mod text;
pub mod tui;
