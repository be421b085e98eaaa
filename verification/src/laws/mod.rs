//! What the parts of the host are for, stated of their inputs and results.
//!
//! The contracts say what each operation does step by step. The laws here say what comes of it:
//! which bytes leave for a note that went in, which events a recording holds, what a field is
//! after it was set.
pub mod chord;
pub mod editor;
pub mod fields;
pub mod graph;
pub mod hosting;
pub mod keeping;
pub mod keyboard;
pub mod keys;
pub mod lane;
pub mod midi;
pub mod modulation;
pub mod notes;
pub mod pattern;
pub mod piano;
pub mod popups;
pub mod remap;
pub mod scale;
pub mod session;
pub mod shell;
pub mod sources;
pub mod text;
pub mod views;
