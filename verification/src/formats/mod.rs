//! Hosting plugins of outside formats: what is decided around the calls into them.
pub mod clap;
pub mod lv2;
pub mod vst3;
