//! The user interface without its widgets: what is shown, what is selected, and what keys and
//! mouse do about it.
pub mod adjust;
pub mod catalog;
pub mod editor;
pub mod help;
pub mod keys;
pub mod load;
pub mod mirror;
pub mod model;
pub mod mouse;
pub mod opening;
pub mod params;
pub mod piano_view;
pub mod places;
pub mod popups;
pub mod rows;
pub mod save;
pub mod shown;
pub mod splash;
pub mod tree;
