//! Cycling through a directory of color-scheme snippets and regenerating a
//! terminal emulator's configuration as base configuration plus the selected
//! scheme.

pub mod config;
pub mod order;
pub mod themes;
pub mod cycler;
pub mod args;
