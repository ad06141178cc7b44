//! Verified core of a configurator for Homebrew environment variables:
//! the setting catalogue and its typed values, the managed export block
//! written to a shell profile, command-line parsing, key handling and the
//! text utilities they rest on.
use vstd::prelude::*;

pub mod app;
pub mod appconfig;
pub mod batch;
pub mod brew;
pub mod cli;
pub mod config;
pub mod keys;
pub mod preset;
pub mod report;
pub mod text;
pub mod theme;
pub mod ui;

verus! {

} // verus!
