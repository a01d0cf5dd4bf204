//! Rule matching and deletion engine of a disk-cleanup utility.
//!
//! The library decides; its caller touches the disk. A caller expands glob
//! patterns, samples metadata and removes files on the engine's request and
//! reports back what happened; every decision about which rule runs, which
//! removal is attempted in which order, and how the freed space and the
//! removed entries are counted is made and verified here.
//!
//! - [`rule`] holds the declarative description of a cleanup target;
//! - [`entry`] the entries that a rule's pattern yields;
//! - [`policy`] the steps that a rule asks for on one entry, and what each
//!   step's result is credited as;
//! - [`report`] the tally of a run;
//! - [`protocol`] and [`engine`] the pass itself, as requests handed out
//!   and answers taken in;
//! - [`selection`] the categories on offer and the check of a choice;
//! - [`size`] and [`summary`] the closing lines of a run;
//! - [`world`] and [`laws`] a model of the disk and what is proved of the
//!   engine against it.

use vstd::prelude::*;

pub mod engine;
pub mod entry;
pub mod laws;
pub mod policy;
pub mod protocol;
pub mod report;
pub mod rule;
pub mod selection;
pub mod size;
pub mod summary;
pub mod world;

verus! {

/// Looks nothing up: no rule depends on where Steam keeps its library.
pub fn get_steam_directory() {
}

} // verus!
