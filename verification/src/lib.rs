//! Core of a disk-space cleaner.
//!
//! Five scanners pick reclaimable files out of pre-collected directory
//! listings, a guard refuses every sensitive path, a selection tree keeps
//! cursor, expansion and selection state consistent, and a deletion engine
//! accounts for every outcome and prunes the tree afterwards. All
//! filesystem, network and terminal work stays outside; this crate only
//! ever computes on plain values.
#![verifier::loop_isolation(false)]

pub mod delete;
pub mod format;
pub mod guard;
pub mod license;
pub mod pathutil;
pub mod platform;
pub mod scan;
pub mod tree;

use vstd::prelude::*;

verus! {

} // verus!
