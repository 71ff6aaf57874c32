//! Storage usage reports: the sizes of directory trees, pseudo-filesystems left
//! out, ranked and written in binary units, and the capacity figures of a
//! mounted filesystem.
use vstd::prelude::*;

pub mod classify;
pub mod cli;
pub mod format;
pub mod mount;
pub mod report;
pub mod tree;

verus! {

} // verus!
