//! Pages of memory, in RAM and on disk.

use vstd::prelude::*;

verus! {

/// A page that lies in RAM.
#[derive(Debug, PartialEq, Eq, Structural, Clone, Copy)]
pub struct RamPage {
    /// Whether a process needs the page.
    pub needed: bool,
    /// Index of the RAM slot.
    pub pos: u32,
}

/// A page that lies on disk.
#[derive(Debug, PartialEq, Eq, Structural, Clone, Copy)]
pub struct DiskPage {
    /// Whether a process needs the page.
    pub needed: bool,
    /// Index of the disk slot.
    pub pos: u32,
}

} // verus!
