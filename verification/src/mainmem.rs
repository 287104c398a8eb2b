//! Interface to the process-wide memory-allocator registry.
//!
//! Memory gates return their region here on their final release.  The
//! registry is a collaborator of this core: the core only hands regions
//! back, so the type records every `free` call it receives, which is
//! exactly what the contracts of the callers speak about.

use vstd::prelude::*;

use crate::PEId;

verus! {

/// Global address: a PE on the on-chip network and an offset within it.
#[derive(Clone, Copy, PartialEq, Eq, Structural, Debug)]
pub struct GlobAddr {
    pub pe: PEId,
    pub offset: usize,
}

impl GlobAddr {
    pub fn new_with(pe: PEId, offset: usize) -> (r: GlobAddr)
        ensures
            r.pe == pe,
            r.offset == offset,
    {
        GlobAddr { pe, offset }
    }
}

/// A region of memory handed out by the allocator registry.
#[derive(Clone, Copy, PartialEq, Eq, Structural, Debug)]
pub struct Allocation {
    pub gaddr: GlobAddr,
    pub size: usize,
}

impl Allocation {
    pub fn new(gaddr: GlobAddr, size: usize) -> (r: Allocation)
        ensures
            r.gaddr == gaddr,
            r.size == size,
    {
        Allocation { gaddr, size }
    }
}

/// The allocator registry as this core sees it: a sink for freed
/// regions.  It keeps the regions it was handed, in order, so a caller's
/// contract can say exactly which `free` calls a destruction path makes.
pub struct MainMem {
    pub frees: Vec<Allocation>,
}

impl MainMem {
    pub fn new() -> (r: MainMem)
        ensures
            r.frees@.len() == 0,
    {
        MainMem { frees: Vec::new() }
    }

    /// Returns a region to the allocator.
    pub fn free(&mut self, alloc: &Allocation)
        ensures
            final(self).frees@ == old(self).frees@.push(*alloc),
    {
        self.frees.push(*alloc);
    }
}

} // verus!
