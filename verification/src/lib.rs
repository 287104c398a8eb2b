//! Capability and memory-allocation core of a cooperative microkernel.
//!
//! The crate models the kernel objects that back capabilities (receive
//! gates, send gates, memory gates, services, sessions), the free-list
//! allocator that tracks the memory regions of a memory PE, and the
//! asynchronous send-queue interaction used when a session is closed.
//! Cross-object references are arena keys: capability tables store keys,
//! and lookups resolve them against the object tables, which makes the
//! destruction side effects of the objects explicit functions.

use vstd::prelude::*;

pub mod errors;
pub mod kobjs;
pub mod mainmem;
pub mod map;
pub mod sendqueue;
pub mod serial;
pub mod sgate;
pub mod text;

verus! {

/// Identifier of a virtual PE (a schedulable task bound to a PE).
pub type VPEId = u64;

/// Identifier of a DTU endpoint on a PE.
pub type EpId = u64;

/// Identifier of a processing element on the on-chip network.
pub type PEId = u64;

/// Message label word carried by a send gate.
pub type Label = u64;

/// Selector that names a capability in a VPE's capability table.
pub type Selector = u64;

/// Token on which a cooperative kernel thread can be suspended.
pub type Event = u64;

/// Key of an object in the kernel's object arena.
pub type ObjId = usize;

/// Sentinel owner of a receive gate that has not been activated yet.
pub const INVALID_VPE: VPEId = 0xFFFF;

/// Sentinel selector meaning "let the runtime pick a free selector".
pub const INVALID_SEL: Selector = 0xFFFF;

} // verus!
