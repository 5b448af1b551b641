//! Flags an [`XArray`](super::XArray) is created with.
use vstd::prelude::*;

verus! {

/// Lock with interrupts disabled.
pub const LOCK_IRQ: u32 = 1;

/// Lock with bottom halves disabled.
pub const LOCK_BH: u32 = 2;

/// Track free indices, so that entries can be allocated.
pub const TRACK_FREE: u32 = 4;

/// Index zero is never handed out by allocation.
pub const ZERO_BUSY: u32 = 8;

/// Allocation has wrapped around.
pub const ALLOC_WRAPPED: u32 = 16;

/// Account allocations to the caller's memory group.
pub const ACCOUNT: u32 = 32;

/// An array whose entries can be allocated, from index zero.
pub const ALLOC: u32 = TRACK_FREE;

/// An array whose entries can be allocated, from index one.
pub const ALLOC1: u32 = TRACK_FREE | ZERO_BUSY;

} // verus!
