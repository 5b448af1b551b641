//! Error codes surfaced by the library.
use vstd::prelude::*;

verus! {

/// The errors that the library's operations report synchronously.
#[derive(Clone, Copy, Debug, PartialEq, Eq, Structural)]
pub enum Error {
    /// An argument is out of range, or an operation was used out of order.
    InvalidArgument,
    /// A resource of a fixed pool (an event slot, an index) is exhausted.
    Busy,
    /// The ring has no free slot; the producer must wait for completed work.
    RingFull,
    /// A wait was interrupted before any work was queued.
    Restart,
    /// The work took too long to execute.
    TimedOut,
    /// The work hit a device memory fault.
    Io,
    /// The work failed for an unknown reason.
    NoData,
    /// The work was cancelled because of a failure of other work.
    Canceled,
}

} // verus!
