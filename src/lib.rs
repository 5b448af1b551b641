//! Submission of GPU command work to firmware-scheduled execution pipes, and
//! tracking of its completion.
//!
//! The heart of the crate is the work queue ([`workqueue`]): a fixed-capacity
//! ring of command references per pipe, grouped into batches that are
//! committed atomically, each bound to a value of a hardware completion
//! counter leased from the [`event`] pool. Around it stand the compute queue's
//! submission steps ([`compute`]), the micro-sequences that run compute work
//! ([`microseq`]), and a sparse array with index allocation ([`xarray`]).
pub mod compute;
pub mod error;
pub mod event;
pub mod microseq;
pub mod workqueue;
pub mod xarray;
