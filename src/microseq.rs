//! Micro-sequences: the linked programs of firmware operations that run one
//! unit of work.
//!
//! Offsets within a micro-sequence count operation records from its start.
use vstd::prelude::*;

use crate::error::Error;
use crate::event::{spec_next, EventValue};
use crate::workqueue::PipeType;

verus! {

/// One firmware operation of a micro-sequence.
#[derive(Clone, Copy, Debug, PartialEq, Eq, Structural)]
pub enum MicroOp {
    /// Marks the start of compute work; preemption restarts from here.
    StartCompute {
        work_queue: u64,
        vm_slot: u32,
        event_generation: u32,
        cmd_seq: u32,
        uuid: u32,
    },
    /// Records a timestamp at the beginning or the end of the work.
    Timestamp { work_queue: u64, begin: bool, uuid: u32 },
    /// Waits until the pipe has gone idle.
    WaitForIdle { pipe: PipeType },
    /// Completes compute work: the event slot and value that mark it done,
    /// and the offset back to its start for a restart after preemption.
    FinalizeCompute {
        work_queue: u64,
        vm_slot: u32,
        uuid: u32,
        stamp_slot: u32,
        stamp_value: EventValue,
        restart_branch_offset: i32,
    },
    /// Signals the event.
    RetireStamp,
}

/// Accumulates the operations of a micro-sequence.
pub struct Builder {
    ops: Vec<MicroOp>,
}

impl View for Builder {
    type V = Seq<MicroOp>;

    closed spec fn view(&self) -> Seq<MicroOp> {
        self.ops@
    }
}

impl Builder {
    /// An empty micro-sequence.
    pub fn new() -> (r: Builder)
        ensures
            r@ == Seq::<MicroOp>::empty(),
    {
        Builder { ops: Vec::new() }
    }

    /// The offset at which the next operation goes.
    pub fn cur_offset(&self) -> (r: usize)
        ensures
            r == self@.len(),
    {
        self.ops.len()
    }

    /// Appends `op` and returns its offset.
    ///
    /// Fails with `InvalidArgument`, changing nothing, when the offset would
    /// not fit an `i32`.
    pub fn add(&mut self, op: MicroOp) -> (r: Result<i32, Error>)
        ensures
            old(self)@.len() < i32::MAX ==> r == Ok::<i32, Error>(old(self)@.len() as i32)
                && final(self)@ == old(self)@.push(op),
            old(self)@.len() >= i32::MAX ==> r == Err::<i32, Error>(Error::InvalidArgument)
                && final(self)@ == old(self)@,
    {
        let off = self.ops.len();
        if off >= i32::MAX as usize {
            return Err(Error::InvalidArgument);
        }
        self.ops.push(op);
        Ok(off as i32)
    }

    /// Appends `op`, whose offset is known to fit an `i32`, and returns that
    /// offset.
    pub fn push(&mut self, op: MicroOp) -> (r: i32)
        requires
            old(self)@.len() < i32::MAX,
        ensures
            r == old(self)@.len(),
            final(self)@ == old(self)@.push(op),
    {
        let off = self.ops.len() as i32;
        self.ops.push(op);
        off
    }

    /// The offset from the next operation back (or forward) to `target`.
    pub fn offset_to(&self, target: i32) -> (r: i32)
        requires
            0 <= target,
            self@.len() < i32::MAX,
        ensures
            r == target - self@.len(),
    {
        target - self.ops.len() as i32
    }

    /// The operations, in order.
    pub fn build(self) -> (r: Vec<MicroOp>)
        ensures
            r@ == self@,
    {
        self.ops
    }
}

/// What the compute micro-sequence of one submission is built from.
#[derive(Clone, Copy, Debug, PartialEq, Eq, Structural)]
pub struct ComputeJob {
    /// Identity of the work queue the job is submitted to.
    pub work_queue: u64,
    /// The virtual address space slot the job runs in.
    pub vm_slot: u32,
    /// The generation of the job's event notifier.
    pub event_generation: u32,
    /// Sequence number of the job on its queue.
    pub cmd_seq: u32,
    /// Identifier of the job chosen by its submitter.
    pub uuid: u32,
    /// The hardware slot of the event that marks the job done.
    pub stamp_slot: u32,
    /// The event's last committed value; the job completes at the next one.
    pub base_value: EventValue,
}

/// The micro-sequence that runs compute job `j`: start, timestamp, wait for
/// idle, timestamp, finalize (branching back four records to the start on
/// restart), retire.
pub open spec fn compute_program(j: ComputeJob) -> Seq<MicroOp> {
    seq![
        MicroOp::StartCompute {
            work_queue: j.work_queue,
            vm_slot: j.vm_slot,
            event_generation: j.event_generation,
            cmd_seq: j.cmd_seq,
            uuid: j.uuid,
        },
        MicroOp::Timestamp { work_queue: j.work_queue, begin: true, uuid: j.uuid },
        MicroOp::WaitForIdle { pipe: PipeType::Compute },
        MicroOp::Timestamp { work_queue: j.work_queue, begin: false, uuid: j.uuid },
        MicroOp::FinalizeCompute {
            work_queue: j.work_queue,
            vm_slot: j.vm_slot,
            uuid: j.uuid,
            stamp_slot: j.stamp_slot,
            stamp_value: EventValue(spec_next(j.base_value.0)),
            restart_branch_offset: -4i32,
        },
        MicroOp::RetireStamp,
    ]
}

/// Builds the micro-sequence that runs compute job `j`.
pub fn build_compute(j: &ComputeJob) -> (r: Vec<MicroOp>)
    ensures
        r@ == compute_program(*j),
{
    let next_stamp = j.base_value.next();
    let mut builder = Builder::new();
    let start = builder.push(
        MicroOp::StartCompute {
            work_queue: j.work_queue,
            vm_slot: j.vm_slot,
            event_generation: j.event_generation,
            cmd_seq: j.cmd_seq,
            uuid: j.uuid,
        },
    );
    builder.push(MicroOp::Timestamp { work_queue: j.work_queue, begin: true, uuid: j.uuid });
    builder.push(MicroOp::WaitForIdle { pipe: PipeType::Compute });
    builder.push(MicroOp::Timestamp { work_queue: j.work_queue, begin: false, uuid: j.uuid });
    let off = builder.offset_to(start);
    builder.push(
        MicroOp::FinalizeCompute {
            work_queue: j.work_queue,
            vm_slot: j.vm_slot,
            uuid: j.uuid,
            stamp_slot: j.stamp_slot,
            stamp_value: next_stamp,
            restart_branch_offset: off,
        },
    );
    builder.push(MicroOp::RetireStamp);
    let ops = builder.build();
    proof {
        assert(ops@ =~= compute_program(*j));
    }
    ops
}

} // verus!
