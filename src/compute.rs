//! Compute queues: a work queue on the compute pipe, and the steps of one
//! compute submission.
//!
//! A submission is [`ComputeQueue::prepare`] (start a batch and build the
//! job's micro-sequence), then [`ComputeQueue::queue`] (stage the job's
//! command and commit it; retried after a signal while the ring is full),
//! then [`ComputeQueue::submit`] (the request for the firmware). Once the
//! batch has completed, [`completion_status`] gives the submission's result.
use vstd::prelude::*;

use crate::error::Error;
use crate::event::{lease_choice, spec_next, EventLedger, EventValue, Token, NUM_EVENTS};
use crate::microseq::{build_compute, compute_program, ComputeJob, MicroOp};
use crate::workqueue::{
    error_of, next_epoch, ring_add, Batch, BatchBuilder, BuilderState, CommandSlot, PipeType,
    QueueState, RunWorkQueueMsg, WorkQueue, WQ_SIZE,
};

verus! {

/// A queue of compute work.
pub struct ComputeQueue {
    /// The work queue on the compute pipe.
    pub wq: WorkQueue,
    /// The queue's identity.
    pub id: u64,
    /// Number of commands prepared on this queue, wrapping.
    pub command_count: u32,
}

/// The counter value that follows `c`, wrapping to zero.
pub open spec fn next_count(c: u32) -> u32 {
    if c == u32::MAX {
        0
    } else {
        (c + 1) as u32
    }
}

/// The job that a submission prepares on queue `id`, whose work queue is in
/// state `q` once the batch has started.
pub open spec fn job_of(q: QueueState, id: u64, vm_slot: u32, cmd_seq: u32, uuid: u32) -> ComputeJob {
    ComputeJob {
        work_queue: id,
        vm_slot,
        event_generation: id as u32,
        cmd_seq,
        uuid,
        stamp_slot: q.event.unwrap().0,
        base_value: q.event.unwrap().1,
    }
}

impl ComputeQueue {
    /// Creates a compute queue with the default ring size.
    ///
    /// Fails with `InvalidArgument` when `priority` is out of range.
    pub fn new(id: u64, priority: u32) -> (r: Result<ComputeQueue, Error>)
        ensures
            match r {
                Ok(cq) => {
                    &&& cq.id == id
                    &&& cq.command_count == 0
                    &&& cq.wq@.inv()
                    &&& cq.wq@ == (QueueState {
                        pipe_type: PipeType::Compute,
                        id,
                        priority,
                        size: WQ_SIZE as nat,
                        ring: Seq::new(WQ_SIZE as nat, |i: int| 0u64),
                        wptr: 0,
                        doneptr: 0,
                        pending: Seq::empty(),
                        batches: Seq::empty(),
                        last_token: None,
                        event: None,
                        new: true,
                        epoch: 0,
                    })
                },
                Err(e) => e == Error::InvalidArgument && priority > crate::workqueue::MAX_PRIORITY,
            },
    {
        let wq = WorkQueue::new(PipeType::Compute, id, priority, WQ_SIZE)?;
        Ok(ComputeQueue { wq, id, command_count: 0 })
    }

    /// Starts a submission: begins a batch for `vm_slot`, takes the next
    /// command sequence number, and builds the job's micro-sequence, which
    /// completes at the value after the event's last committed one.
    ///
    /// Fails with `Busy`, changing nothing, exactly when the queue holds no
    /// event and every slot of the pool is leased.
    pub fn prepare(&mut self, ledger: &mut EventLedger, vm_slot: u32, uuid: u32) -> (r: Result<
        (BatchBuilder, Vec<MicroOp>),
        Error,
    >)
        requires
            old(self).wq@.inv(),
            old(ledger).wf(),
        ensures
            final(self).wq@.inv(),
            final(ledger).wf(),
            final(self).id == old(self).id,
            final(ledger).spec_stamps() == old(ledger).spec_stamps(),
            match r {
                Ok((b, ops)) => {
                    let slot = final(self).wq@.event.unwrap().0;
                    &&& final(self).wq@.event is Some
                    &&& old(self).wq@.event is Some ==> {
                        &&& final(self).wq@ == (QueueState {
                            epoch: next_epoch(old(self).wq@.epoch),
                            ..old(self).wq@
                        })
                        &&& final(ledger).spec_leased() == old(ledger).spec_leased()
                    }
                    &&& old(self).wq@.event is None ==> {
                        &&& lease_choice(old(ledger).spec_leased(), old(self).wq@.last_token, slot as int)
                        &&& final(ledger).spec_leased() == old(ledger).spec_leased().update(
                            slot as int,
                            true,
                        )
                        &&& final(self).wq@ == (QueueState {
                            epoch: next_epoch(old(self).wq@.epoch),
                            event: Some((slot, EventValue(old(ledger).spec_stamps()[slot as int]))),
                            last_token: Some(Token { slot }),
                            new: true,
                            ..old(self).wq@
                        })
                    }
                    &&& b@ == (BuilderState {
                        queue_id: old(self).wq@.id,
                        epoch: next_epoch(old(self).wq@.epoch),
                        staged: Seq::empty(),
                        wptr: old(self).wq@.wptr,
                        vm_slot,
                    })
                    &&& b@.attached(final(self).wq@)
                    &&& final(self).command_count == next_count(old(self).command_count)
                    &&& ops@ == compute_program(
                        job_of(final(self).wq@, old(self).id, vm_slot, old(self).command_count, uuid),
                    )
                },
                Err(e) => {
                    &&& e == Error::Busy
                    &&& old(self).wq@.event is None
                    &&& forall|j: int|
                        0 <= j < NUM_EVENTS ==> #[trigger] old(ledger).spec_leased()[j]
                    &&& final(self).wq@ == old(self).wq@
                    &&& final(self).command_count == old(self).command_count
                    &&& final(ledger).spec_leased() == old(ledger).spec_leased()
                },
            },
    {
        let b = self.wq.begin_batch(ledger, vm_slot)?;
        let cmd_seq = self.command_count;
        self.command_count = if cmd_seq == u32::MAX {
            0
        } else {
            cmd_seq + 1
        };
        let stamp_slot = self.wq.event_slot().unwrap();
        let base_value = self.wq.event_value().unwrap();
        let job = ComputeJob {
            work_queue: self.id,
            vm_slot,
            event_generation: self.id as u32,
            cmd_seq,
            uuid,
            stamp_slot,
            base_value,
        };
        Ok((b, build_compute(&job)))
    }

    /// Stages the job's command `cmd` and commits it as one batch.
    ///
    /// Fails with `RingFull`, changing nothing, while the ring has no free
    /// slot; the caller waits for a signal and calls again. Fails with
    /// `InvalidArgument`, changing nothing, when `b` is not the live builder
    /// of the queue or the queue holds no event.
    pub fn queue(&mut self, b: &mut BatchBuilder, cmd: CommandSlot) -> (r: Result<Batch, Error>)
        requires
            old(self).wq@.inv(),
        ensures
            final(self).wq@.inv(),
            final(self).id == old(self).id,
            final(self).command_count == old(self).command_count,
            (!old(b)@.attached(old(self).wq@) || old(self).wq@.event is None) ==> {
                &&& r == Err::<Batch, Error>(Error::InvalidArgument)
                &&& final(b)@ == old(b)@
                &&& final(self).wq@ == old(self).wq@
            },
            (old(b)@.attached(old(self).wq@) && old(self).wq@.event is Some && old(b)@.ring_full(
                old(self).wq@,
            )) ==> {
                &&& r == Err::<Batch, Error>(Error::RingFull)
                &&& final(b)@ == old(b)@
                &&& final(self).wq@ == old(self).wq@
            },
            (old(b)@.attached(old(self).wq@) && old(self).wq@.event is Some && !old(b)@.ring_full(
                old(self).wq@,
            )) ==> {
                let q = old(self).wq@;
                let (slot, base) = q.event.unwrap();
                let wptr = ring_add(old(b)@.wptr as int, 1, q.size as int);
                let batch = Batch {
                    value: EventValue(spec_next(base.0)),
                    commands: (old(b)@.staged.len() + 1) as usize,
                    wptr: wptr as u32,
                    vm_slot: old(b)@.vm_slot,
                    error: None,
                };
                &&& r == Ok::<Batch, Error>(batch)
                &&& final(self).wq@ == (QueueState {
                    ring: q.ring.update(old(b)@.wptr as int, cmd.addr),
                    wptr: wptr as nat,
                    pending: q.pending + old(b)@.staged.push(cmd),
                    batches: q.batches.push(batch),
                    event: Some((slot, batch.value)),
                    ..q
                })
                &&& final(b)@ == (BuilderState {
                    staged: Seq::empty(),
                    wptr: wptr as nat,
                    ..old(b)@
                })
                &&& final(b)@.attached(final(self).wq@)
            },
    {
        if self.wq.event_slot().is_none() {
            return Err(Error::InvalidArgument);
        }
        b.add(&mut self.wq, cmd)?;
        b.commit(&mut self.wq)
    }

    /// The request that tells the firmware to run the queue, once every
    /// staged command has been committed; see [`BatchBuilder::submit`].
    pub fn submit(&mut self, b: BatchBuilder) -> (r: Result<RunWorkQueueMsg, Error>)
        requires
            old(self).wq@.inv(),
        ensures
            final(self).wq@.inv(),
            final(self).id == old(self).id,
            final(self).command_count == old(self).command_count,
            (!b@.attached(old(self).wq@) || b@.staged.len() != 0 || old(self).wq@.event is None)
                ==> {
                &&& r == Err::<RunWorkQueueMsg, Error>(Error::InvalidArgument)
                &&& final(self).wq@ == old(self).wq@
            },
            (b@.attached(old(self).wq@) && b@.staged.len() == 0 && old(self).wq@.event is Some)
                ==> {
                &&& r == Ok::<RunWorkQueueMsg, Error>(
                    RunWorkQueueMsg {
                        pipe_type: old(self).wq@.pipe_type,
                        work_queue: old(self).wq@.id,
                        wptr: old(self).wq@.wptr as u32,
                        event_slot: old(self).wq@.event.unwrap().0,
                        is_new: old(self).wq@.new,
                    },
                )
                &&& final(self).wq@ == (QueueState { new: false, ..old(self).wq@ })
            },
    {
        b.submit(&mut self.wq)
    }
}

/// The result of a submission whose batch has completed: its failure, as an
/// error code, if it failed.
pub fn completion_status(batch: &Batch) -> (r: Result<(), Error>)
    ensures
        r == match batch.error {
            Some(e) => Err::<(), Error>(error_of(e)),
            None => Ok(()),
        },
{
    match batch.wait() {
        Ok(()) => Ok(()),
        Err(err) => Err(Error::from(err)),
    }
}

} // verus!
