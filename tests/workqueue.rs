use asahi::error::Error;
use asahi::event::{EventLedger, EventValue, Token};
use asahi::workqueue::{
    Batch, BatchBuilder, BatchError, CommandSlot, FaultInfo, PipeType, WorkQueue, WQ_SIZE,
};

fn cmd(addr: u64) -> CommandSlot {
    CommandSlot { addr, size: 0x100, kind: 1 }
}

fn queue(size: u32) -> WorkQueue {
    WorkQueue::new(PipeType::Compute, 42, 1, size).unwrap()
}

fn commit_batch(q: &mut WorkQueue, ledger: &mut EventLedger, vm_slot: u32, addrs: &[u64]) -> Batch {
    let mut b = q.begin_batch(ledger, vm_slot).unwrap();
    for a in addrs {
        b.add(q, cmd(*a)).unwrap();
    }
    b.commit(q).unwrap()
}

fn fault(vm_slot: u32) -> FaultInfo {
    FaultInfo { address: 0xdead_0000, vm_slot, unit_code: 3, level: 2, read: true }
}

#[test]
fn new_queue_is_empty() {
    let q = WorkQueue::new(PipeType::Vertex, 7, 3, WQ_SIZE).unwrap();
    assert_eq!(q.id(), 7);
    assert_eq!(q.pipe_type(), PipeType::Vertex);
    assert_eq!(q.priority(), 3);
    assert_eq!(q.size(), 0x500);
    assert_eq!(q.wptr(), 0);
    assert_eq!(q.doneptr(), 0);
    assert_eq!(q.free_slots(), 0x4ff);
    assert_eq!(q.in_flight(), 0);
    assert!(q.is_new());
    assert_eq!(q.event_slot(), None);
    assert_eq!(q.ring_entry(0), Some(0));
    assert_eq!(q.ring_entry(0x500), None);
}

#[test]
fn new_rejects_bad_priority_and_size() {
    assert_eq!(WorkQueue::new(PipeType::Fragment, 1, 4, 16).err(), Some(Error::InvalidArgument));
    assert_eq!(WorkQueue::new(PipeType::Fragment, 1, 0, 0).err(), Some(Error::InvalidArgument));
    assert!(WorkQueue::new(PipeType::Fragment, 1, 0, 1).is_ok());
}

#[test]
fn ring_of_four_retires_batches_in_turn() {
    let mut ledger = EventLedger::new();
    let mut q = queue(4);
    let mut b = q.begin_batch(&mut ledger, 0).unwrap();
    b.add(&mut q, cmd(0x1000)).unwrap();
    b.add(&mut q, cmd(0x2000)).unwrap();
    let a = b.commit(&mut q).unwrap();
    assert_eq!(a.value, EventValue(1));
    assert_eq!(a.commands, 2);
    b.add(&mut q, cmd(0x3000)).unwrap();
    let bb = b.commit(&mut q).unwrap();
    assert_eq!(bb.value, EventValue(2));
    assert_eq!(bb.commands, 1);
    assert_eq!(q.free_slots(), 0);
    let slot = q.event_slot().unwrap();

    ledger.set_current(slot, EventValue(1)).unwrap();
    let out = q.signal(&mut ledger);
    assert!(!out.idle);
    assert_eq!(out.completed, vec![a]);
    assert_eq!(q.free_slots(), 2);
    assert_eq!(q.doneptr(), 2);
    assert_eq!(q.in_flight(), 1);
    assert_eq!(q.batch(0), Some(bb));
    assert!(ledger.is_leased(slot));

    ledger.set_current(slot, EventValue(2)).unwrap();
    let out = q.signal(&mut ledger);
    assert!(out.idle);
    assert_eq!(out.completed, vec![bb]);
    assert_eq!(q.in_flight(), 0);
    assert_eq!(q.free_slots(), 3);
    assert_eq!(q.event_slot(), None);
    assert!(!ledger.is_leased(slot));
}

#[test]
fn timeout_marks_unretired_batches() {
    let mut ledger = EventLedger::new();
    let mut q = queue(16);
    let a = commit_batch(&mut q, &mut ledger, 0, &[0x1000]);
    let b = commit_batch(&mut q, &mut ledger, 1, &[0x2000]);
    assert_eq!((a.value, a.vm_slot), (EventValue(1), 0));
    assert_eq!((b.value, b.vm_slot), (EventValue(2), 1));
    let retired = q.mark_error(&mut ledger, EventValue(2), BatchError::Timeout);
    assert!(retired.is_empty());
    assert_eq!(q.in_flight(), 2);
    assert_eq!(q.batch(0).unwrap().wait(), Err(BatchError::Timeout));
    assert_eq!(q.batch(1).unwrap().wait(), Err(BatchError::Timeout));
}

#[test]
fn adds_below_capacity_never_wait() {
    let mut ledger = EventLedger::new();
    let mut q = queue(8);
    let mut b = q.begin_batch(&mut ledger, 0).unwrap();
    for i in 0..7u64 {
        assert_eq!(b.add(&mut q, cmd(0x1000 * (i + 1))), Ok(()));
    }
    assert_eq!(b.commands(), 7);
    assert_eq!(b.add(&mut q, cmd(0x9000)), Err(Error::RingFull));
    assert_eq!(b.commands(), 7);
    let batch = b.commit(&mut q).unwrap();
    assert_eq!(batch.commands, 7);
    assert_eq!(batch.wptr, 7);
    assert_eq!(q.wptr(), 7);
    assert_eq!(q.pending_commands(), 7);
}

#[test]
fn full_ring_waits_until_oldest_batch_retires() {
    let mut ledger = EventLedger::new();
    let mut q = queue(4);
    let mut b = q.begin_batch(&mut ledger, 0).unwrap();
    b.add(&mut q, cmd(0x1000)).unwrap();
    b.commit(&mut q).unwrap();
    b.add(&mut q, cmd(0x2000)).unwrap();
    b.add(&mut q, cmd(0x3000)).unwrap();
    b.commit(&mut q).unwrap();
    assert_eq!(b.add(&mut q, cmd(0x4000)), Err(Error::RingFull));

    // No device progress: still full.
    let out = q.signal(&mut ledger);
    assert!(out.completed.is_empty());
    assert_eq!(b.add(&mut q, cmd(0x4000)), Err(Error::RingFull));

    let slot = q.event_slot().unwrap();
    ledger.set_current(slot, EventValue(1)).unwrap();
    let out = q.signal(&mut ledger);
    assert_eq!(out.completed.len(), 1);
    assert_eq!(b.add(&mut q, cmd(0x4000)), Ok(()));
    assert_eq!(q.ring_entry(3), Some(0x4000));
    let c = b.commit(&mut q).unwrap();
    assert_eq!(c.wptr, 0);
    assert_eq!(q.wptr(), 0);
}

#[test]
fn signal_retires_oldest_first() {
    let mut ledger = EventLedger::new();
    let mut q = queue(16);
    let b1 = commit_batch(&mut q, &mut ledger, 0, &[0x1000]);
    let b2 = commit_batch(&mut q, &mut ledger, 0, &[0x2000, 0x2100]);
    let b3 = commit_batch(&mut q, &mut ledger, 0, &[0x3000]);
    let slot = q.event_slot().unwrap();
    ledger.set_current(slot, EventValue(2)).unwrap();
    let out = q.signal(&mut ledger);
    assert_eq!(out.completed, vec![b1, b2]);
    assert_eq!(q.batch(0), Some(b3));
    assert_eq!(q.doneptr(), b2.wptr);
    assert_eq!(q.pending_commands(), 1);
}

#[test]
fn fault_blames_its_slot_and_kills_others() {
    let mut ledger = EventLedger::new();
    let mut q = queue(16);
    commit_batch(&mut q, &mut ledger, 0, &[0x1000]);
    commit_batch(&mut q, &mut ledger, 1, &[0x2000]);
    commit_batch(&mut q, &mut ledger, 0, &[0x3000]);
    let info = fault(0);
    q.mark_error(&mut ledger, EventValue(2), BatchError::Fault(info));
    assert_eq!(q.batch(0).unwrap().error, Some(BatchError::Fault(info)));
    assert_eq!(q.batch(1).unwrap().error, Some(BatchError::Killed));
    assert_eq!(q.batch(2).unwrap().error, None);
    assert_eq!(q.batch(2).unwrap().wait(), Ok(()));
}

#[test]
fn mark_error_counts_completed_work_as_done() {
    let mut ledger = EventLedger::new();
    let mut q = queue(16);
    let a = commit_batch(&mut q, &mut ledger, 0, &[0x1000]);
    commit_batch(&mut q, &mut ledger, 0, &[0x2000]);
    let slot = q.event_slot().unwrap();
    ledger.set_current(slot, EventValue(1)).unwrap();
    let retired = q.mark_error(&mut ledger, EventValue(2), BatchError::Unknown);
    assert_eq!(retired, vec![a]);
    assert_eq!(retired[0].wait(), Ok(()));
    assert_eq!(q.in_flight(), 1);
    assert_eq!(q.batch(0).unwrap().wait(), Err(BatchError::Unknown));
}

#[test]
fn second_signal_without_progress_does_nothing() {
    let mut ledger = EventLedger::new();
    let mut q = queue(16);
    commit_batch(&mut q, &mut ledger, 0, &[0x1000]);
    commit_batch(&mut q, &mut ledger, 0, &[0x2000]);
    let slot = q.event_slot().unwrap();
    ledger.set_current(slot, EventValue(1)).unwrap();
    let first = q.signal(&mut ledger);
    assert_eq!(first.completed.len(), 1);
    let (doneptr, in_flight, pending) = (q.doneptr(), q.in_flight(), q.pending_commands());
    let second = q.signal(&mut ledger);
    assert!(second.completed.is_empty());
    assert!(!second.idle);
    assert_eq!((q.doneptr(), q.in_flight(), q.pending_commands()), (doneptr, in_flight, pending));
    assert_eq!(q.event_slot(), Some(slot));
    assert!(ledger.is_leased(slot));
}

#[test]
fn signal_without_event_reports_idle() {
    let mut ledger = EventLedger::new();
    let mut q = queue(16);
    let out = q.signal(&mut ledger);
    assert!(out.idle);
    assert!(out.completed.is_empty());
}

#[test]
fn dropped_builder_rolls_back_staged_commands() {
    let mut ledger = EventLedger::new();
    let mut q = queue(8);
    let a = commit_batch(&mut q, &mut ledger, 0, &[0x1000, 0x2000]);
    let ring_before: Vec<Option<u64>> = (0..8).map(|i| q.ring_entry(i)).collect();
    {
        let mut b: BatchBuilder = q.begin_batch(&mut ledger, 0).unwrap();
        b.add(&mut q, cmd(0x7000)).unwrap();
        b.add(&mut q, cmd(0x8000)).unwrap();
        assert_eq!(b.commands(), 2);
    }
    assert_eq!(q.wptr(), 2);
    assert_eq!(q.in_flight(), 1);
    assert_eq!(q.batch(0), Some(a));
    assert_eq!(q.pending_commands(), 2);
    assert_eq!(q.ring_entry(0), ring_before[0]);
    assert_eq!(q.ring_entry(1), ring_before[1]);
    let next = commit_batch(&mut q, &mut ledger, 0, &[0x9000]);
    assert_eq!(next.wptr, 3);
    assert_eq!(next.value, EventValue(2));
    assert_eq!(q.ring_entry(2), Some(0x9000));
}

#[test]
fn commit_needs_staged_commands() {
    let mut ledger = EventLedger::new();
    let mut q = queue(8);
    let mut b = q.begin_batch(&mut ledger, 0).unwrap();
    assert_eq!(b.commit(&mut q), Err(Error::InvalidArgument));
    assert_eq!(q.in_flight(), 0);
}

#[test]
fn submit_needs_everything_committed() {
    let mut ledger = EventLedger::new();
    let mut q = queue(8);
    let mut b = q.begin_batch(&mut ledger, 0).unwrap();
    b.add(&mut q, cmd(0x1000)).unwrap();
    assert_eq!(b.submit(&mut q), Err(Error::InvalidArgument));
    assert!(q.is_new());
}

#[test]
fn submit_describes_the_queue_and_clears_new() {
    let mut ledger = EventLedger::new();
    let mut q = queue(8);
    let mut b = q.begin_batch(&mut ledger, 5).unwrap();
    b.add(&mut q, cmd(0x1000)).unwrap();
    b.add(&mut q, cmd(0x2000)).unwrap();
    b.commit(&mut q).unwrap();
    let msg = b.submit(&mut q).unwrap();
    assert_eq!(msg.pipe_type, PipeType::Compute);
    assert_eq!(msg.work_queue, 42);
    assert_eq!(msg.wptr, 2);
    assert_eq!(msg.event_slot, 0);
    assert!(msg.is_new);
    assert!(!q.is_new());
    let mut b = q.begin_batch(&mut ledger, 5).unwrap();
    b.add(&mut q, cmd(0x3000)).unwrap();
    b.commit(&mut q).unwrap();
    let msg = b.submit(&mut q).unwrap();
    assert!(!msg.is_new);
    assert_eq!(msg.wptr, 3);
}

#[test]
fn new_lease_makes_queue_new_again() {
    let mut ledger = EventLedger::new();
    let mut q = queue(8);
    let mut b = q.begin_batch(&mut ledger, 0).unwrap();
    b.add(&mut q, cmd(0x1000)).unwrap();
    b.commit(&mut q).unwrap();
    b.submit(&mut q).unwrap();
    assert!(!q.is_new());
    ledger.set_current(0, EventValue(1)).unwrap();
    assert!(q.signal(&mut ledger).idle);
    let b = q.begin_batch(&mut ledger, 0).unwrap();
    assert!(q.is_new());
    assert_eq!(q.event_slot(), Some(0));
    assert_eq!(q.event_value(), Some(EventValue(1)));
    drop(b);
}

#[test]
fn stale_builder_is_refused() {
    let mut ledger = EventLedger::new();
    let mut q = queue(8);
    let mut old = q.begin_batch(&mut ledger, 0).unwrap();
    let mut live = q.begin_batch(&mut ledger, 0).unwrap();
    assert!(!old.is_attached(&q));
    assert!(live.is_attached(&q));
    assert_eq!(old.add(&mut q, cmd(0x1000)), Err(Error::InvalidArgument));
    live.add(&mut q, cmd(0x2000)).unwrap();
    assert_eq!(old.commit(&mut q), Err(Error::InvalidArgument));
    assert!(live.commit(&mut q).is_ok());
}

#[test]
fn builder_of_another_queue_is_refused() {
    let mut ledger = EventLedger::new();
    let mut q1 = queue(8);
    let mut q2 = WorkQueue::new(PipeType::Compute, 43, 1, 8).unwrap();
    let mut b = q1.begin_batch(&mut ledger, 0).unwrap();
    q2.begin_batch(&mut ledger, 0).unwrap();
    assert_eq!(b.add(&mut q2, cmd(0x1000)), Err(Error::InvalidArgument));
    assert_eq!(q2.ring_entry(0), Some(0));
}

#[test]
fn begin_batch_fails_when_no_event_is_free() {
    let mut ledger = EventLedger::new();
    for _ in 0..128 {
        ledger.lease(None).unwrap();
    }
    let mut q = queue(8);
    assert_eq!(q.begin_batch(&mut ledger, 0).err(), Some(Error::Busy));
    assert_eq!(q.event_slot(), None);
}

#[test]
fn begin_batch_reuses_last_slot() {
    let mut ledger = EventLedger::new();
    let mut q = queue(8);
    ledger.lease(None).unwrap();
    commit_batch(&mut q, &mut ledger, 0, &[0x1000]);
    assert_eq!(q.event_slot(), Some(1));
    ledger.set_current(1, EventValue(1)).unwrap();
    q.signal(&mut ledger);
    assert_eq!(q.event_slot(), None);
    ledger.lease(Some(Token { slot: 5 })).unwrap();
    q.begin_batch(&mut ledger, 0).unwrap();
    assert_eq!(q.event_slot(), Some(1));
}

#[test]
fn event_values_wrap_around() {
    let mut ledger = EventLedger::new();
    ledger.set_current(0, EventValue(u32::MAX - 1)).unwrap();
    let mut q = queue(8);
    let a = commit_batch(&mut q, &mut ledger, 0, &[0x1000]);
    let b = commit_batch(&mut q, &mut ledger, 0, &[0x2000]);
    assert_eq!(a.value, EventValue(u32::MAX));
    assert_eq!(b.value, EventValue(0));
    ledger.set_current(0, EventValue(u32::MAX)).unwrap();
    assert_eq!(q.signal(&mut ledger).completed, vec![a]);
    ledger.set_current(0, EventValue(0)).unwrap();
    assert_eq!(q.signal(&mut ledger).completed, vec![b]);
}

#[test]
fn batch_errors_map_to_error_codes() {
    assert_eq!(Error::from(BatchError::Timeout), Error::TimedOut);
    assert_eq!(Error::from(BatchError::Fault(fault(1))), Error::Io);
    assert_eq!(Error::from(BatchError::Unknown), Error::NoData);
    assert_eq!(Error::from(BatchError::Killed), Error::Canceled);
}
