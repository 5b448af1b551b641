//! GPU command work queues.
//!
//! The firmware schedules work out of work queues: ring buffers of references
//! to work commands, one ring per queue. Commands are staged into the ring by a
//! [`BatchBuilder`] and committed together as a [`Batch`], bound to the next
//! value of the queue's leased event. When the device reports progress,
//! [`WorkQueue::signal`] retires the completed batches in submission order and
//! frees their ring slots; an idle queue gives its event back to the pool.
use vstd::prelude::*;

use crate::error::Error;
use crate::event::{
    lease_choice, spec_at_or_before, spec_next, Event, EventLedger, EventValue, Token, NUM_EVENTS,
};

verus! {

/// The default number of ring slots of a work queue.
pub const WQ_SIZE: u32 = 0x500;

/// The highest queue priority.
pub const MAX_PRIORITY: u32 = 3;

/// The execution pipe that a queue feeds.
#[derive(Clone, Copy, Debug, PartialEq, Eq, Structural)]
pub enum PipeType {
    Vertex,
    Fragment,
    Compute,
}

/// What the device reported about a memory fault.
#[derive(Clone, Copy, Debug, PartialEq, Eq, Structural)]
pub struct FaultInfo {
    /// The faulting device address.
    pub address: u64,
    /// The virtual address space slot that faulted.
    pub vm_slot: u32,
    /// The hardware unit that made the access.
    pub unit_code: u8,
    /// The page table level of the fault.
    pub level: u8,
    /// Whether the access was a read.
    pub read: bool,
}

/// Why a piece of work failed to execute.
#[derive(Clone, Copy, Debug, PartialEq, Eq, Structural)]
pub enum BatchError {
    /// The work took too long to execute.
    Timeout,
    /// The work hit a device memory fault.
    Fault(FaultInfo),
    /// Unknown reason.
    Unknown,
    /// The work failed because of a fault caused by other concurrent work.
    Killed,
}

/// The error code that a failed batch is reported with.
pub open spec fn error_of(e: BatchError) -> Error {
    match e {
        BatchError::Timeout => Error::TimedOut,
        BatchError::Fault(_) => Error::Io,
        BatchError::Unknown => Error::NoData,
        BatchError::Killed => Error::Canceled,
    }
}

impl From<BatchError> for Error {
    fn from(err: BatchError) -> (r: Error)
        ensures
            r == error_of(err),
    {
        match err {
            BatchError::Timeout => Error::TimedOut,
            BatchError::Fault(_) => Error::Io,
            BatchError::Unknown => Error::NoData,
            BatchError::Killed => Error::Canceled,
        }
    }
}

impl vstd::std_specs::convert::FromSpecImpl<BatchError> for Error {
    open spec fn obeys_from_spec() -> bool {
        true
    }

    open spec fn from_spec(v: BatchError) -> Error {
        error_of(v)
    }
}

/// A unit of work built elsewhere; the queue needs only its device address.
#[derive(Clone, Copy, Debug, PartialEq, Eq, Structural)]
pub struct CommandSlot {
    /// Device address of the command record.
    pub addr: u64,
    /// Size of the command record in bytes.
    pub size: u64,
    /// The command's kind tag.
    pub kind: u32,
}

/// A batch of commands committed to a work queue as one unit.
///
/// The queue keeps the batch while it is in flight; failures reported by
/// [`WorkQueue::mark_error`] are recorded there, and [`WorkQueue::signal`]
/// hands the batch back, with its final status, when it retires.
#[derive(Clone, Copy, Debug, PartialEq, Eq, Structural)]
pub struct Batch {
    /// The event value that marks this batch complete.
    pub value: EventValue,
    /// Number of commands in the batch.
    pub commands: usize,
    /// The ring write pointer just after the batch's last command.
    pub wptr: u32,
    /// The virtual address space slot that submitted the batch.
    pub vm_slot: u32,
    /// How the batch failed, if it did.
    pub error: Option<BatchError>,
}

/// The result that waiting on a batch with error classification `e` yields.
pub open spec fn wait_result(e: Option<BatchError>) -> Result<(), BatchError> {
    match e {
        Some(err) => Err(err),
        None => Ok(()),
    }
}

impl Batch {
    /// The batch's execution status, once it has completed: the failure
    /// recorded for it, if any.
    pub fn wait(&self) -> (r: Result<(), BatchError>)
        ensures
            r == wait_result(self.error),
    {
        match self.error {
            Some(err) => Err(err),
            None => Ok(()),
        }
    }
}

/// The request that tells the firmware to run a work queue.
#[derive(Clone, Copy, Debug, PartialEq, Eq, Structural)]
pub struct RunWorkQueueMsg {
    pub pipe_type: PipeType,
    /// Identity of the queue.
    pub work_queue: u64,
    /// The queue's published write pointer.
    pub wptr: u32,
    /// The hardware slot of the queue's event.
    pub event_slot: u32,
    /// Whether this is the first submission against the current event lease.
    pub is_new: bool,
}

/// What a pass of [`WorkQueue::signal`] did.
pub struct SignalOutcome {
    /// Whether the queue has no work in flight any more.
    pub idle: bool,
    /// The batches retired by this pass, oldest first.
    pub completed: Vec<Batch>,
}

// ---------------------------------------------------------------------------
// Ring arithmetic

/// The ring position `k` slots after `p` on a ring of `size` slots
/// (for `p < size`, `k < size`).
pub open spec fn ring_add(p: int, k: int, size: int) -> int {
    if p + k < size {
        p + k
    } else {
        p + k - size
    }
}

/// How many slots lie from position `a` forward to position `b`.
pub open spec fn ring_dist(a: int, b: int, size: int) -> int {
    if a <= b {
        b - a
    } else {
        b + size - a
    }
}

/// The number of commands in a sequence of batches.
pub open spec fn total_commands(bs: Seq<Batch>) -> nat
    decreases bs.len(),
{
    if bs.len() == 0 {
        0
    } else {
        total_commands(bs.drop_last()) + bs.last().commands as nat
    }
}

/// How many batches at the front of `bs` have a target at or before `cur`.
pub open spec fn retire_count(bs: Seq<Batch>, cur: u32) -> nat
    decreases bs.len(),
{
    if bs.len() == 0 {
        0
    } else if spec_at_or_before(bs[0].value.0, cur) {
        1 + retire_count(bs.skip(1), cur)
    } else {
        0
    }
}

/// The failure recorded on a batch of `vm_slot` when `e` is reported: a fault
/// of another slot kills the batch instead of blaming it.
pub open spec fn classify(e: BatchError, vm_slot: u32) -> BatchError {
    match e {
        BatchError::Fault(info) => if info.vm_slot != vm_slot {
            BatchError::Killed
        } else {
            e
        },
        _ => e,
    }
}

/// `b` after failure `e` was reported for all work up to `upto`.
pub open spec fn mark_batch(b: Batch, upto: u32, e: BatchError) -> Batch {
    if spec_at_or_before(b.value.0, upto) {
        Batch { error: Some(classify(e, b.vm_slot)), ..b }
    } else {
        b
    }
}

// ---------------------------------------------------------------------------
// Abstract state

/// The abstract state of a [`WorkQueue`].
pub struct QueueState {
    pub pipe_type: PipeType,
    pub id: u64,
    pub priority: u32,
    /// Number of ring slots.
    pub size: nat,
    /// The device addresses in the ring, by slot.
    pub ring: Seq<u64>,
    /// The published write pointer: one past the last committed command.
    pub wptr: nat,
    /// The consumer pointer: one past the last command of a retired batch.
    pub doneptr: nat,
    /// The committed commands not yet retired, oldest first.
    pub pending: Seq<CommandSlot>,
    /// The batches in flight, in submission order.
    pub batches: Seq<Batch>,
    /// The slot of the last event leased.
    pub last_token: Option<Token>,
    /// The leased event's slot and its last committed value.
    pub event: Option<(u32, EventValue)>,
    /// Whether the next submission is the first against the current lease.
    pub new: bool,
    /// Counts the builders started on the queue; only the latest is live.
    pub epoch: u64,
}

impl QueueState {
    /// Number of ring slots holding committed commands not yet retired.
    pub open spec fn occupancy(self) -> int {
        ring_dist(self.doneptr as int, self.wptr as int, self.size as int)
    }

    pub open spec fn inv(self) -> bool {
        &&& 1 <= self.size <= u32::MAX
        &&& self.ring.len() == self.size
        &&& self.wptr < self.size
        &&& self.doneptr < self.size
        &&& self.priority <= MAX_PRIORITY
        &&& self.pending.len() == self.occupancy()
        &&& total_commands(self.batches) == self.occupancy()
        &&& forall|i: int|
            0 <= i < self.batches.len() ==> {
                &&& (#[trigger] self.batches[i]).commands >= 1
                &&& self.batches[i].wptr == ring_add(
                    self.doneptr as int,
                    total_commands(self.batches.take(i + 1)) as int,
                    self.size as int,
                )
            }
        &&& forall|i: int|
            0 <= i < self.batches.len() - 1 ==> (#[trigger] self.batches[i + 1]).value.0
                == spec_next(self.batches[i].value.0)
        &&& self.batches.len() > 0 ==> {
            &&& self.event is Some
            &&& self.batches.last().value == self.event.unwrap().1
        }
        &&& match self.event {
            Some((slot, _)) => slot < NUM_EVENTS,
            None => true,
        }
    }

    /// The value the device reports for the leased event, given the counters
    /// of the event pool.
    pub open spec fn device_value(self, stamps: Seq<u32>) -> u32 {
        stamps[self.event.unwrap().0 as int]
    }

    /// The batches that a signal pass with device value `cur` retires.
    pub open spec fn retired(self, cur: u32) -> Seq<Batch> {
        match self.event {
            None => Seq::empty(),
            Some(_) => self.batches.take(retire_count(self.batches, cur) as int),
        }
    }

    /// The state after a signal pass with device value `cur`.
    pub open spec fn signaled(self, cur: u32) -> QueueState {
        match self.event {
            None => self,
            Some(_) => {
                let k = retire_count(self.batches, cur) as int;
                let rest = self.batches.skip(k);
                QueueState {
                    doneptr: if k > 0 {
                        self.batches[k - 1].wptr as nat
                    } else {
                        self.doneptr
                    },
                    pending: self.pending.skip(total_commands(self.batches.take(k)) as int),
                    batches: rest,
                    event: if rest.len() == 0 {
                        None
                    } else {
                        self.event
                    },
                    ..self
                }
            },
        }
    }

    /// The state after failure `e` was reported for all work up to `upto`.
    pub open spec fn marked(self, upto: u32, e: BatchError) -> QueueState {
        QueueState {
            batches: Seq::new(self.batches.len(), |i: int| mark_batch(self.batches[i], upto, e)),
            ..self
        }
    }

    /// `other` holds the same work as `self`: the same pointers, commands
    /// and batches, and the same ring contents wherever committed commands
    /// live. Slots outside that region may differ.
    pub open spec fn same_work(self, other: QueueState) -> bool {
        &&& other == (QueueState { ring: other.ring, ..self })
        &&& other.ring.len() == self.ring.len()
        &&& forall|j: int|
            0 <= j < self.occupancy() ==> other.ring[ring_add(
                self.doneptr as int,
                j,
                self.size as int,
            )] == #[trigger] self.ring[ring_add(self.doneptr as int, j, self.size as int)]
    }
}

/// The abstract state of a [`BatchBuilder`].
pub struct BuilderState {
    pub queue_id: u64,
    pub epoch: u64,
    /// The commands staged and not yet committed.
    pub staged: Seq<CommandSlot>,
    /// The builder's own write pointer, past the staged commands.
    pub wptr: nat,
    pub vm_slot: u32,
}

impl BuilderState {
    /// The builder is the live builder of queue `q`, and its staged commands
    /// sit just past the queue's committed ones.
    pub open spec fn attached(self, q: QueueState) -> bool {
        &&& self.queue_id == q.id
        &&& self.epoch == q.epoch
        &&& q.occupancy() + self.staged.len() <= q.size - 1
        &&& self.wptr == ring_add(q.wptr as int, self.staged.len() as int, q.size as int)
    }

    /// Staging one more command would have to wait for ring space.
    pub open spec fn ring_full(self, q: QueueState) -> bool {
        q.occupancy() + self.staged.len() == q.size - 1
    }

    /// The builder and queue after staging `cmd`.
    pub open spec fn staged_one(self, q: QueueState, cmd: CommandSlot) -> (BuilderState, QueueState) {
        (
            BuilderState {
                staged: self.staged.push(cmd),
                wptr: ring_add(self.wptr as int, 1, q.size as int) as nat,
                ..self
            },
            QueueState { ring: q.ring.update(self.wptr as int, cmd.addr), ..q },
        )
    }

    /// The builder and queue after staging each of `cmds` in turn, or `None`
    /// when one of them would have to wait for ring space.
    pub open spec fn staged_all(self, q: QueueState, cmds: Seq<CommandSlot>) -> Option<
        (BuilderState, QueueState),
    >
        decreases cmds.len(),
    {
        if cmds.len() == 0 {
            Some((self, q))
        } else {
            match self.staged_all(q, cmds.drop_last()) {
                None => None,
                Some((b, q2)) => if b.ring_full(q2) {
                    None
                } else {
                    Some(b.staged_one(q2, cmds.last()))
                },
            }
        }
    }
}

// ---------------------------------------------------------------------------
// Lemmas on the model

/// Splitting a sequence of batches splits its command count.
pub proof fn lemma_total_split(bs: Seq<Batch>, k: int)
    requires
        0 <= k <= bs.len(),
    ensures
        total_commands(bs.take(k)) + total_commands(bs.skip(k)) == total_commands(bs),
    decreases bs.len(),
{
    if k == bs.len() {
        assert(bs.take(k) =~= bs);
        assert(bs.skip(k) =~= Seq::<Batch>::empty());
    } else {
        let prev = bs.drop_last();
        lemma_total_split(prev, k);
        assert(bs.take(k) =~= prev.take(k));
        assert(bs.skip(k).drop_last() =~= prev.skip(k));
    }
}

/// Two sequences of batches with the same command counts have the same total.
proof fn lemma_total_same_commands(a: Seq<Batch>, b: Seq<Batch>)
    requires
        a.len() == b.len(),
        forall|i: int| 0 <= i < a.len() ==> (#[trigger] a[i]).commands == b[i].commands,
    ensures
        total_commands(a) == total_commands(b),
    decreases a.len(),
{
    if a.len() > 0 {
        lemma_total_same_commands(a.drop_last(), b.drop_last());
    }
}

/// The command count of the first `k + 1` batches.
proof fn lemma_total_take_next(bs: Seq<Batch>, k: int)
    requires
        0 <= k < bs.len(),
    ensures
        total_commands(bs.take(k + 1)) == total_commands(bs.take(k)) + bs[k].commands,
        total_commands(bs.take(k + 1)) <= total_commands(bs),
{
    assert(bs.take(k + 1).drop_last() =~= bs.take(k));
    lemma_total_split(bs, k + 1);
}

/// What `retire_count` counts: the longest prefix of batches whose targets
/// are at or before `cur`.
pub proof fn lemma_retire_count(bs: Seq<Batch>, cur: u32)
    ensures
        retire_count(bs, cur) <= bs.len(),
        forall|j: int|
            0 <= j < retire_count(bs, cur) ==> spec_at_or_before(#[trigger] bs[j].value.0, cur),
        retire_count(bs, cur) < bs.len() ==> !spec_at_or_before(
            bs[retire_count(bs, cur) as int].value.0,
            cur,
        ),
    decreases bs.len(),
{
    if bs.len() > 0 && spec_at_or_before(bs[0].value.0, cur) {
        let rest = bs.skip(1);
        lemma_retire_count(rest, cur);
        assert forall|j: int| 0 <= j < retire_count(bs, cur) implies spec_at_or_before(
            #[trigger] bs[j].value.0,
            cur,
        ) by {
            if j > 0 {
                assert(bs[j] == rest[j - 1]);
            }
        }
    }
}

/// Any prefix length with the two properties of `lemma_retire_count` is the
/// retire count.
proof fn lemma_retire_count_unique(bs: Seq<Batch>, cur: u32, k: int)
    requires
        0 <= k <= bs.len(),
        forall|j: int| 0 <= j < k ==> spec_at_or_before(#[trigger] bs[j].value.0, cur),
        k < bs.len() ==> !spec_at_or_before(bs[k].value.0, cur),
    ensures
        retire_count(bs, cur) == k,
{
    lemma_retire_count(bs, cur);
    let r = retire_count(bs, cur) as int;
    if r < k {
        assert(spec_at_or_before(bs[r].value.0, cur));
    }
    if r > k {
        assert(spec_at_or_before(bs[k].value.0, cur));
    }
}

/// A signal pass keeps the invariant.
pub proof fn lemma_signaled_inv(s: QueueState, cur: u32)
    requires
        s.inv(),
    ensures
        s.signaled(cur).inv(),
{
    if s.event is Some {
        lemma_retire_count(s.batches, cur);
        let k = retire_count(s.batches, cur) as int;
        let c = total_commands(s.batches.take(k)) as int;
        let t = s.signaled(cur);
        lemma_total_split(s.batches, k);
        if k > 0 {
            assert(s.batches.take(k - 1 + 1) =~= s.batches.take(k));
        }
        assert forall|j: int| 0 <= j < t.batches.len() implies {
            &&& (#[trigger] t.batches[j]).commands >= 1
            &&& t.batches[j].wptr == ring_add(
                t.doneptr as int,
                total_commands(t.batches.take(j + 1)) as int,
                t.size as int,
            )
        } by {
            let pre = s.batches.take(k + j + 1);
            assert(s.batches[k + j] == t.batches[j]);
            lemma_total_split(pre, k);
            assert(pre.take(k) =~= s.batches.take(k));
            assert(pre.skip(k) =~= t.batches.take(j + 1));
            lemma_total_split(s.batches, k + j + 1);
        }
    }
}

/// Reporting a failure keeps the invariant.
pub proof fn lemma_marked_inv(s: QueueState, upto: u32, e: BatchError)
    requires
        s.inv(),
    ensures
        s.marked(upto, e).inv(),
{
    let t = s.marked(upto, e);
    lemma_total_same_commands(s.batches, t.batches);
    assert forall|i: int| 0 <= i < t.batches.len() implies {
        &&& (#[trigger] t.batches[i]).commands >= 1
        &&& t.batches[i].wptr == ring_add(
            t.doneptr as int,
            total_commands(t.batches.take(i + 1)) as int,
            t.size as int,
        )
    } by {
        assert(s.batches[i].commands >= 1);
        lemma_total_same_commands(s.batches.take(i + 1), t.batches.take(i + 1));
    }
}

// ---------------------------------------------------------------------------
// Work queue

/// The epoch that follows `e`, wrapping to zero.
pub open spec fn next_epoch(e: u64) -> u64 {
    if e == u64::MAX {
        0
    } else {
        (e + 1) as u64
    }
}

/// An instance of a work queue.
pub struct WorkQueue {
    pipe_type: PipeType,
    id: u64,
    priority: u32,
    size: u32,
    ring: Vec<u64>,
    wptr: u32,
    doneptr: u32,
    pending: Vec<CommandSlot>,
    batches: Vec<Batch>,
    last_token: Option<Token>,
    event: Option<(Event, EventValue)>,
    new: bool,
    epoch: u64,
}

impl View for WorkQueue {
    type V = QueueState;

    closed spec fn view(&self) -> QueueState {
        QueueState {
            pipe_type: self.pipe_type,
            id: self.id,
            priority: self.priority,
            size: self.size as nat,
            ring: self.ring@,
            wptr: self.wptr as nat,
            doneptr: self.doneptr as nat,
            pending: self.pending@,
            batches: self.batches@,
            last_token: self.last_token,
            event: match self.event {
                Some((ev, v)) => Some((ev.spec_slot(), v)),
                None => None,
            },
            new: self.new,
            epoch: self.epoch,
        }
    }
}

impl WorkQueue {
    /// Creates an empty queue of `size` ring slots for pipe `pipe_type`.
    ///
    /// Fails with `InvalidArgument` when `priority` is above
    /// [`MAX_PRIORITY`] or `size` is zero.
    pub fn new(pipe_type: PipeType, id: u64, priority: u32, size: u32) -> (r: Result<
        WorkQueue,
        Error,
    >)
        ensures
            match r {
                Ok(q) => {
                    &&& priority <= MAX_PRIORITY && size >= 1
                    &&& q@.inv()
                    &&& q@ == (QueueState {
                        pipe_type,
                        id,
                        priority,
                        size: size as nat,
                        ring: Seq::new(size as nat, |i: int| 0u64),
                        wptr: 0,
                        doneptr: 0,
                        pending: Seq::empty(),
                        batches: Seq::empty(),
                        last_token: None,
                        event: None,
                        new: true,
                        epoch: 0,
                    })
                },
                Err(e) => e == Error::InvalidArgument && (priority > MAX_PRIORITY || size == 0),
            },
    {
        if priority > MAX_PRIORITY || size == 0 {
            return Err(Error::InvalidArgument);
        }
        let mut ring: Vec<u64> = Vec::new();
        let mut i: u32 = 0;
        while i < size
            invariant
                i <= size,
                ring@ == Seq::new(i as nat, |j: int| 0u64),
            decreases size - i,
        {
            ring.push(0);
            i = i + 1;
        }
        let q = WorkQueue {
            pipe_type,
            id,
            priority,
            size,
            ring,
            wptr: 0,
            doneptr: 0,
            pending: Vec::new(),
            batches: Vec::new(),
            last_token: None,
            event: None,
            new: true,
            epoch: 0,
        };
        proof {
            assert(q@.ring =~= Seq::new(size as nat, |i: int| 0u64));
        }
        Ok(q)
    }

    /// Number of ring slots holding committed commands not yet retired.
    fn occupancy(&self) -> (r: u32)
        requires
            self@.inv(),
        ensures
            r == self@.occupancy(),
    {
        if self.doneptr <= self.wptr {
            self.wptr - self.doneptr
        } else {
            (self.wptr as u64 + self.size as u64 - self.doneptr as u64) as u32
        }
    }

    /// The queue's identity.
    pub fn id(&self) -> (r: u64)
        ensures
            r == self@.id,
    {
        self.id
    }

    /// The pipe this queue feeds.
    pub fn pipe_type(&self) -> (r: PipeType)
        ensures
            r == self@.pipe_type,
    {
        self.pipe_type
    }

    /// The queue's priority.
    pub fn priority(&self) -> (r: u32)
        ensures
            r == self@.priority,
    {
        self.priority
    }

    /// Number of ring slots.
    pub fn size(&self) -> (r: u32)
        ensures
            r == self@.size,
    {
        self.size
    }

    /// The published write pointer.
    pub fn wptr(&self) -> (r: u32)
        ensures
            r == self@.wptr,
    {
        self.wptr
    }

    /// The consumer pointer: how far the device has finished the ring.
    pub fn doneptr(&self) -> (r: u32)
        ensures
            r == self@.doneptr,
    {
        self.doneptr
    }

    /// Number of ring slots that can take new commands; one slot always
    /// stays empty.
    pub fn free_slots(&self) -> (r: u32)
        requires
            self@.inv(),
        ensures
            r == self@.size - 1 - self@.occupancy(),
    {
        self.size - 1 - self.occupancy()
    }

    /// The device address held in ring slot `i`, if the ring has that slot.
    pub fn ring_entry(&self, i: u32) -> (r: Option<u64>)
        requires
            self@.inv(),
        ensures
            r == if i < self@.size {
                Some(self@.ring[i as int])
            } else {
                None::<u64>
            },
    {
        if i < self.size {
            Some(self.ring[i as usize])
        } else {
            None
        }
    }

    /// Number of batches in flight.
    pub fn in_flight(&self) -> (r: usize)
        ensures
            r == self@.batches.len(),
    {
        self.batches.len()
    }

    /// The `i`-th batch in flight, oldest first.
    pub fn batch(&self, i: usize) -> (r: Option<Batch>)
        ensures
            r == if i < self@.batches.len() {
                Some(self@.batches[i as int])
            } else {
                None::<Batch>
            },
    {
        if i < self.batches.len() {
            Some(self.batches[i])
        } else {
            None
        }
    }

    /// Number of committed commands not yet retired.
    pub fn pending_commands(&self) -> (r: usize)
        ensures
            r == self@.pending.len(),
    {
        self.pending.len()
    }

    /// Whether the next submission is the first against the current lease.
    pub fn is_new(&self) -> (r: bool)
        ensures
            r == self@.new,
    {
        self.new
    }

    /// The slot of the leased event, if the queue holds one.
    pub fn event_slot(&self) -> (r: Option<u32>)
        ensures
            r == match self@.event {
                Some((slot, _)) => Some(slot),
                None => None::<u32>,
            },
    {
        match &self.event {
            Some(e) => Some(e.0.slot()),
            None => None,
        }
    }

    /// The last committed value of the leased event, if the queue holds one.
    /// New work completes at the value after it.
    pub fn event_value(&self) -> (r: Option<EventValue>)
        ensures
            r == match self@.event {
                Some((_, v)) => Some(v),
                None => None::<EventValue>,
            },
    {
        match &self.event {
            Some(e) => Some(e.1),
            None => None,
        }
    }

    /// Starts a new batch of work on this queue, leasing an event from
    /// `ledger` if the queue holds none.
    ///
    /// The builder returned is the queue's live builder; starting another one
    /// detaches it. Fails with `Busy` when an event is needed and the pool has
    /// none free.
    pub fn begin_batch(&mut self, ledger: &mut EventLedger, vm_slot: u32) -> (r: Result<
        BatchBuilder,
        Error,
    >)
        requires
            old(self)@.inv(),
            old(ledger).wf(),
        ensures
            final(self)@.inv(),
            final(ledger).wf(),
            final(ledger).spec_stamps() == old(ledger).spec_stamps(),
            match r {
                Ok(b) => {
                    let slot = final(self)@.event.unwrap().0;
                    &&& final(self)@.event is Some
                    &&& b@ == (BuilderState {
                        queue_id: old(self)@.id,
                        epoch: next_epoch(old(self)@.epoch),
                        staged: Seq::empty(),
                        wptr: old(self)@.wptr,
                        vm_slot,
                    })
                    &&& b@.attached(final(self)@)
                    &&& old(self)@.event is Some ==> {
                        &&& final(self)@ == (QueueState {
                            epoch: next_epoch(old(self)@.epoch),
                            ..old(self)@
                        })
                        &&& final(ledger).spec_leased() == old(ledger).spec_leased()
                    }
                    &&& old(self)@.event is None ==> {
                        &&& lease_choice(old(ledger).spec_leased(), old(self)@.last_token, slot as int)
                        &&& final(ledger).spec_leased() == old(ledger).spec_leased().update(
                            slot as int,
                            true,
                        )
                        &&& final(self)@ == (QueueState {
                            epoch: next_epoch(old(self)@.epoch),
                            event: Some((slot, EventValue(old(ledger).spec_stamps()[slot as int]))),
                            last_token: Some(Token { slot }),
                            new: true,
                            ..old(self)@
                        })
                    }
                },
                Err(e) => {
                    &&& e == Error::Busy
                    &&& old(self)@.event is None
                    &&& forall|j: int|
                        0 <= j < NUM_EVENTS ==> #[trigger] old(ledger).spec_leased()[j]
                    &&& final(self)@ == old(self)@
                    &&& final(ledger).spec_leased() == old(ledger).spec_leased()
                },
            },
    {
        if self.event.is_none() {
            let event = ledger.lease(self.last_token)?;
            let cur = ledger.current(&event);
            self.last_token = Some(event.token());
            self.event = Some((event, cur));
            self.new = true;
        }
        self.epoch = if self.epoch == u64::MAX {
            0
        } else {
            self.epoch + 1
        };
        let b = BatchBuilder {
            queue_id: self.id,
            epoch: self.epoch,
            staged: Vec::new(),
            wptr: self.wptr,
            vm_slot,
        };
        proof {
            assert(b@.staged.len() == 0);
        }
        Ok(b)
    }

    /// Retires the batches that the device has completed.
    ///
    /// Reads the leased event's counter in `ledger` and retires, oldest first,
    /// the batches whose target is at or before it, stopping at the first that
    /// is not; frees their ring slots and hands them back in `completed`. When
    /// no batch is left in flight the event goes back to the pool. Returns
    /// with `idle` set when nothing is in flight.
    pub fn signal(&mut self, ledger: &mut EventLedger) -> (r: SignalOutcome)
        requires
            old(self)@.inv(),
            old(ledger).wf(),
        ensures
            final(self)@.inv(),
            final(ledger).wf(),
            final(ledger).spec_stamps() == old(ledger).spec_stamps(),
            ({
                let cur = old(self)@.device_value(old(ledger).spec_stamps());
                &&& final(self)@ == old(self)@.signaled(cur)
                &&& r.completed@ == old(self)@.retired(cur)
            }),
            r.idle == (final(self)@.batches.len() == 0),
            final(ledger).spec_leased() == if old(self)@.event is Some && final(self)@.event is None {
                old(ledger).spec_leased().update(old(self)@.event.unwrap().0 as int, false)
            } else {
                old(ledger).spec_leased()
            },
    {
        let cur = match &self.event {
            None => {
                return SignalOutcome { idle: true, completed: Vec::new() };
            },
            Some(ev) => ledger.current(&ev.0),
        };
        let ghost s = self@;
        let n = self.batches.len();
        let mut k: usize = 0;
        let mut c: usize = 0;
        while k < n && self.batches[k].value.at_or_before(&cur)
            invariant
                self@ == s,
                s.inv(),
                n == s.batches.len(),
                k <= n,
                c == total_commands(s.batches.take(k as int)),
                forall|j: int| 0 <= j < k ==> spec_at_or_before(#[trigger] s.batches[j].value.0, cur.0),
            decreases n - k,
        {
            proof {
                lemma_total_take_next(s.batches, k as int);
            }
            c = c + self.batches[k].commands;
            k = k + 1;
        }
        proof {
            lemma_retire_count_unique(s.batches, cur.0, k as int);
            lemma_total_split(s.batches, k as int);
            lemma_signaled_inv(s, cur.0);
        }
        let mut completed = self.batches.split_off(k);
        core::mem::swap(&mut completed, &mut self.batches);
        if k > 0 {
            self.doneptr = completed[k - 1].wptr;
        }
        let rest = self.pending.split_off(c);
        self.pending = rest;
        let idle = self.batches.len() == 0;
        if idle {
            if let Some((ev, _)) = self.event.take() {
                ledger.release(ev);
            }
        }
        proof {
            assert(self@.pending =~= s.signaled(cur.0).pending);
            assert(self@.batches =~= s.signaled(cur.0).batches);
            assert(completed@ =~= s.retired(cur.0));
        }
        SignalOutcome { idle, completed }
    }

    /// Records that all work up to event value `upto` failed with `error`.
    ///
    /// First retires whatever already completed, as [`WorkQueue::signal`]
    /// does, and returns those batches. Then every batch still in flight
    /// whose target is at or before `upto` is classified: a fault of another
    /// address space slot than the batch's marks it `Killed`, any other
    /// error is stored as given. Batches stay in flight until a later signal
    /// retires them.
    pub fn mark_error(&mut self, ledger: &mut EventLedger, upto: EventValue, error: BatchError) -> (r:
        Vec<Batch>)
        requires
            old(self)@.inv(),
            old(ledger).wf(),
        ensures
            final(self)@.inv(),
            final(ledger).wf(),
            final(ledger).spec_stamps() == old(ledger).spec_stamps(),
            ({
                let cur = old(self)@.device_value(old(ledger).spec_stamps());
                &&& final(self)@ == old(self)@.signaled(cur).marked(upto.0, error)
                &&& r@ == old(self)@.retired(cur)
            }),
            final(ledger).spec_leased() == if old(self)@.event is Some && final(self)@.event is None {
                old(ledger).spec_leased().update(old(self)@.event.unwrap().0 as int, false)
            } else {
                old(ledger).spec_leased()
            },
    {
        let out = self.signal(ledger);
        let ghost s = self@;
        let n = self.batches.len();
        let mut i: usize = 0;
        while i < n
            invariant
                s.inv(),
                n == s.batches.len(),
                i <= n,
                self@ == (QueueState { batches: self@.batches, ..s }),
                self@.batches.len() == n,
                forall|j: int|
                    0 <= j < i ==> #[trigger] self@.batches[j] == mark_batch(
                        s.batches[j],
                        upto.0,
                        error,
                    ),
                forall|j: int| i <= j < n ==> #[trigger] self@.batches[j] == s.batches[j],
            decreases n - i,
        {
            let b = self.batches[i];
            if b.value.at_or_before(&upto) {
                let e = classify_error(error, b.vm_slot);
                self.batches.set(i, Batch { error: Some(e), ..b });
            }
            i = i + 1;
        }
        proof {
            assert(self@.batches =~= s.marked(upto.0, error).batches);
            lemma_marked_inv(s, upto.0, error);
        }
        out.completed
    }
}

/// The failure recorded on a batch of `vm_slot` when `e` is reported.
fn classify_error(e: BatchError, vm_slot: u32) -> (r: BatchError)
    ensures
        r == classify(e, vm_slot),
{
    match e {
        BatchError::Fault(info) => if info.vm_slot != vm_slot {
            BatchError::Killed
        } else {
            e
        },
        _ => e,
    }
}

// ---------------------------------------------------------------------------
// Batch builder

/// Ring arithmetic: stepping `a` then `b` slots is stepping `a + b` slots.
proof fn lemma_ring_add_assoc(p: int, a: int, b: int, size: int)
    requires
        0 <= p < size,
        0 <= a,
        0 <= b,
        a + b < size,
    ensures
        ring_add(ring_add(p, a, size), b, size) == ring_add(p, a + b, size),
        ring_dist(p, ring_add(p, a, size), size) == a,
        0 <= ring_add(p, a, size) < size,
{
}

/// An in-progress batch of commands for a [`WorkQueue`].
///
/// Commands staged by [`BatchBuilder::add`] become visible to the device only
/// when [`BatchBuilder::commit`] publishes them; a builder dropped with staged
/// commands rolls them back, leaving the queue as it was.
pub struct BatchBuilder {
    queue_id: u64,
    epoch: u64,
    staged: Vec<CommandSlot>,
    wptr: u32,
    vm_slot: u32,
}

impl View for BatchBuilder {
    type V = BuilderState;

    closed spec fn view(&self) -> BuilderState {
        BuilderState {
            queue_id: self.queue_id,
            epoch: self.epoch,
            staged: self.staged@,
            wptr: self.wptr as nat,
            vm_slot: self.vm_slot,
        }
    }
}

impl BatchBuilder {
    /// Whether this builder is the live builder of `q`.
    pub fn is_attached(&self, q: &WorkQueue) -> (r: bool)
        requires
            q@.inv(),
        ensures
            r == self@.attached(q@),
    {
        if self.queue_id != q.id || self.epoch != q.epoch {
            return false;
        }
        let occ = q.occupancy() as u64;
        let n = self.staged.len() as u64;
        let size = q.size as u64;
        if n > size - 1 - occ {
            return false;
        }
        let w = q.wptr as u64 + n;
        let expect = if w < size {
            w
        } else {
            w - size
        };
        self.wptr as u64 == expect
    }

    /// Number of commands staged and not yet committed.
    pub fn commands(&self) -> (r: usize)
        ensures
            r == self@.staged.len(),
    {
        self.staged.len()
    }

    /// Stages `command` at the builder's write pointer.
    ///
    /// Fails with `RingFull`, changing nothing, when the ring has no free
    /// slot: the producer then waits until [`WorkQueue::signal`] retires work,
    /// and tries again. Fails with `InvalidArgument` when the builder is not
    /// the live builder of `q`.
    pub fn add(&mut self, q: &mut WorkQueue, command: CommandSlot) -> (r: Result<(), Error>)
        requires
            old(q)@.inv(),
        ensures
            final(q)@.inv(),
            old(q)@.same_work(final(q)@),
            !old(self)@.attached(old(q)@) ==> {
                &&& r == Err::<(), Error>(Error::InvalidArgument)
                &&& final(self)@ == old(self)@
                &&& final(q)@ == old(q)@
            },
            old(self)@.attached(old(q)@) && old(self)@.ring_full(old(q)@) ==> {
                &&& r == Err::<(), Error>(Error::RingFull)
                &&& final(self)@ == old(self)@
                &&& final(q)@ == old(q)@
            },
            old(self)@.attached(old(q)@) && !old(self)@.ring_full(old(q)@) ==> {
                &&& r is Ok
                &&& (final(self)@, final(q)@) == old(self)@.staged_one(old(q)@, command)
                &&& final(self)@.attached(final(q)@)
            },
    {
        if !self.is_attached(q) {
            return Err(Error::InvalidArgument);
        }
        proof {
            let qs = q@;
            lemma_ring_add_assoc(qs.doneptr as int, qs.occupancy(), self@.staged.len() as int, qs.size as int);
            vstd::arithmetic::div_mod::lemma_mod_self_0(qs.size as int);
            if self.wptr + 1 < qs.size {
                vstd::arithmetic::div_mod::lemma_small_mod((self.wptr + 1) as nat, qs.size);
            }
        }
        let next_wptr = (self.wptr + 1) % q.size;
        if q.doneptr == next_wptr {
            return Err(Error::RingFull);
        }
        q.ring.set(self.wptr as usize, command.addr);
        self.wptr = next_wptr;
        self.staged.push(command);
        proof {
            let qs = old(q)@;
            lemma_ring_add_assoc(qs.wptr as int, old(self)@.staged.len() as int, 1, qs.size as int);
            assert forall|j: int| 0 <= j < qs.occupancy() implies q@.ring[ring_add(
                qs.doneptr as int,
                j,
                qs.size as int,
            )] == #[trigger] qs.ring[ring_add(qs.doneptr as int, j, qs.size as int)] by {
                lemma_ring_add_assoc(qs.doneptr as int, qs.occupancy(), old(self)@.staged.len() as int, qs.size as int);
            }
        }
        Ok(())
    }

    /// Commits the staged commands as one batch.
    ///
    /// The batch's target is the next value of the queue's event; the queue's
    /// published write pointer moves past the batch, which joins the end of
    /// the in-flight list. The builder can then stage further commands.
    /// Fails with `InvalidArgument`, changing nothing, when no command is
    /// staged, the builder is not the live builder of `q`, or `q` holds no
    /// event.
    pub fn commit(&mut self, q: &mut WorkQueue) -> (r: Result<Batch, Error>)
        requires
            old(q)@.inv(),
        ensures
            final(q)@.inv(),
            (!old(self)@.attached(old(q)@) || old(self)@.staged.len() == 0 || old(q)@.event is None)
                ==> {
                &&& r == Err::<Batch, Error>(Error::InvalidArgument)
                &&& final(self)@ == old(self)@
                &&& final(q)@ == old(q)@
            },
            (old(self)@.attached(old(q)@) && old(self)@.staged.len() > 0 && old(q)@.event is Some)
                ==> {
                let (slot, base) = old(q)@.event.unwrap();
                let batch = Batch {
                    value: EventValue(spec_next(base.0)),
                    commands: old(self)@.staged.len() as usize,
                    wptr: old(self)@.wptr as u32,
                    vm_slot: old(self)@.vm_slot,
                    error: None,
                };
                &&& r == Ok::<Batch, Error>(batch)
                &&& final(q)@ == (QueueState {
                    wptr: old(self)@.wptr,
                    pending: old(q)@.pending + old(self)@.staged,
                    batches: old(q)@.batches.push(batch),
                    event: Some((slot, batch.value)),
                    ..old(q)@
                })
                &&& final(self)@ == (BuilderState { staged: Seq::empty(), ..old(self)@ })
                &&& final(self)@.attached(final(q)@)
            },
    {
        if !self.is_attached(q) || self.staged.len() == 0 {
            return Err(Error::InvalidArgument);
        }
        let (ev, base) = match q.event.take() {
            Some(e) => e,
            None => {
                return Err(Error::InvalidArgument);
            },
        };
        let ghost qs = old(q)@;
        let ghost bs = old(self)@;
        let value = base.next();
        q.event = Some((ev, value));
        q.wptr = self.wptr;
        let n = self.staged.len();
        q.pending.append(&mut self.staged);
        let batch = Batch { value, commands: n, wptr: self.wptr, vm_slot: self.vm_slot, error: None };
        q.batches.push(batch);
        proof {
            lemma_ring_add_assoc(qs.doneptr as int, qs.occupancy(), n as int, qs.size as int);
            assert(q@.batches.drop_last() =~= qs.batches);
            assert forall|i: int| 0 <= i < q@.batches.len() implies {
                &&& (#[trigger] q@.batches[i]).commands >= 1
                &&& q@.batches[i].wptr == ring_add(
                    q@.doneptr as int,
                    total_commands(q@.batches.take(i + 1)) as int,
                    q@.size as int,
                )
            } by {
                if i < qs.batches.len() {
                    assert(q@.batches.take(i + 1) =~= qs.batches.take(i + 1));
                } else {
                    assert(q@.batches.take(i + 1) =~= q@.batches);
                }
            }
            assert(self@.staged =~= Seq::<CommandSlot>::empty());
        }
        Ok(batch)
    }

    /// Hands back the request that tells the firmware to run the queue, for
    /// the pipe submission channel to send, and clears the queue's "new" flag.
    ///
    /// Fails with `InvalidArgument`, changing nothing, when commands are
    /// staged and not committed, the builder is not the live builder of `q`,
    /// or `q` holds no event.
    pub fn submit(self, q: &mut WorkQueue) -> (r: Result<RunWorkQueueMsg, Error>)
        requires
            old(q)@.inv(),
        ensures
            final(q)@.inv(),
            (!self@.attached(old(q)@) || self@.staged.len() != 0 || old(q)@.event is None) ==> {
                &&& r == Err::<RunWorkQueueMsg, Error>(Error::InvalidArgument)
                &&& final(q)@ == old(q)@
            },
            (self@.attached(old(q)@) && self@.staged.len() == 0 && old(q)@.event is Some) ==> {
                &&& r == Ok::<RunWorkQueueMsg, Error>(
                    RunWorkQueueMsg {
                        pipe_type: old(q)@.pipe_type,
                        work_queue: old(q)@.id,
                        wptr: old(q)@.wptr as u32,
                        event_slot: old(q)@.event.unwrap().0,
                        is_new: old(q)@.new,
                    },
                )
                &&& final(q)@ == (QueueState { new: false, ..old(q)@ })
            },
    {
        if !self.is_attached(q) || self.staged.len() != 0 {
            return Err(Error::InvalidArgument);
        }
        let event_slot = match &q.event {
            Some(e) => e.0.slot(),
            None => {
                return Err(Error::InvalidArgument);
            },
        };
        let msg = RunWorkQueueMsg {
            pipe_type: q.pipe_type,
            work_queue: q.id,
            wptr: q.wptr,
            event_slot,
            is_new: q.new,
        };
        q.new = false;
        Ok(msg)
    }
}

// ---------------------------------------------------------------------------
// Guarantees of the queue

/// Staging commands never has to wait while the ring keeps a free slot: from
/// a live builder, each of `cmds` is staged in turn without waiting as long as
/// the committed and staged commands together with `cmds` fit in
/// `size - 1` slots. The builder stays live and holds all of them, and the
/// queue's work is untouched.
pub proof fn lemma_adds_within_capacity(b: BuilderState, q: QueueState, cmds: Seq<CommandSlot>)
    requires
        q.inv(),
        b.attached(q),
        q.occupancy() + b.staged.len() + cmds.len() <= q.size - 1,
    ensures
        b.staged_all(q, cmds) is Some,
        b.staged_all(q, cmds).unwrap().0.attached(b.staged_all(q, cmds).unwrap().1),
        b.staged_all(q, cmds).unwrap().0.staged == b.staged + cmds,
        q.same_work(b.staged_all(q, cmds).unwrap().1),
    decreases cmds.len(),
{
    if cmds.len() == 0 {
        assert(b.staged + cmds =~= b.staged);
    } else {
        let init = cmds.drop_last();
        lemma_adds_within_capacity(b, q, init);
        let (b1, q1) = b.staged_all(q, init).unwrap();
        assert(q1.occupancy() == q.occupancy());
        assert(!b1.ring_full(q1));
        let (b2, q2) = b1.staged_one(q1, cmds.last());
        lemma_ring_add_assoc(q1.wptr as int, b1.staged.len() as int, 1, q1.size as int);
        assert(b2.staged =~= b.staged + cmds);
        lemma_ring_add_assoc(q.doneptr as int, q.occupancy(), b1.staged.len() as int, q.size as int);
        assert forall|j: int| 0 <= j < q.occupancy() implies q2.ring[ring_add(
            q.doneptr as int,
            j,
            q.size as int,
        )] == #[trigger] q.ring[ring_add(q.doneptr as int, j, q.size as int)] by {
            assert(q1.ring[ring_add(q.doneptr as int, j, q.size as int)] == q.ring[ring_add(
                q.doneptr as int,
                j,
                q.size as int,
            )]);
        }
    }
}

/// A builder whose next command finds the ring full keeps waiting through
/// every signal pass that retires nothing, and can go on as soon as a pass
/// retires the oldest batch: it stays live either way.
pub proof fn lemma_full_ring_waits_for_retirement(b: BuilderState, q: QueueState, cur: u32)
    requires
        q.inv(),
        b.attached(q),
        b.ring_full(q),
    ensures
        b.attached(q.signaled(cur)),
        b.ring_full(q.signaled(cur)) <==> q.retired(cur).len() == 0,
{
    lemma_signaled_inv(q, cur);
    if q.event is Some {
        let k = retire_count(q.batches, cur) as int;
        lemma_retire_count(q.batches, cur);
        lemma_total_split(q.batches, k);
        if k > 0 {
            lemma_total_take_next(q.batches, 0);
            assert(q.batches.take(0) =~= Seq::<Batch>::empty());
            lemma_total_split(q.batches.take(k), 1);
            assert(q.batches.take(k).take(1) =~= q.batches.take(1));
        }
        assert(q.batches.take(0) =~= Seq::<Batch>::empty());
    }
}

/// Signal passes retire batches in submission order: what one pass retires,
/// followed by what stays in flight, is exactly the batches in flight before.
pub proof fn lemma_signal_keeps_order(q: QueueState, cur: u32)
    requires
        q.inv(),
    ensures
        q.retired(cur) + q.signaled(cur).batches == q.batches,
{
    lemma_retire_count(q.batches, cur);
    assert(q.retired(cur) + q.signaled(cur).batches =~= q.batches);
}

/// A fault reported for all work up to `upto` blames the in-flight batches of
/// the faulting slot, kills those of other slots, and leaves the batches
/// after `upto` as they were.
pub proof fn lemma_fault_attribution(q: QueueState, upto: u32, info: FaultInfo)
    ensures
        q.marked(upto, BatchError::Fault(info)).batches.len() == q.batches.len(),
        forall|i: int|
            0 <= i < q.batches.len() ==> {
                let before = q.batches[i];
                let after = #[trigger] q.marked(upto, BatchError::Fault(info)).batches[i];
                &&& spec_at_or_before(before.value.0, upto) && before.vm_slot == info.vm_slot
                    ==> after == (Batch { error: Some(BatchError::Fault(info)), ..before })
                &&& spec_at_or_before(before.value.0, upto) && before.vm_slot != info.vm_slot
                    ==> after == (Batch { error: Some(BatchError::Killed), ..before })
                &&& !spec_at_or_before(before.value.0, upto) ==> after == before
            },
{
}

/// A second signal pass without new device progress does nothing: it
/// retires no batch, and leaves the queue, and so its event lease, as the
/// first pass left them.
pub proof fn lemma_signal_idempotent(q: QueueState, cur: u32)
    requires
        q.inv(),
    ensures
        q.signaled(cur).retired(cur).len() == 0,
        q.signaled(cur).signaled(cur) == q.signaled(cur),
{
    let t = q.signaled(cur);
    lemma_retire_count(q.batches, cur);
    if t.event is Some {
        let k = retire_count(q.batches, cur) as int;
        assert(t.batches[0] == q.batches[k]);
        assert(retire_count(t.batches, cur) == 0);
        assert(t.batches.take(0) =~= Seq::<Batch>::empty());
        assert(t.batches.skip(0) =~= t.batches);
        assert(t.pending.skip(0) =~= t.pending);
    }
}

/// Staging commands and then dropping the builder undoes the staging: the
/// queue keeps the same pointers, in-flight batches and commands, and the
/// same ring contents wherever committed commands live.
pub proof fn lemma_rollback_keeps_work(b: BuilderState, q: QueueState, cmds: Seq<CommandSlot>)
    requires
        q.inv(),
        b.attached(q),
        b.staged_all(q, cmds) is Some,
    ensures
        q.same_work(b.staged_all(q, cmds).unwrap().1),
    decreases cmds.len(),
{
    if cmds.len() > 0 {
        let init = cmds.drop_last();
        lemma_rollback_keeps_work(b, q, init);
        lemma_staged_all_attached(b, q, init);
        let (b1, q1) = b.staged_all(q, init).unwrap();
        let q2 = b.staged_all(q, cmds).unwrap().1;
        lemma_ring_add_assoc(q.doneptr as int, q.occupancy(), b1.staged.len() as int, q.size as int);
        assert forall|j: int| 0 <= j < q.occupancy() implies q2.ring[ring_add(
            q.doneptr as int,
            j,
            q.size as int,
        )] == #[trigger] q.ring[ring_add(q.doneptr as int, j, q.size as int)] by {
            assert(q1.ring[ring_add(q.doneptr as int, j, q.size as int)] == q.ring[ring_add(
                q.doneptr as int,
                j,
                q.size as int,
            )]);
        }
    }
}

/// Staging keeps a live builder live, and its staged commands grow by the
/// commands staged.
proof fn lemma_staged_all_attached(b: BuilderState, q: QueueState, cmds: Seq<CommandSlot>)
    requires
        q.inv(),
        b.attached(q),
        b.staged_all(q, cmds) is Some,
    ensures
        b.staged_all(q, cmds).unwrap().0.attached(b.staged_all(q, cmds).unwrap().1),
        b.staged_all(q, cmds).unwrap().0.staged.len() == b.staged.len() + cmds.len(),
        b.staged_all(q, cmds).unwrap().1 == (QueueState {
            ring: b.staged_all(q, cmds).unwrap().1.ring,
            ..q
        }),
        b.staged_all(q, cmds).unwrap().1.ring.len() == q.ring.len(),
    decreases cmds.len(),
{
    if cmds.len() > 0 {
        let init = cmds.drop_last();
        lemma_staged_all_attached(b, q, init);
        let (b1, q1) = b.staged_all(q, init).unwrap();
        lemma_ring_add_assoc(q1.wptr as int, b1.staged.len() as int, 1, q1.size as int);
    }
}

} // verus!
