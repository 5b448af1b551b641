//! Hardware completion counters ("events") and the pool they are leased from.
use vstd::prelude::*;

verus! {

/// Number of hardware event slots in the pool.
pub const NUM_EVENTS: u32 = 128;

/// A snapshot of a 32-bit event counter.
///
/// Counters wrap around; see [`EventValue::at_or_before`] for how two values
/// are ordered.
#[derive(Clone, Copy, Debug, PartialEq, Eq, Structural)]
pub struct EventValue(pub u32);

/// Half of the counter's range: the window in which one value is considered
/// to follow another.
pub const HALF_RANGE: u32 = 0x8000_0000;

/// `a` is at or before `b` when `b - a`, taken modulo 2^32, is less than half
/// of the counter's range.
pub open spec fn spec_at_or_before(a: u32, b: u32) -> bool {
    ((b as int - a as int) % 0x1_0000_0000) < HALF_RANGE as int
}

/// The counter value that follows `a`, wrapping from `u32::MAX` to zero.
pub open spec fn spec_next(a: u32) -> u32 {
    ((a as int + 1) % 0x1_0000_0000) as u32
}

impl EventValue {
    /// Whether this value is at or before `other` in wrapping order.
    pub fn at_or_before(&self, other: &EventValue) -> (r: bool)
        ensures
            r == spec_at_or_before(self.0, other.0),
    {
        let d: u32 = other.0.wrapping_sub(self.0);
        d < HALF_RANGE
    }

    /// The value that follows this one.
    pub fn next(&self) -> (r: EventValue)
        ensures
            r.0 == spec_next(self.0),
    {
        EventValue(self.0.wrapping_add(1))
    }

    /// Advances this value by one step.
    pub fn increment(&mut self)
        ensures
            final(self).0 == spec_next(old(self).0),
    {
        self.0 = self.0.wrapping_add(1);
    }
}

/// Remembers which slot a queue last leased, so that it can ask for the same
/// slot again.
#[derive(Clone, Copy, Debug, PartialEq, Eq, Structural)]
pub struct Token {
    pub slot: u32,
}

/// A lease on one event slot of an [`EventLedger`].
#[derive(Debug)]
pub struct Event {
    slot: u32,
}

impl Event {
    pub closed spec fn spec_slot(&self) -> u32 {
        self.slot
    }

    /// The hardware slot of this event.
    pub fn slot(&self) -> (r: u32)
        ensures
            r == self.spec_slot(),
    {
        self.slot
    }

    /// A token that names this event's slot.
    pub fn token(&self) -> (r: Token)
        ensures
            r.slot == self.spec_slot(),
    {
        Token { slot: self.slot }
    }
}

/// The pool of event slots, with the counter value that the device last wrote
/// into each.
pub struct EventLedger {
    stamps: Vec<u32>,
    leased: Vec<bool>,
}

/// The slot that a lease hands out: the previous slot when it is free, else the
/// lowest free slot.
pub open spec fn lease_choice(leased: Seq<bool>, prev: Option<Token>, slot: int) -> bool {
    &&& 0 <= slot < leased.len()
    &&& !leased[slot]
    &&& match prev {
        Some(t) if (t.slot as int) < leased.len() && !leased[t.slot as int] => slot == t.slot,
        _ => forall|j: int| 0 <= j < slot ==> #[trigger] leased[j],
    }
}

impl EventLedger {
    /// A well-formed pool has one entry per slot.
    pub open spec fn wf(&self) -> bool {
        &&& self.spec_stamps().len() == NUM_EVENTS
        &&& self.spec_leased().len() == NUM_EVENTS
    }

    /// Whether each slot is leased, by slot.
    pub closed spec fn spec_leased(&self) -> Seq<bool> {
        self.leased@
    }

    /// The counter value of each slot, by slot.
    pub closed spec fn spec_stamps(&self) -> Seq<u32> {
        self.stamps@
    }

    /// A pool with every slot free and every counter at zero.
    pub fn new() -> (r: EventLedger)
        ensures
            r.wf(),
            forall|i: int| 0 <= i < NUM_EVENTS ==> !#[trigger] r.spec_leased()[i],
            forall|i: int| 0 <= i < NUM_EVENTS ==> #[trigger] r.spec_stamps()[i] == 0,
    {
        let mut stamps: Vec<u32> = Vec::new();
        let mut leased: Vec<bool> = Vec::new();
        let mut i: u32 = 0;
        while i < NUM_EVENTS
            invariant
                i <= NUM_EVENTS,
                stamps@.len() == i,
                leased@.len() == i,
                forall|j: int| 0 <= j < i ==> !#[trigger] leased@[j],
                forall|j: int| 0 <= j < i ==> #[trigger] stamps@[j] == 0,
            decreases NUM_EVENTS - i,
        {
            stamps.push(0);
            leased.push(false);
            i = i + 1;
        }
        EventLedger { stamps, leased }
    }

    /// Leases a free slot, preferring the slot named by `prev`.
    ///
    /// Fails with [`Error::Busy`](crate::error::Error::Busy) when every slot is
    /// leased.
    pub fn lease(&mut self, prev: Option<Token>) -> (r: Result<Event, crate::error::Error>)
        requires
            old(self).wf(),
        ensures
            final(self).wf(),
            final(self).spec_stamps() == old(self).spec_stamps(),
            match r {
                Ok(ev) => {
                    &&& ev.spec_slot() < NUM_EVENTS
                    &&& lease_choice(old(self).spec_leased(), prev, ev.spec_slot() as int)
                    &&& final(self).spec_leased() == old(self).spec_leased().update(
                        ev.spec_slot() as int,
                        true,
                    )
                },
                Err(e) => {
                    &&& e == crate::error::Error::Busy
                    &&& forall|j: int| 0 <= j < NUM_EVENTS ==> #[trigger] old(self).spec_leased()[j]
                    &&& final(self).spec_leased() == old(self).spec_leased()
                },
            },
    {
        if let Some(t) = prev {
            if t.slot < NUM_EVENTS && !self.leased[t.slot as usize] {
                self.leased.set(t.slot as usize, true);
                return Ok(Event { slot: t.slot });
            }
        }
        let mut i: u32 = 0;
        while i < NUM_EVENTS
            invariant
                self.wf(),
                i <= NUM_EVENTS,
                self.leased@ == old(self).leased@,
                self.stamps@ == old(self).stamps@,
                forall|j: int| 0 <= j < i ==> #[trigger] self.leased@[j],
                match prev {
                    Some(t) => !((t.slot as int) < NUM_EVENTS && !self.leased@[t.slot as int]),
                    None => true,
                },
            decreases NUM_EVENTS - i,
        {
            if !self.leased[i as usize] {
                self.leased.set(i as usize, true);
                return Ok(Event { slot: i });
            }
            i = i + 1;
        }
        Err(crate::error::Error::Busy)
    }

    /// Returns the slot of `event` to the pool.
    pub fn release(&mut self, event: Event)
        requires
            old(self).wf(),
        ensures
            final(self).wf(),
            final(self).spec_stamps() == old(self).spec_stamps(),
            final(self).spec_leased() == if event.spec_slot() < NUM_EVENTS {
                old(self).spec_leased().update(event.spec_slot() as int, false)
            } else {
                old(self).spec_leased()
            },
    {
        if event.slot < NUM_EVENTS {
            self.leased.set(event.slot as usize, false);
        }
    }

    /// The counter value last written for the slot of `event`.
    pub fn current(&self, event: &Event) -> (r: EventValue)
        requires
            self.wf(),
            event.spec_slot() < NUM_EVENTS,
        ensures
            r.0 == self.spec_stamps()[event.spec_slot() as int],
    {
        EventValue(self.stamps[event.slot as usize])
    }

    /// Records that the device has advanced the counter of `slot` to `value`.
    pub fn set_current(&mut self, slot: u32, value: EventValue) -> (r: Result<(), crate::error::Error>)
        requires
            old(self).wf(),
        ensures
            final(self).wf(),
            final(self).spec_leased() == old(self).spec_leased(),
            slot < NUM_EVENTS ==> {
                &&& r is Ok
                &&& final(self).spec_stamps() == old(self).spec_stamps().update(slot as int, value.0)
            },
            slot >= NUM_EVENTS ==> {
                &&& r == Err::<(), crate::error::Error>(crate::error::Error::InvalidArgument)
                &&& final(self).spec_stamps() == old(self).spec_stamps()
            },
    {
        if slot < NUM_EVENTS {
            self.stamps.set(slot as usize, value.0);
            Ok(())
        } else {
            Err(crate::error::Error::InvalidArgument)
        }
    }

    /// Whether `slot` is currently leased; false for a slot outside the pool.
    pub fn is_leased(&self, slot: u32) -> (r: bool)
        requires
            self.wf(),
        ensures
            r == (slot < NUM_EVENTS && self.spec_leased()[slot as int]),
    {
        slot < NUM_EVENTS && self.leased[slot as usize]
    }
}

} // verus!
