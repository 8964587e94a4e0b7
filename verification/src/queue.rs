//! The output queue between the call tracker and the drain: one bounded
//! shard per CPU core, each keeping its records in the order they came.

use vstd::prelude::*;
use crate::schema::QueryEvent;

verus! {

/// A queue of records in `shards` independent shards, each holding at most
/// `shard_capacity` records.
pub struct EventQueue {
    shards: Vec<Vec<QueryEvent>>,
    shard_capacity: usize,
}

/// Whether shard `cpu` of `shards` takes one more record under the bound
/// `shard_capacity`.
pub open spec fn shard_has_room(shards: Seq<Seq<QueryEvent>>, shard_capacity: nat, cpu: int) -> bool {
    0 <= cpu < shards.len() && shards[cpu].len() < shard_capacity
}

/// The shards after `event` was offered to shard `cpu`: appended there
/// where the shard has room, dropped otherwise.
pub open spec fn shards_after_push(
    shards: Seq<Seq<QueryEvent>>,
    shard_capacity: nat,
    cpu: int,
    event: QueryEvent,
) -> Seq<Seq<QueryEvent>> {
    if shard_has_room(shards, shard_capacity, cpu) {
        shards.update(cpu, shards[cpu].push(event))
    } else {
        shards
    }
}

/// The shards after shard `shard` was emptied.
pub open spec fn shards_after_drain(shards: Seq<Seq<QueryEvent>>, shard: int) -> Seq<Seq<QueryEvent>> {
    if 0 <= shard < shards.len() {
        shards.update(shard, Seq::empty())
    } else {
        shards
    }
}

impl EventQueue {
    /// The records of each shard, oldest first.
    pub closed spec fn view(&self) -> Seq<Seq<QueryEvent>> {
        Seq::new(self.shards@.len(), |i: int| self.shards@[i]@)
    }

    /// The bound on the length of each shard.
    pub closed spec fn spec_shard_capacity(&self) -> nat {
        self.shard_capacity as nat
    }

    /// No shard holds more than the bound.
    pub open spec fn wf(&self) -> bool {
        forall|i: int| 0 <= i < self@.len() ==> (#[trigger] self@[i]).len() <= self.spec_shard_capacity()
    }

    /// A queue of `shard_count` empty shards.
    pub fn new(shard_count: usize, shard_capacity: usize) -> (q: EventQueue)
        ensures
            q.wf(),
            q@.len() == shard_count,
            q.spec_shard_capacity() == shard_capacity,
            forall|i: int| 0 <= i < shard_count ==> (#[trigger] q@[i]).len() == 0,
    {
        let mut shards: Vec<Vec<QueryEvent>> = Vec::new();
        let mut i: usize = 0;
        while i < shard_count
            invariant
                i <= shard_count,
                shards@.len() == i,
                forall|j: int| 0 <= j < i ==> (#[trigger] shards@[j])@.len() == 0,
            decreases shard_count - i,
        {
            shards.push(Vec::new());
            i += 1;
        }
        EventQueue { shards, shard_capacity }
    }

    /// Number of shards.
    pub fn shard_count(&self) -> (n: usize)
        ensures
            n == self@.len(),
    {
        self.shards.len()
    }

    /// The bound on the length of each shard.
    pub fn shard_capacity(&self) -> (n: usize)
        ensures
            n == self.spec_shard_capacity(),
    {
        self.shard_capacity
    }

    /// Number of records waiting in shard `shard`; 0 where there is no
    /// such shard.
    pub fn pending(&self, shard: usize) -> (n: usize)
        ensures
            n == if shard < self@.len() { self@[shard as int].len() } else { 0 },
    {
        if shard < self.shards.len() {
            self.shards[shard].len()
        } else {
            0
        }
    }

    /// Offers `event` to shard `cpu`. A full shard, or a `cpu` for which
    /// there is no shard, drops the record and leaves the queue as it was.
    pub fn push(&mut self, cpu: usize, event: QueryEvent) -> (accepted: bool)
        requires
            old(self).wf(),
        ensures
            final(self).wf(),
            final(self).spec_shard_capacity() == old(self).spec_shard_capacity(),
            accepted == shard_has_room(old(self)@, old(self).spec_shard_capacity(), cpu as int),
            final(self)@ == shards_after_push(
                old(self)@,
                old(self).spec_shard_capacity(),
                cpu as int,
                event,
            ),
    {
        if cpu < self.shards.len() && self.shards[cpu].len() < self.shard_capacity {
            self.shards[cpu].push(event);
            assert(self@ =~= shards_after_push(
                old(self)@,
                old(self).spec_shard_capacity(),
                cpu as int,
                event,
            ));
            true
        } else {
            false
        }
    }

    /// Takes every record out of shard `shard`, oldest first. Where there
    /// is no such shard, nothing is taken.
    pub fn drain(&mut self, shard: usize) -> (out: Vec<QueryEvent>)
        requires
            old(self).wf(),
        ensures
            final(self).wf(),
            final(self).spec_shard_capacity() == old(self).spec_shard_capacity(),
            out@ == if shard < old(self)@.len() { old(self)@[shard as int] } else { Seq::empty() },
            final(self)@ == shards_after_drain(old(self)@, shard as int),
    {
        let mut out: Vec<QueryEvent> = Vec::new();
        if shard < self.shards.len() {
            std::mem::swap(&mut out, &mut self.shards[shard]);
            assert(self@ =~= shards_after_drain(old(self)@, shard as int));
        }
        out
    }
}

} // verus!
