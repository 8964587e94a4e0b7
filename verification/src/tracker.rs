//! The call tracker: pairs each entry into the instrumented function with
//! its return, by the calling thread's identity, and queues one record per
//! completed call.
//!
//! Timestamps arrive in nanoseconds and are kept in microseconds, the unit
//! of every duration in this crate.

use vstd::prelude::*;
use std::collections::HashMap;
use crate::schema::{QueryByteArray, QueryEvent};
use crate::queue::{shard_has_room, shards_after_drain, shards_after_push, EventQueue};

verus! {

broadcast use vstd::std_specs::hash::group_hash_axioms;

/// What is remembered of a call between its entry and its return.
#[derive(Clone, Copy, Debug, PartialEq, Eq)]
pub struct QueryInfo {
    pub query: QueryByteArray,
    /// When the call was entered, in microseconds.
    pub start_time: u64,
}

/// What became of an entry.
#[derive(Clone, Copy, Debug, PartialEq, Eq, Structural)]
pub enum EntryOutcome {
    /// The call is now in flight.
    Recorded,
    /// The query text could not be read: nothing was recorded.
    NoCapture,
    /// The table is full: the call was dropped.
    TableFull,
}

/// What became of a return.
#[derive(Clone, Copy, Debug, PartialEq, Eq, Structural)]
pub enum ReturnOutcome {
    /// No call of this thread was in flight: nothing happened.
    Unmatched,
    /// The call's record was queued.
    Emitted,
    /// The call was in flight, but its shard took no record: the record
    /// is lost.
    Dropped,
}

/// The microsecond in which nanosecond `ns` falls.
pub open spec fn micros(ns: u64) -> u64 {
    ns / 1000
}

/// Time from `start` to `end`, both in microseconds. A clock that went
/// backwards wraps around, as unsigned subtraction does.
pub open spec fn elapsed(start: u64, end: u64) -> u64 {
    if end >= start {
        (end - start) as u64
    } else {
        (end - start + 0x1_0000_0000_0000_0000) as u64
    }
}

/// The mathematical state of a tracker.
pub struct TrackerModel {
    /// The calls in flight, by thread identity.
    pub table: Map<u64, QueryInfo>,
    /// The most calls that can be in flight at once.
    pub capacity: nat,
    /// The queued records of each shard, oldest first.
    pub shards: Seq<Seq<QueryEvent>>,
    /// The bound on the length of each shard.
    pub shard_capacity: nat,
}

impl TrackerModel {
    /// The table takes an entry under `thread`: the key is there already,
    /// or a slot is free.
    pub open spec fn admits(self, thread: u64) -> bool {
        self.table.contains_key(thread) || self.table.len() < self.capacity
    }

    /// The state after `info` was offered to the table under `thread`.
    pub open spec fn after_insert(self, thread: u64, info: QueryInfo) -> TrackerModel {
        if self.admits(thread) {
            TrackerModel { table: self.table.insert(thread, info), ..self }
        } else {
            self
        }
    }

    /// The state after an entry of `thread` at nanosecond `now_ns`, with
    /// the captured query text, if any.
    pub open spec fn after_entry(
        self,
        thread: u64,
        capture: Option<QueryByteArray>,
        now_ns: u64,
    ) -> TrackerModel {
        match capture {
            Some(query) => self.after_insert(thread, QueryInfo { query, start_time: micros(now_ns) }),
            None => self,
        }
    }

    /// The record of the call of `thread` in flight, were it to return at
    /// nanosecond `now_ns`.
    pub open spec fn completed(self, thread: u64, now_ns: u64) -> QueryEvent
        recommends
            self.table.contains_key(thread),
    {
        QueryEvent {
            query: self.table[thread].query,
            duration_micro: elapsed(self.table[thread].start_time, micros(now_ns)),
        }
    }

    /// The state after a return of `thread` at nanosecond `now_ns` on core
    /// `cpu`.
    pub open spec fn after_return(self, thread: u64, now_ns: u64, cpu: int) -> TrackerModel {
        if self.table.contains_key(thread) {
            TrackerModel {
                table: self.table.remove(thread),
                shards: shards_after_push(
                    self.shards,
                    self.shard_capacity,
                    cpu,
                    self.completed(thread, now_ns),
                ),
                ..self
            }
        } else {
            self
        }
    }

    /// What a return of `thread` on core `cpu` reports.
    pub open spec fn return_outcome(self, thread: u64, cpu: int) -> ReturnOutcome {
        if !self.table.contains_key(thread) {
            ReturnOutcome::Unmatched
        } else if shard_has_room(self.shards, self.shard_capacity, cpu) {
            ReturnOutcome::Emitted
        } else {
            ReturnOutcome::Dropped
        }
    }

    /// What an entry of `thread` reports.
    pub open spec fn entry_outcome(self, thread: u64, capture: Option<QueryByteArray>) -> EntryOutcome {
        if capture.is_none() {
            EntryOutcome::NoCapture
        } else if self.admits(thread) {
            EntryOutcome::Recorded
        } else {
            EntryOutcome::TableFull
        }
    }
}

/// The correlation table and the output queue, owned by one tracker.
pub struct CallTracker {
    table: HashMap<u64, QueryInfo>,
    capacity: usize,
    queue: EventQueue,
}

/// The microsecond in which nanosecond `ns` falls.
pub fn timestamp_micros(ns: u64) -> (us: u64)
    ensures
        us == micros(ns),
{
    ns / 1000
}

/// Time from `start` to `end`, wrapping around where the clock went
/// backwards.
pub fn elapsed_micros(start: u64, end: u64) -> (d: u64)
    ensures
        d == elapsed(start, end),
{
    if end >= start {
        end - start
    } else {
        u64::MAX - start + end + 1
    }
}

impl CallTracker {
    /// The tracker's mathematical state.
    pub closed spec fn view(&self) -> TrackerModel {
        TrackerModel {
            table: self.table@,
            capacity: self.capacity as nat,
            shards: self.queue@,
            shard_capacity: self.queue.spec_shard_capacity(),
        }
    }

    /// The table is within its capacity and each shard within its bound.
    pub closed spec fn wf(&self) -> bool {
        &&& self.table@.dom().finite()
        &&& self.table@.len() <= self.capacity
        &&& self.queue.wf()
    }

    /// What `wf` says of the model.
    pub proof fn lemma_wf(&self)
        requires
            self.wf(),
        ensures
            self@.table.dom().finite(),
            self@.table.len() <= self@.capacity,
            forall|i: int|
                0 <= i < self@.shards.len() ==> (#[trigger] self@.shards[i]).len()
                    <= self@.shard_capacity,
    {
    }

    /// A tracker with no call in flight and `shard_count` empty shards.
    pub fn new(capacity: usize, shard_count: usize, shard_capacity: usize) -> (t: CallTracker)
        ensures
            t.wf(),
            t@.table == Map::<u64, QueryInfo>::empty(),
            t@.capacity == capacity,
            t@.shard_capacity == shard_capacity,
            t@.shards.len() == shard_count,
            forall|i: int| 0 <= i < shard_count ==> (#[trigger] t@.shards[i]).len() == 0,
    {
        CallTracker {
            table: HashMap::new(),
            capacity,
            queue: EventQueue::new(shard_count, shard_capacity),
        }
    }

    /// Number of calls in flight.
    pub fn in_flight(&self) -> (n: usize)
        requires
            self.wf(),
        ensures
            n == self@.table.len(),
    {
        self.table.len()
    }

    /// Number of shards of the output queue.
    pub fn shard_count(&self) -> (n: usize)
        ensures
            n == self@.shards.len(),
    {
        self.queue.shard_count()
    }

    /// Puts `info` into the table under `pid_tgid`, over what was there.
    /// A full table takes no new key: the call is dropped.
    pub fn insert_query(&mut self, pid_tgid: u64, info: QueryInfo) -> (inserted: bool)
        requires
            old(self).wf(),
        ensures
            final(self).wf(),
            inserted == old(self)@.admits(pid_tgid),
            final(self)@ == old(self)@.after_insert(pid_tgid, info),
    {
        if self.table.contains_key(&pid_tgid) || self.table.len() < self.capacity {
            self.table.insert(pid_tgid, info);
            proof {
                if old(self)@.table.contains_key(pid_tgid) {
                    assert(old(self)@.table.insert(pid_tgid, info).dom() =~= old(self)@.table.dom());
                }
            }
            true
        } else {
            false
        }
    }

    /// The call of `pid_tgid` in flight, if there is one.
    pub fn lookup_info(&self, pid_tgid: u64) -> (info: Option<QueryInfo>)
        ensures
            info == if self@.table.contains_key(pid_tgid) {
                Some(self@.table[pid_tgid])
            } else {
                None
            },
    {
        match self.table.get(&pid_tgid) {
            Some(info) => Some(*info),
            None => None,
        }
    }

    /// Takes the call of `pid_tgid` out of the table.
    pub fn remove_query(&mut self, pid_tgid: u64) -> (removed: bool)
        requires
            old(self).wf(),
        ensures
            final(self).wf(),
            removed == old(self)@.table.contains_key(pid_tgid),
            final(self)@ == (TrackerModel {
                table: old(self)@.table.remove(pid_tgid),
                ..old(self)@
            }),
    {
        let removed = self.table.remove(&pid_tgid).is_some();
        proof {
            if old(self)@.table.contains_key(pid_tgid) {
                assert(self@.table.len() <= old(self)@.table.len());
            } else {
                assert(self@.table =~= old(self)@.table);
            }
        }
        removed
    }

    /// Offers `event` to the queue shard of core `cpu`.
    pub fn enqueue_event(&mut self, cpu: usize, event: QueryEvent) -> (accepted: bool)
        requires
            old(self).wf(),
        ensures
            final(self).wf(),
            accepted == shard_has_room(old(self)@.shards, old(self)@.shard_capacity, cpu as int),
            final(self)@ == (TrackerModel {
                shards: shards_after_push(
                    old(self)@.shards,
                    old(self)@.shard_capacity,
                    cpu as int,
                    event,
                ),
                ..old(self)@
            }),
    {
        self.queue.push(cpu, event)
    }

    /// Takes every record out of shard `shard`, oldest first.
    pub fn drain(&mut self, shard: usize) -> (out: Vec<QueryEvent>)
        requires
            old(self).wf(),
        ensures
            final(self).wf(),
            out@ == if shard < old(self)@.shards.len() {
                old(self)@.shards[shard as int]
            } else {
                Seq::empty()
            },
            final(self)@ == (TrackerModel {
                shards: shards_after_drain(old(self)@.shards, shard as int),
                ..old(self)@
            }),
    {
        self.queue.drain(shard)
    }
}

/// The entry probe: records the call of thread `pid_tgid` entered at
/// nanosecond `now_ns`, with the query text captured for it. Without a
/// capture, or with a full table, nothing is recorded.
pub fn exec_simple_query_enter(
    tracker: &mut CallTracker,
    pid_tgid: u64,
    capture: Option<QueryByteArray>,
    now_ns: u64,
) -> (outcome: EntryOutcome)
    requires
        old(tracker).wf(),
    ensures
        final(tracker).wf(),
        final(tracker)@ == old(tracker)@.after_entry(pid_tgid, capture, now_ns),
        outcome == old(tracker)@.entry_outcome(pid_tgid, capture),
{
    let query = match capture {
        Some(query) => query,
        None => {
            return EntryOutcome::NoCapture;
        },
    };
    let start_time = timestamp_micros(now_ns);
    let info = QueryInfo { query, start_time };
    if tracker.insert_query(pid_tgid, info) {
        EntryOutcome::Recorded
    } else {
        EntryOutcome::TableFull
    }
}

/// The return probe: completes the call of thread `pid_tgid` at nanosecond
/// `now_ns` on core `cpu`. The call leaves the table and its record, with
/// the time since its entry, is offered to the shard of `cpu`. Without a
/// call in flight nothing happens.
pub fn exec_simple_query_return(
    tracker: &mut CallTracker,
    pid_tgid: u64,
    now_ns: u64,
    cpu: usize,
) -> (outcome: ReturnOutcome)
    requires
        old(tracker).wf(),
    ensures
        final(tracker).wf(),
        final(tracker)@ == old(tracker)@.after_return(pid_tgid, now_ns, cpu as int),
        outcome == old(tracker)@.return_outcome(pid_tgid, cpu as int),
{
    let info = match tracker.lookup_info(pid_tgid) {
        Some(info) => info,
        None => {
            return ReturnOutcome::Unmatched;
        },
    };
    let end_time = timestamp_micros(now_ns);
    let duration_micro = elapsed_micros(info.start_time, end_time);
    let event = QueryEvent { query: info.query, duration_micro };
    let accepted = tracker.enqueue_event(cpu, event);
    tracker.remove_query(pid_tgid);
    if accepted {
        ReturnOutcome::Emitted
    } else {
        ReturnOutcome::Dropped
    }
}

/// A call that was recorded and returns on a core whose shard has room
/// leaves exactly one record: the captured text with the time between the
/// two timestamps. The shard grows by that record and nothing else in the
/// queue changes; the call is no longer in flight.
pub proof fn lemma_entry_then_return_emits_once(
    pre: TrackerModel,
    thread: u64,
    query: QueryByteArray,
    entry_ns: u64,
    return_ns: u64,
    cpu: int,
)
    requires
        pre.admits(thread),
        shard_has_room(pre.shards, pre.shard_capacity, cpu),
        micros(entry_ns) <= micros(return_ns),
    ensures
        ({
            let mid = pre.after_entry(thread, Some(query), entry_ns);
            let post = mid.after_return(thread, return_ns, cpu);
            let event = QueryEvent {
                query,
                duration_micro: (micros(return_ns) - micros(entry_ns)) as u64,
            };
            &&& mid.return_outcome(thread, cpu) == ReturnOutcome::Emitted
            &&& post.shards == pre.shards.update(cpu, pre.shards[cpu].push(event))
            &&& post.shards[cpu].len() == pre.shards[cpu].len() + 1
            &&& forall|i: int| 0 <= i < pre.shards.len() && i != cpu ==> post.shards[i] == pre.shards[i]
            &&& !post.table.contains_key(thread)
            &&& post.table == pre.table.remove(thread)
        }),
{
    let mid = pre.after_entry(thread, Some(query), entry_ns);
    let post = mid.after_return(thread, return_ns, cpu);
    assert(mid.table.contains_key(thread));
    assert(post.table =~= pre.table.remove(thread));
}

/// Timestamps that do not go backwards give a duration that is their
/// difference in microseconds.
pub proof fn lemma_monotonic_duration(entry_ns: u64, return_ns: u64)
    requires
        entry_ns <= return_ns,
    ensures
        micros(entry_ns) <= micros(return_ns),
        elapsed(micros(entry_ns), micros(return_ns)) == micros(return_ns) - micros(entry_ns),
{
}

/// A return of a thread with no call in flight changes nothing and reports
/// so, however often it is repeated.
pub proof fn lemma_unmatched_return_is_noop(pre: TrackerModel, thread: u64, now_ns: u64, cpu: int)
    requires
        !pre.table.contains_key(thread),
    ensures
        pre.after_return(thread, now_ns, cpu) == pre,
        pre.return_outcome(thread, cpu) == ReturnOutcome::Unmatched,
        pre.after_return(thread, now_ns, cpu).after_return(thread, now_ns, cpu) == pre,
{
}

/// An entry of a thread with no call in flight that the full table
/// dropped, or whose text could not be captured, leaves no trace: the
/// return that follows is unmatched and the queue stays as it was.
pub proof fn lemma_dropped_entry_emits_nothing(
    pre: TrackerModel,
    thread: u64,
    capture: Option<QueryByteArray>,
    entry_ns: u64,
    return_ns: u64,
    cpu: int,
)
    requires
        !pre.table.contains_key(thread),
        capture.is_none() || !pre.admits(thread),
    ensures
        pre.entry_outcome(thread, capture) != EntryOutcome::Recorded,
        pre.after_entry(thread, capture, entry_ns) == pre,
        pre.after_entry(thread, capture, entry_ns).return_outcome(thread, cpu)
            == ReturnOutcome::Unmatched,
        pre.after_entry(thread, capture, entry_ns).after_return(thread, return_ns, cpu) == pre,
{
}

/// A second return after a matched one finds nothing: one entry gives at
/// most one record.
pub proof fn lemma_second_return_is_unmatched(
    pre: TrackerModel,
    thread: u64,
    first_ns: u64,
    second_ns: u64,
    cpu: int,
    later_cpu: int,
)
    ensures
        pre.after_return(thread, first_ns, cpu).return_outcome(thread, later_cpu)
            == ReturnOutcome::Unmatched,
        pre.after_return(thread, first_ns, cpu).after_return(thread, second_ns, later_cpu)
            == pre.after_return(thread, first_ns, cpu),
{
}

/// A second entry of a thread whose call is still in flight takes its
/// place: one call per thread, never two.
pub proof fn lemma_entry_overwrites(
    pre: TrackerModel,
    thread: u64,
    first: QueryByteArray,
    second: QueryByteArray,
    first_ns: u64,
    second_ns: u64,
)
    requires
        pre.table.dom().finite(),
        pre.admits(thread),
    ensures
        ({
            let once = pre.after_entry(thread, Some(first), first_ns);
            let twice = once.after_entry(thread, Some(second), second_ns);
            &&& twice == pre.after_entry(thread, Some(second), second_ns)
            &&& twice.table.len() == once.table.len()
        }),
{
    let once = pre.after_entry(thread, Some(first), first_ns);
    let twice = once.after_entry(thread, Some(second), second_ns);
    assert(twice.table =~= pre.after_entry(thread, Some(second), second_ns).table);
    assert(twice.table.dom() =~= once.table.dom());
}

} // verus!
