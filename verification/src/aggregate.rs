//! The per-tenant aggregate: for each tenant, how many calls were charged
//! to it and how long they ran in all.
//!
//! Both numbers only grow. A count or a total that would pass the largest
//! value of its type stays there.

use vstd::prelude::*;
use vstd::seq_lib::{to_multiset_contains, to_multiset_len, to_multiset_remove};
use std::sync::Arc;
use dashmap::DashMap;
use crate::tenant::{charge_views, ProcessedQueryEvent};

verus! {

/// The concurrent map of dashmap, declared so that it can stand in fields
/// and signatures. Nothing inside it is visible.
#[verifier::external_type_specification]
#[verifier::external_body]
#[verifier::reject_recursive_types(K)]
#[verifier::reject_recursive_types(V)]
#[verifier::reject_recursive_types(S)]
pub struct ExDashMap<K, V, S>(DashMap<K, V, S>);

/// A handle on the map of tenant statistics: tenant identifier to call
/// count and total duration.
pub type SharedStats = Arc<DashMap<String, (i32, u64)>>;

/// What a map of tenant statistics holds: for each tenant, its call count
/// and its total duration.
pub uninterp spec fn stats_contents(m: DashMap<String, (i32, u64)>) -> Map<Seq<char>, (i32, u64)>;

/// The aggregate that holds no tenant.
pub open spec fn no_stats() -> Map<Seq<char>, (i32, u64)> {
    Map::empty()
}

/// The statistics of a tenant after one more call of `duration_micro`.
pub open spec fn accumulated(stats: (i32, u64), duration_micro: u64) -> (i32, u64) {
    (
        if stats.0 < i32::MAX {
            (stats.0 + 1) as i32
        } else {
            i32::MAX
        },
        if stats.1 + duration_micro <= u64::MAX {
            (stats.1 + duration_micro) as u64
        } else {
            u64::MAX
        },
    )
}

/// The aggregate after a call of `duration_micro` was charged to `tenant`.
pub open spec fn recorded(
    m: Map<Seq<char>, (i32, u64)>,
    tenant: Seq<char>,
    duration_micro: u64,
) -> Map<Seq<char>, (i32, u64)> {
    if m.contains_key(tenant) {
        m.insert(tenant, accumulated(m[tenant], duration_micro))
    } else {
        m.insert(tenant, (1i32, duration_micro))
    }
}

/// The aggregate after each of `events` was charged, first to last.
pub open spec fn recorded_all(
    m: Map<Seq<char>, (i32, u64)>,
    events: Seq<(Seq<char>, u64)>,
) -> Map<Seq<char>, (i32, u64)>
    decreases events.len(),
{
    if events.len() == 0 {
        m
    } else {
        recorded(recorded_all(m, events.drop_last()), events.last().0, events.last().1)
    }
}

/// `rows` lists what `m` holds: each tenant of `m` once, with its
/// statistics, and nothing else. The order is left open.
pub open spec fn rows_list(rows: Seq<(String, i32, u64)>, m: Map<Seq<char>, (i32, u64)>) -> bool {
    &&& forall|i: int|
        0 <= i < rows.len() ==> m.contains_key((#[trigger] rows[i]).0@) && m[rows[i].0@] == (
            rows[i].1,
            rows[i].2,
        )
    &&& forall|i: int, j: int|
        0 <= i < j < rows.len() ==> (#[trigger] rows[i]).0@ != (#[trigger] rows[j]).0@
    &&& forall|k: Seq<char>|
        m.contains_key(k) ==> exists|i: int| 0 <= i < rows.len() && (#[trigger] rows[i]).0@ == k
}

/// One more call of `duration_micro` on top of `stats`.
pub fn accumulate(stats: (i32, u64), duration_micro: u64) -> (next: (i32, u64))
    ensures
        next == accumulated(stats, duration_micro),
{
    let count: i32 = if stats.0 < i32::MAX { stats.0 + 1 } else { i32::MAX };
    let total: u64 = if stats.1 <= u64::MAX - duration_micro {
        stats.1 + duration_micro
    } else {
        u64::MAX
    };
    (count, total)
}

/// `DashMap::new` of dashmap: the new map holds nothing.
#[verifier::external_body]
fn new_stats_map() -> (fresh: DashMap<String, (i32, u64)>)
    ensures
        stats_contents(fresh) == no_stats(),
{
    DashMap::new()
}

/// `DashMap::entry` of dashmap, followed by `Entry::and_modify` and
/// `Entry::or_insert`: under the lock of the key's shard, the value of a
/// key that is there is replaced by what `accumulate` makes of it, and a
/// key that is not there gets `first`. Count and total change in that one
/// step; no other key changes.
#[verifier::external_body]
fn upsert_stats(
    map: &mut SharedStats,
    tenant: String,
    first: (i32, u64),
    duration_micro: u64,
)
    ensures
        stats_contents(**final(map)) == if stats_contents(**old(map)).contains_key(tenant@) {
            stats_contents(**old(map)).insert(
                tenant@,
                accumulated(stats_contents(**old(map))[tenant@], duration_micro),
            )
        } else {
            stats_contents(**old(map)).insert(tenant@, first)
        },
{
    map.entry(tenant).and_modify(|stats| *stats = accumulate(*stats, duration_micro)).or_insert(first);
}

/// `DashMap::get` of dashmap, with the value copied out: what the map
/// holds under `tenant`, if anything.
#[verifier::external_body]
fn lookup_stats(map: &SharedStats, tenant: &str) -> (stats: Option<(i32, u64)>)
    ensures
        stats == if stats_contents(**map).contains_key(tenant@) {
            Some(stats_contents(**map)[tenant@])
        } else {
            None
        },
{
    map.get(tenant).map(|entry| *entry.value())
}

/// `DashMap::iter` of dashmap, each entry copied out as a row: every key
/// of the map comes once, with its value. In which order they come depends
/// on the map's hasher and is not stated.
#[verifier::external_body]
fn list_stats(map: &SharedStats) -> (rows: Vec<(String, i32, u64)>)
    ensures
        rows_list(rows@, stats_contents(**map)),
{
    map.iter().map(|entry| (entry.key().clone(), entry.value().0, entry.value().1)).collect()
}

/// `Arc::clone` of std: a second pointer to the same map. The map behind
/// it changes with every later charge, so nothing is stated of what the
/// handle holds.
#[verifier::external_body]
fn share_stats(map: &SharedStats) -> (handle: SharedStats) {
    Arc::clone(map)
}

/// The aggregate, with the one handle through which it is written.
pub struct TenantAggregate {
    map: SharedStats,
}

impl View for TenantAggregate {
    type V = Map<Seq<char>, (i32, u64)>;

    closed spec fn view(&self) -> Map<Seq<char>, (i32, u64)> {
        stats_contents(*self.map)
    }
}

impl TenantAggregate {
    /// An aggregate that holds no tenant.
    pub fn new() -> (agg: TenantAggregate)
        ensures
            agg@ == no_stats(),
            agg@.dom().finite(),
            agg@.len() == 0,
    {
        TenantAggregate { map: Arc::new(new_stats_map()) }
    }

    /// Charges one call to its tenant: a tenant seen for the first time
    /// gets count 1 and the call's duration; a known one gets one more call
    /// and the duration on top. No other tenant changes.
    pub fn record(&mut self, event: ProcessedQueryEvent)
        ensures
            final(self)@ == recorded(old(self)@, event.tenant_id@, event.duration_micro),
    {
        let first: (i32, u64) = (1, event.duration_micro);
        upsert_stats(&mut self.map, event.tenant_id, first, event.duration_micro);
    }

    /// Charges each of `events`, first to last.
    pub fn record_all(&mut self, events: Vec<ProcessedQueryEvent>)
        ensures
            final(self)@ == recorded_all(old(self)@, charge_views(events@)),
    {
        let ghost all = charge_views(events@);
        let mut events = events;
        let mut rest: Vec<ProcessedQueryEvent> = Vec::new();
        let n = events.len();
        // Taken from the back, so put them in order first.
        while events.len() > 0
            invariant
                events@.len() + rest@.len() == n,
                all.len() == n,
                forall|j: int| 0 <= j < events@.len() ==> (#[trigger] events@[j])@ == all[j],
                forall|j: int| 0 <= j < rest@.len() ==> (#[trigger] rest@[j])@ == all[n - 1 - j],
            decreases events@.len(),
        {
            let e = events.pop().unwrap();
            rest.push(e);
        }
        let mut done: usize = 0;
        while rest.len() > 0
            invariant
                done + rest@.len() == n,
                all.len() == n,
                forall|j: int| 0 <= j < rest@.len() ==> (#[trigger] rest@[j])@ == all[n - 1 - j],
                self@ == recorded_all(old(self)@, all.take(done as int)),
            decreases rest@.len(),
        {
            let e = rest.pop().unwrap();
            proof {
                assert(e@ == all[done as int]);
                assert(all.take(done + 1).drop_last() =~= all.take(done as int));
                assert(all.take(done + 1).last() == all[done as int]);
            }
            self.record(e);
            done += 1;
        }
        assert(all.take(n as int) =~= all);
    }

    /// The statistics of `tenant`, if any call was charged to it.
    pub fn get(&self, tenant: &str) -> (stats: Option<(i32, u64)>)
        ensures
            stats == if self@.contains_key(tenant@) {
                Some(self@[tenant@])
            } else {
                None
            },
    {
        lookup_stats(&self.map, tenant)
    }

    /// One row per tenant: its identifier, call count and total duration.
    pub fn snapshot(&self) -> (rows: Vec<(String, i32, u64)>)
        ensures
            rows_list(rows@, self@),
    {
        list_stats(&self.map)
    }

    /// A handle for a reader that runs beside the writer. It points to
    /// the aggregate's own map, which every later charge changes: what the
    /// handle holds is therefore left unknown, and no function of this
    /// library that states contents takes such a handle.
    pub fn reader(&self) -> (handle: SharedStats) {
        share_stats(&self.map)
    }
}

/// Number of calls among `events` that are charged to `tenant`.
pub open spec fn tenant_calls(events: Seq<(Seq<char>, u64)>, tenant: Seq<char>) -> nat
    decreases events.len(),
{
    if events.len() == 0 {
        0
    } else if events.last().0 == tenant {
        tenant_calls(events.drop_last(), tenant) + 1
    } else {
        tenant_calls(events.drop_last(), tenant)
    }
}

/// Sum of the durations among `events` that are charged to `tenant`.
pub open spec fn tenant_total(events: Seq<(Seq<char>, u64)>, tenant: Seq<char>) -> nat
    decreases events.len(),
{
    if events.len() == 0 {
        0
    } else if events.last().0 == tenant {
        tenant_total(events.drop_last(), tenant) + events.last().1 as nat
    } else {
        tenant_total(events.drop_last(), tenant)
    }
}

/// The statistics that stand for `calls` calls of `total` microseconds in
/// all: the two numbers, each held at the largest value of its type.
pub open spec fn capped_stats(calls: nat, total: nat) -> (i32, u64) {
    (
        if calls <= i32::MAX {
            calls as i32
        } else {
            i32::MAX
        },
        if total <= u64::MAX {
            total as u64
        } else {
            u64::MAX
        },
    )
}

/// Charging a call changes its tenant's entry alone; that entry is there
/// afterwards, and neither its count nor its total went down.
pub proof fn lemma_record_grows(m: Map<Seq<char>, (i32, u64)>, tenant: Seq<char>, duration_micro: u64)
    ensures
        recorded(m, tenant, duration_micro).contains_key(tenant),
        forall|k: Seq<char>|
            k != tenant ==> (recorded(m, tenant, duration_micro).contains_key(k) <==> m.contains_key(
                k,
            )),
        forall|k: Seq<char>|
            k != tenant && m.contains_key(k) ==> recorded(m, tenant, duration_micro)[k] == m[k],
        m.contains_key(tenant) ==> recorded(m, tenant, duration_micro)[tenant].0 >= m[tenant].0
            && recorded(m, tenant, duration_micro)[tenant].1 >= m[tenant].1,
        m.contains_key(tenant) && m[tenant].0 < i32::MAX ==> recorded(
            m,
            tenant,
            duration_micro,
        )[tenant].0 == m[tenant].0 + 1,
        m.contains_key(tenant) && m[tenant].1 + duration_micro <= u64::MAX ==> recorded(
            m,
            tenant,
            duration_micro,
        )[tenant].1 == m[tenant].1 + duration_micro,
        !m.contains_key(tenant) ==> recorded(m, tenant, duration_micro)[tenant] == (
            1i32,
            duration_micro,
        ),
{
}

/// Two charges give the same aggregate in either order.
pub proof fn lemma_record_commutes(
    m: Map<Seq<char>, (i32, u64)>,
    first: (Seq<char>, u64),
    second: (Seq<char>, u64),
)
    ensures
        recorded(recorded(m, first.0, first.1), second.0, second.1) == recorded(
            recorded(m, second.0, second.1),
            first.0,
            first.1,
        ),
{
    let a = recorded(recorded(m, first.0, first.1), second.0, second.1);
    let b = recorded(recorded(m, second.0, second.1), first.0, first.1);
    assert(a =~= b);
}

/// Charging a sequence in two parts is charging it whole.
pub proof fn lemma_record_all_split(
    m: Map<Seq<char>, (i32, u64)>,
    head: Seq<(Seq<char>, u64)>,
    tail: Seq<(Seq<char>, u64)>,
)
    ensures
        recorded_all(m, head + tail) == recorded_all(recorded_all(m, head), tail),
    decreases tail.len(),
{
    if tail.len() == 0 {
        assert(head + tail =~= head);
    } else {
        lemma_record_all_split(m, head, tail.drop_last());
        assert((head + tail).drop_last() =~= head + tail.drop_last());
        assert((head + tail).last() == tail.last());
    }
}

/// Starting from nothing, a tenant's entry is the number of its calls and
/// the sum of their durations, each held at the largest value of its type;
/// a tenant without a call has no entry.
pub proof fn lemma_totals(events: Seq<(Seq<char>, u64)>, tenant: Seq<char>)
    ensures
        recorded_all(no_stats(), events).contains_key(tenant) <==> tenant_calls(events, tenant) > 0,
        tenant_calls(events, tenant) > 0 ==> recorded_all(no_stats(), events)[tenant]
            == capped_stats(tenant_calls(events, tenant), tenant_total(events, tenant)),
    decreases events.len(),
{
    if events.len() > 0 {
        let init = events.drop_last();
        let last = events.last();
        let m = recorded_all(no_stats(), init);
        lemma_totals(init, tenant);
        assert(recorded_all(no_stats(), events) == recorded(m, last.0, last.1));
        if last.0 == tenant {
            if m.contains_key(tenant) {
                assert(m[tenant] == capped_stats(tenant_calls(init, tenant), tenant_total(init, tenant)));
                assert(recorded(m, last.0, last.1)[tenant] == accumulated(m[tenant], last.1));
            } else {
                assert(tenant_calls(init, tenant) == 0);
                lemma_no_calls_no_total(init, tenant);
                assert(recorded(m, last.0, last.1)[tenant] == (1i32, last.1));
            }
        } else {
            assert(recorded(m, last.0, last.1).contains_key(tenant) <==> m.contains_key(tenant));
        }
    }
}

/// A tenant without a call has no duration to its name.
pub proof fn lemma_no_calls_no_total(events: Seq<(Seq<char>, u64)>, tenant: Seq<char>)
    requires
        tenant_calls(events, tenant) == 0,
    ensures
        tenant_total(events, tenant) == 0,
    decreases events.len(),
{
    if events.len() > 0 {
        lemma_no_calls_no_total(events.drop_last(), tenant);
    }
}

/// A charge may be moved from anywhere in the sequence to its end.
pub proof fn lemma_charge_moves_to_end(
    m: Map<Seq<char>, (i32, u64)>,
    before: Seq<(Seq<char>, u64)>,
    x: (Seq<char>, u64),
    after: Seq<(Seq<char>, u64)>,
)
    ensures
        recorded_all(m, before + seq![x] + after) == recorded_all(m, (before + after).push(x)),
    decreases after.len(),
{
    if after.len() == 0 {
        assert(before + seq![x] + after =~= (before + after).push(x));
    } else {
        let y = after.last();
        let rest = after.drop_last();
        lemma_charge_moves_to_end(m, before, x, rest);
        let base = recorded_all(m, before + rest);
        let here = before + seq![x] + after;
        assert(here.drop_last() =~= before + seq![x] + rest);
        assert(here.last() == y);
        let moved = (before + rest).push(x);
        assert(moved.drop_last() =~= before + rest);
        assert(moved.last() == x);
        lemma_record_commutes(base, x, y);
        let end = (before + after).push(x);
        assert(end.drop_last() =~= before + after);
        assert(end.last() == x);
        assert((before + after).drop_last() =~= before + rest);
        assert((before + after).last() == y);
        assert(recorded_all(m, moved) == recorded(base, x.0, x.1));
        assert(recorded_all(m, here) == recorded(recorded_all(m, here.drop_last()), y.0, y.1));
        assert(recorded_all(m, before + after) == recorded(base, y.0, y.1));
        assert(recorded_all(m, end) == recorded(recorded_all(m, before + after), x.0, x.1));
    }
}

/// The aggregate depends on which charges arrived and how often, not on
/// their order: two sequences with the same charges give the same
/// aggregate.
pub proof fn lemma_any_order_same_aggregate(
    m: Map<Seq<char>, (i32, u64)>,
    a: Seq<(Seq<char>, u64)>,
    b: Seq<(Seq<char>, u64)>,
)
    requires
        a.to_multiset() == b.to_multiset(),
    ensures
        recorded_all(m, a) == recorded_all(m, b),
    decreases a.len(),
{
    to_multiset_len(a);
    to_multiset_len(b);
    if a.len() > 0 {
        let x = a.last();
        let last = a.len() - 1;
        assert(a.contains(x)) by {
            assert(a[last] == x);
        }
        to_multiset_contains(a, x);
        to_multiset_contains(b, x);
        let j = choose|j: int| 0 <= j < b.len() && b[j] == x;
        to_multiset_remove(a, last);
        to_multiset_remove(b, j);
        assert(a.remove(last) =~= a.drop_last());
        lemma_any_order_same_aggregate(m, a.drop_last(), b.remove(j));
        let before = b.subrange(0, j);
        let after = b.subrange(j + 1, b.len() as int);
        assert(b =~= before + seq![x] + after);
        assert(b.remove(j) =~= before + after);
        lemma_charge_moves_to_end(m, before, x, after);
        let end = (before + after).push(x);
        assert(end.drop_last() =~= before + after);
        assert(end.last() == x);
    }
}

/// Charging a call keeps the set of tenants finite, and adds one tenant
/// to it exactly when the tenant had no entry.
pub proof fn lemma_record_keeps_finite(
    m: Map<Seq<char>, (i32, u64)>,
    tenant: Seq<char>,
    duration_micro: u64,
)
    requires
        m.dom().finite(),
    ensures
        recorded(m, tenant, duration_micro).dom().finite(),
        recorded(m, tenant, duration_micro).dom() == m.dom().insert(tenant),
        recorded(m, tenant, duration_micro).len() == m.len() + if m.contains_key(tenant) {
            0nat
        } else {
            1nat
        },
{
    assert(recorded(m, tenant, duration_micro).dom() =~= m.dom().insert(tenant));
}

/// Charging any sequence of calls keeps the set of tenants finite, and
/// adds no more tenants than there are calls.
pub proof fn lemma_record_all_keeps_finite(
    m: Map<Seq<char>, (i32, u64)>,
    events: Seq<(Seq<char>, u64)>,
)
    requires
        m.dom().finite(),
    ensures
        recorded_all(m, events).dom().finite(),
        m.len() <= recorded_all(m, events).len() <= m.len() + events.len(),
    decreases events.len(),
{
    if events.len() > 0 {
        lemma_record_all_keeps_finite(m, events.drop_last());
        lemma_record_keeps_finite(
            recorded_all(m, events.drop_last()),
            events.last().0,
            events.last().1,
        );
    }
}

} // verus!
