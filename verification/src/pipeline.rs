//! One pass over the whole pipeline: every shard of the tracker's queue is
//! drained, each record is charged to its tenant, and the charges are
//! folded into the aggregate.

use vstd::prelude::*;
use crate::aggregate::{lemma_record_all_split, recorded_all, TenantAggregate};
use crate::schema::QueryEvent;
use crate::tenant::{charge_views, charged, process_event, query_text, tenant_of, ProcessedQueryEvent};
use crate::tracker::{CallTracker, TrackerModel};

verus! {

/// The charges that `records` give, in their order; a record that names
/// no tenant gives none.
pub open spec fn charges_of(records: Seq<QueryEvent>) -> Seq<(Seq<char>, u64)>
    decreases records.len(),
{
    if records.len() == 0 {
        Seq::empty()
    } else {
        let init = charges_of(records.drop_last());
        match charged(tenant_of(query_text(records.last())), records.last().duration_micro) {
            Some(c) => init.push(c),
            None => init,
        }
    }
}

/// The records of the first `upto` shards, shard after shard.
pub open spec fn records_upto(shards: Seq<Seq<QueryEvent>>, upto: int) -> Seq<QueryEvent>
    decreases upto,
{
    if upto <= 0 || upto > shards.len() {
        Seq::empty()
    } else {
        records_upto(shards, upto - 1) + shards[upto - 1]
    }
}

/// The shards with the first `upto` of them emptied.
pub open spec fn emptied_upto(shards: Seq<Seq<QueryEvent>>, upto: int) -> Seq<Seq<QueryEvent>> {
    Seq::new(
        shards.len(),
        |i: int|
            if i < upto {
                Seq::empty()
            } else {
                shards[i]
            },
    )
}

/// The charges of two runs of records, one after the other, are the
/// charges of the first followed by those of the second.
pub proof fn lemma_charges_concat(a: Seq<QueryEvent>, b: Seq<QueryEvent>)
    ensures
        charges_of(a + b) == charges_of(a) + charges_of(b),
    decreases b.len(),
{
    if b.len() == 0 {
        assert(a + b =~= a);
        assert(charges_of(a) + charges_of(b) =~= charges_of(a));
    } else {
        lemma_charges_concat(a, b.drop_last());
        assert((a + b).drop_last() =~= a + b.drop_last());
        assert((a + b).last() == b.last());
        let init = charges_of(b.drop_last());
        match charged(tenant_of(query_text(b.last())), b.last().duration_micro) {
            Some(c) => {
                assert((charges_of(a) + init).push(c) =~= charges_of(a) + init.push(c));
            },
            None => {},
        }
    }
}

/// Charges each of `records` to its tenant, in order, leaving out those
/// that name none.
pub fn process_batch(records: &Vec<QueryEvent>) -> (out: Vec<ProcessedQueryEvent>)
    ensures
        charge_views(out@) == charges_of(records@),
{
    let mut out: Vec<ProcessedQueryEvent> = Vec::new();
    let mut i: usize = 0;
    assert(charge_views(out@) =~= charges_of(records@.take(0)));
    while i < records.len()
        invariant
            i <= records.len(),
            charge_views(out@) == charges_of(records@.take(i as int)),
        decreases records.len() - i,
    {
        let ghost before = out@;
        proof {
            assert(records@.take(i + 1).drop_last() =~= records@.take(i as int));
            assert(records@.take(i + 1).last() == records@[i as int]);
        }
        match process_event(records[i]) {
            Some(e) => {
                out.push(e);
                assert(charge_views(out@) =~= charge_views(before).push(e@));
            },
            None => {},
        }
        i += 1;
    }
    assert(records@.take(records.len() as int) =~= records@);
    out
}

/// Drains every shard of `tracker`, first to last, and folds what the
/// records charge into `aggregate`. Afterwards no shard holds a record,
/// the calls in flight are as before, and the aggregate has taken every
/// charge of every shard, in shard order.
pub fn sweep(tracker: &mut CallTracker, aggregate: &mut TenantAggregate)
    requires
        old(tracker).wf(),
    ensures
        final(tracker).wf(),
        final(tracker)@ == (TrackerModel {
            shards: emptied_upto(old(tracker)@.shards, old(tracker)@.shards.len() as int),
            ..old(tracker)@
        }),
        final(aggregate)@ == recorded_all(
            old(aggregate)@,
            charges_of(records_upto(old(tracker)@.shards, old(tracker)@.shards.len() as int)),
        ),
{
    let n = tracker.shard_count();
    let mut shard: usize = 0;
    assert(tracker@.shards =~= emptied_upto(old(tracker)@.shards, 0));
    while shard < n
        invariant
            shard <= n,
            n == old(tracker)@.shards.len(),
            tracker.wf(),
            tracker@ == (TrackerModel {
                shards: emptied_upto(old(tracker)@.shards, shard as int),
                ..old(tracker)@
            }),
            aggregate@ == recorded_all(
                old(aggregate)@,
                charges_of(records_upto(old(tracker)@.shards, shard as int)),
            ),
        decreases n - shard,
    {
        let ghost done = records_upto(old(tracker)@.shards, shard as int);
        let records = tracker.drain(shard);
        let charges = process_batch(&records);
        proof {
            assert(records@ == old(tracker)@.shards[shard as int]);
            lemma_charges_concat(done, records@);
            lemma_record_all_split(old(aggregate)@, charges_of(done), charges_of(records@));
            assert(tracker@.shards =~= emptied_upto(old(tracker)@.shards, shard + 1));
        }
        aggregate.record_all(charges);
        shard += 1;
    }
}

/// Every record of every shard is among the records that a pass over all
/// shards takes.
pub proof fn lemma_shard_record_listed(shards: Seq<Seq<QueryEvent>>, upto: int, shard: int, i: int)
    requires
        0 <= shard < upto <= shards.len(),
        0 <= i < shards[shard].len(),
    ensures
        records_upto(shards, upto).contains(shards[shard][i]),
    decreases upto,
{
    let init = records_upto(shards, upto - 1);
    let all = records_upto(shards, upto);
    assert(all == init + shards[upto - 1]);
    if shard == upto - 1 {
        assert(all[init.len() + i] == shards[shard][i]);
    } else {
        lemma_shard_record_listed(shards, upto - 1, shard, i);
        let j = choose|j: int| 0 <= j < init.len() && init[j] == shards[shard][i];
        assert(all[j] == shards[shard][i]);
    }
}

/// A record that names a tenant has its charge among the charges of any
/// run of records that holds it.
pub proof fn lemma_record_is_charged(records: Seq<QueryEvent>, record: QueryEvent)
    requires
        records.contains(record),
        tenant_of(query_text(record)).is_some(),
    ensures
        charges_of(records).contains((tenant_of(query_text(record)).unwrap(), record.duration_micro)),
    decreases records.len(),
{
    let c = (tenant_of(query_text(record)).unwrap(), record.duration_micro);
    let i = choose|i: int| 0 <= i < records.len() && records[i] == record;
    let init = charges_of(records.drop_last());
    if i == records.len() - 1 {
        assert(charges_of(records) == init.push(c));
        assert(charges_of(records)[init.len() as int] == c);
    } else {
        assert(records.drop_last()[i] == record);
        lemma_record_is_charged(records.drop_last(), record);
        let j = choose|j: int| 0 <= j < init.len() && init[j] == c;
        assert(charges_of(records)[j] == c);
    }
}

/// A tenant that is charged anywhere in a sequence has an entry once the
/// sequence is folded in.
pub proof fn lemma_charged_tenant_has_entry(
    m: Map<Seq<char>, (i32, u64)>,
    charges: Seq<(Seq<char>, u64)>,
    charge: (Seq<char>, u64),
)
    requires
        charges.contains(charge),
    ensures
        recorded_all(m, charges).contains_key(charge.0),
    decreases charges.len(),
{
    let i = choose|i: int| 0 <= i < charges.len() && charges[i] == charge;
    if i < charges.len() - 1 {
        assert(charges.drop_last()[i] == charge);
        lemma_charged_tenant_has_entry(m, charges.drop_last(), charge);
    }
}

/// No shard is left out: a record that names a tenant, on whichever shard
/// it waits, gives that tenant an entry in the aggregate after one pass.
pub proof fn lemma_sweep_covers_every_shard(
    m: Map<Seq<char>, (i32, u64)>,
    shards: Seq<Seq<QueryEvent>>,
    shard: int,
    i: int,
)
    requires
        0 <= shard < shards.len(),
        0 <= i < shards[shard].len(),
        tenant_of(query_text(shards[shard][i])).is_some(),
    ensures
        recorded_all(m, charges_of(records_upto(shards, shards.len() as int))).contains_key(
            tenant_of(query_text(shards[shard][i])).unwrap(),
        ),
{
    let record = shards[shard][i];
    let all = records_upto(shards, shards.len() as int);
    lemma_shard_record_listed(shards, shards.len() as int, shard, i);
    lemma_record_is_charged(all, record);
    lemma_charged_tenant_has_entry(
        m,
        charges_of(all),
        (tenant_of(query_text(record)).unwrap(), record.duration_micro),
    );
}

} // verus!
