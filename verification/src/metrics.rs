//! How far a cluster has converged, measured on snapshots of its nodes'
//! tables taken at one moment.

use crate::heartbeat::{entry_views, EntryView};
use crate::storage::Storage;
use vstd::prelude::*;

verus! {

/// A heartbeat dated `timestamp` is younger than `limit` seconds at `now`.
/// One dated after `now` is as young as can be.
pub open spec fn within(now: nat, timestamp: nat, limit: nat) -> bool {
    now - timestamp < limit
}

/// The entry vouches for its peer: a heartbeat was received for it, and the
/// one held is younger than `threshold`. An entry that only records a seed's
/// address vouches for nothing.
pub open spec fn live(entry: EntryView, now: nat, threshold: nat) -> bool {
    entry.received_count > 0 && within(now, entry.heartbeat.timestamp, threshold)
}

/// The table has an entry for each of the `number_nodes` nodes of the cluster.
pub open spec fn knows_all(entries: Seq<EntryView>, number_nodes: nat) -> bool {
    entries.len() >= number_nodes
}

/// The table knows the whole cluster, and every entry vouches for its peer.
pub open spec fn fully_informed(
    entries: Seq<EntryView>,
    number_nodes: nat,
    now: nat,
    threshold: nat,
) -> bool {
    &&& knows_all(entries, number_nodes)
    &&& forall|i: int| 0 <= i < entries.len() ==> live(#[trigger] entries[i], now, threshold)
}

/// The receipts that the table has counted for the heartbeats younger than
/// `interval`: a rough measure of the traffic of the current round.
pub open spec fn messages(entries: Seq<EntryView>, now: nat, interval: nat) -> nat
    decreases entries.len(),
{
    if entries.len() == 0 {
        0
    } else {
        messages(entries.drop_last(), now, interval) + if within(
            now,
            entries.last().heartbeat.timestamp,
            interval,
        ) {
            entries.last().received_count
        } else {
            0
        }
    }
}

/// The receipts counted by all the tables together.
pub open spec fn total_messages(tables: Seq<Seq<EntryView>>, now: nat, interval: nat) -> nat
    decreases tables.len(),
{
    if tables.len() == 0 {
        0
    } else {
        total_messages(tables.drop_last(), now, interval) + messages(tables.last(), now, interval)
    }
}

/// `n`, or the largest `u64` where `n` does not fit.
pub open spec fn capped(n: nat) -> u64 {
    if n > u64::MAX {
        u64::MAX
    } else {
        n as u64
    }
}

/// The tables of a list, each as what it holds.
pub open spec fn table_views(tables: Seq<Storage>) -> Seq<Seq<EntryView>> {
    tables.map_values(|t: Storage| t@)
}

/// What the harness reads off the cluster.
#[derive(Debug, Clone, Copy, PartialEq, Eq)]
pub struct Metrics {
    /// Nodes that know the whole cluster and hold a young heartbeat of everyone.
    pub fully_informed: usize,
    /// Nodes that know the whole cluster.
    pub know_all: usize,
    /// Receipts counted for young heartbeats, over all nodes; capped at `u64::MAX`.
    pub messages_observed: u64,
}

fn is_within(now: u64, timestamp: u64, limit: u64) -> (r: bool)
    ensures
        r == within(now as nat, timestamp as nat, limit as nat),
{
    timestamp > now || now - timestamp < limit
}

/// Whether the table has an entry for each of the `number_nodes` nodes.
pub fn knows_all_nodes(table: &Storage, number_nodes: u64) -> (r: bool)
    ensures
        r == knows_all(table@, number_nodes as nat),
{
    table.len() as u64 >= number_nodes
}

/// Whether the table knows the whole cluster and holds, for every peer, a
/// received heartbeat younger than `healthy_threshold_secs` at `now`.
pub fn is_fully_informed(
    table: &Storage,
    number_nodes: u64,
    now: u64,
    healthy_threshold_secs: u64,
) -> (r: bool)
    ensures
        r == fully_informed(
            table@,
            number_nodes as nat,
            now as nat,
            healthy_threshold_secs as nat,
        ),
{
    if !knows_all_nodes(table, number_nodes) {
        return false;
    }
    let entries = table.data();
    let mut i: usize = 0;
    while i < entries.len()
        invariant
            i <= entries.len(),
            entry_views(entries@) == table@,
            forall|j: int|
                0 <= j < i ==> live(
                    #[trigger] table@[j],
                    now as nat,
                    healthy_threshold_secs as nat,
                ),
        decreases entries.len() - i,
    {
        let entry = &entries[i];
        assert(table@[i as int] == entry@);
        if entry.received_count == 0 || !is_within(
            now,
            entry.heartbeat.timestamp,
            healthy_threshold_secs,
        ) {
            return false;
        }
        i += 1;
    }
    true
}

/// The receipts that the table has counted for the heartbeats younger than
/// `heartbeat_interval_secs` at `now`, capped at `u64::MAX`.
pub fn observed_messages(table: &Storage, now: u64, heartbeat_interval_secs: u64) -> (total: u64)
    ensures
        total == capped(messages(table@, now as nat, heartbeat_interval_secs as nat)),
{
    let entries = table.data();
    let mut total: u64 = 0;
    let mut i: usize = 0;
    while i < entries.len()
        invariant
            i <= entries.len(),
            entry_views(entries@) == table@,
            total == capped(
                messages(table@.take(i as int), now as nat, heartbeat_interval_secs as nat),
            ),
        decreases entries.len() - i,
    {
        let entry = &entries[i];
        proof {
            assert(table@.take(i + 1).drop_last() =~= table@.take(i as int));
            assert(table@.take(i + 1).last() == entry@);
        }
        if is_within(now, entry.heartbeat.timestamp, heartbeat_interval_secs) {
            total = if entry.received_count > u64::MAX - total {
                u64::MAX
            } else {
                total + entry.received_count
            };
        }
        i += 1;
    }
    assert(table@.take(i as int) =~= table@);
    total
}

/// The three measures of convergence, over one snapshot of every node's
/// table, all taken at `now`, for a cluster of `number_nodes` nodes.
pub fn calculate_metrics(
    tables: &Vec<Storage>,
    number_nodes: u64,
    healthy_threshold_secs: u64,
    heartbeat_interval_secs: u64,
    now: u64,
) -> (m: Metrics)
    ensures
        m.fully_informed == table_views(tables@).filter(
            |t: Seq<EntryView>|
                fully_informed(
                    t,
                    number_nodes as nat,
                    now as nat,
                    healthy_threshold_secs as nat,
                ),
        ).len(),
        m.know_all == table_views(tables@).filter(
            |t: Seq<EntryView>| knows_all(t, number_nodes as nat),
        ).len(),
        m.messages_observed == capped(
            total_messages(table_views(tables@), now as nat, heartbeat_interval_secs as nat),
        ),
{
    let ghost views = table_views(tables@);
    let ghost informed = |t: Seq<EntryView>|
        fully_informed(t, number_nodes as nat, now as nat, healthy_threshold_secs as nat);
    let ghost complete = |t: Seq<EntryView>| knows_all(t, number_nodes as nat);
    let mut fully: usize = 0;
    let mut know_all: usize = 0;
    let mut messages_observed: u64 = 0;
    let mut i: usize = 0;
    while i < tables.len()
        invariant
            i <= tables.len(),
            views == table_views(tables@),
            informed == |t: Seq<EntryView>|
                fully_informed(t, number_nodes as nat, now as nat, healthy_threshold_secs as nat),
            complete == |t: Seq<EntryView>| knows_all(t, number_nodes as nat),
            fully == views.take(i as int).filter(informed).len(),
            know_all == views.take(i as int).filter(complete).len(),
            fully <= i,
            know_all <= i,
            messages_observed == capped(
                total_messages(views.take(i as int), now as nat, heartbeat_interval_secs as nat),
            ),
        decreases tables.len() - i,
    {
        let table = &tables[i];
        proof {
            let seen = views.take(i as int);
            assert(views.take(i + 1) =~= seen.push(table@));
            assert(views.take(i + 1).drop_last() =~= seen);
            seen.lemma_filter_push(table@, informed);
            seen.lemma_filter_push(table@, complete);
        }
        if knows_all_nodes(table, number_nodes) {
            know_all += 1;
        }
        if is_fully_informed(table, number_nodes, now, healthy_threshold_secs) {
            fully += 1;
        }
        let counted = observed_messages(table, now, heartbeat_interval_secs);
        messages_observed = if counted > u64::MAX - messages_observed {
            u64::MAX
        } else {
            messages_observed + counted
        };
        i += 1;
    }
    assert(views.take(i as int) =~= views);
    Metrics { fully_informed: fully, know_all, messages_observed }
}

} // verus!
