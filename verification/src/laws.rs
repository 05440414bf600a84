//! What holds of the membership table however it is used.

use crate::heartbeat::{EntryView, HeartbeatView};
use crate::table::{
    distinct_ids, entry_of, initial_table, knows, lemma_merge, lemma_put, merge, placed,
    refreshes, seeded, slot, unheard,
};
use vstd::prelude::*;

verus! {

/// The table after the heartbeats of `hs` have been received, first to last.
pub open spec fn merge_all(entries: Seq<EntryView>, hs: Seq<HeartbeatView>) -> Seq<EntryView>
    decreases hs.len(),
{
    if hs.len() == 0 {
        entries
    } else {
        merge(merge_all(entries, hs.drop_last()), hs.last())
    }
}

/// How many heartbeats of `hs` are of the peer `id`.
pub open spec fn receipts(hs: Seq<HeartbeatView>, id: Seq<char>) -> nat {
    hs.filter(|h: HeartbeatView| h.id == id).len()
}

/// Receiving heartbeats never lets a peer stand twice in the table.
pub proof fn law_one_entry_per_peer(entries: Seq<EntryView>, hs: Seq<HeartbeatView>)
    requires
        distinct_ids(entries),
    ensures
        distinct_ids(merge_all(entries, hs)),
    decreases hs.len(),
{
    if hs.len() > 0 {
        law_one_entry_per_peer(entries, hs.drop_last());
        lemma_merge(merge_all(entries, hs.drop_last()), hs.last());
    }
}

/// A received heartbeat leaves the table with an entry for its peer, counted
/// at least once, and the entry names the peer it is filed under.
pub proof fn law_received_is_known(entries: Seq<EntryView>, h: HeartbeatView)
    requires
        distinct_ids(entries),
    ensures
        knows(merge(entries, h), h.id),
        entry_of(merge(entries, h), h.id).heartbeat.id == h.id,
        entry_of(merge(entries, h), h.id).received_count >= 1,
{
    lemma_merge(entries, h);
}

/// One received heartbeat never takes a peer out of the table and never
/// turns the time of a peer's heartbeat back.
pub proof fn law_merge_keeps_time(entries: Seq<EntryView>, h: HeartbeatView, id: Seq<char>)
    requires
        distinct_ids(entries),
        knows(entries, id),
    ensures
        knows(merge(entries, h), id),
        entry_of(merge(entries, h), id).heartbeat.timestamp >= entry_of(
            entries,
            id,
        ).heartbeat.timestamp,
{
    lemma_merge(entries, h);
}

/// While heartbeats are received, the time of the
/// heartbeat held for a known peer, read after `earlier` of them and again
/// after `later` of them, has not gone back; and the peer stays known.
pub proof fn law_timestamps_never_regress(
    entries: Seq<EntryView>,
    hs: Seq<HeartbeatView>,
    id: Seq<char>,
    earlier: int,
    later: int,
)
    requires
        distinct_ids(entries),
        knows(entries, id),
        0 <= earlier <= later <= hs.len(),
    ensures
        knows(merge_all(entries, hs.take(earlier)), id),
        knows(merge_all(entries, hs.take(later)), id),
        entry_of(merge_all(entries, hs.take(earlier)), id).heartbeat.timestamp <= entry_of(
            merge_all(entries, hs.take(later)),
            id,
        ).heartbeat.timestamp,
    decreases later,
{
    if later == 0 {
        assert(hs.take(0) =~= Seq::<HeartbeatView>::empty());
    } else if earlier == later {
        law_timestamps_never_regress(entries, hs, id, earlier - 1, later - 1);
        let before = merge_all(entries, hs.take(later - 1));
        assert(hs.take(later).drop_last() =~= hs.take(later - 1));
        law_one_entry_per_peer(entries, hs.take(later - 1));
        law_merge_keeps_time(before, hs.take(later).last(), id);
    } else {
        law_timestamps_never_regress(entries, hs, id, earlier, later - 1);
        let before = merge_all(entries, hs.take(later - 1));
        assert(hs.take(later).drop_last() =~= hs.take(later - 1));
        law_one_entry_per_peer(entries, hs.take(later - 1));
        law_merge_keeps_time(before, hs.take(later).last(), id);
    }
}

/// Once a heartbeat that is news to the table has
/// been received, it is the one held for its peer, counted once.
pub proof fn law_refresh_resets_count(entries: Seq<EntryView>, h: HeartbeatView)
    requires
        distinct_ids(entries),
        refreshes(entries, h),
    ensures
        entry_of(merge(entries, h), h.id) == (EntryView { heartbeat: h, received_count: 1 }),
{
    lemma_merge(entries, h);
}

/// A heartbeat that is no news leaves the held heartbeat of its peer alone
/// and adds one to its count.
pub proof fn law_redundant_receipt_counts(entries: Seq<EntryView>, h: HeartbeatView)
    requires
        distinct_ids(entries),
        !refreshes(entries, h),
    ensures
        entry_of(merge(entries, h), h.id).heartbeat == entry_of(entries, h.id).heartbeat,
        entry_of(merge(entries, h), h.id).received_count == entry_of(
            entries,
            h.id,
        ).received_count + 1,
{
    lemma_merge(entries, h);
}

/// While none of the heartbeats received
/// is news about the peer `id`, the heartbeat held for `id` stays, and its
/// count rises by exactly one for each received heartbeat of `id`.
pub proof fn law_count_rises_between_refreshes(
    entries: Seq<EntryView>,
    hs: Seq<HeartbeatView>,
    id: Seq<char>,
)
    requires
        distinct_ids(entries),
        knows(entries, id),
        forall|k: int|
            0 <= k < hs.len() && (#[trigger] hs[k]).id == id ==> hs[k].timestamp <= entry_of(
                entries,
                id,
            ).heartbeat.timestamp,
    ensures
        knows(merge_all(entries, hs), id),
        entry_of(merge_all(entries, hs), id).heartbeat == entry_of(entries, id).heartbeat,
        entry_of(merge_all(entries, hs), id).received_count == entry_of(
            entries,
            id,
        ).received_count + receipts(hs, id),
    decreases hs.len(),
{
    if hs.len() == 0 {
        assert(hs.filter(|h: HeartbeatView| h.id == id) =~= Seq::<HeartbeatView>::empty()) by {
            reveal(Seq::filter);
        }
    } else {
        let earlier = hs.drop_last();
        let h = hs.last();
        assert forall|k: int| 0 <= k < earlier.len() && (#[trigger] earlier[k]).id
            == id implies earlier[k].timestamp <= entry_of(entries, id).heartbeat.timestamp by {
            assert(earlier[k] == hs[k]);
        }
        law_count_rises_between_refreshes(entries, earlier, id);
        law_one_entry_per_peer(entries, earlier);
        let before = merge_all(entries, earlier);
        lemma_merge(before, h);
        assert(hs =~= earlier.push(h));
        earlier.lemma_filter_push(h, |h: HeartbeatView| h.id == id);
    }
}

/// Receiving the same heartbeat a second
/// time changes no held heartbeat and adds no peer. It adds one to the count
/// of the heartbeat's peer and leaves every other entry as it was.
pub proof fn law_second_receipt_keeps_heartbeats(entries: Seq<EntryView>, h: HeartbeatView)
    requires
        distinct_ids(entries),
    ensures
        merge(merge(entries, h), h).len() == merge(entries, h).len(),
        forall|id: Seq<char>|
            knows(merge(merge(entries, h), h), id) <==> knows(merge(entries, h), id),
        forall|id: Seq<char>|
            knows(merge(entries, h), id) ==> (#[trigger] entry_of(
                merge(merge(entries, h), h),
                id,
            )).heartbeat == entry_of(merge(entries, h), id).heartbeat,
        entry_of(merge(merge(entries, h), h), h.id).received_count == entry_of(
            merge(entries, h),
            h.id,
        ).received_count + 1,
        forall|id: Seq<char>|
            id != h.id && knows(merge(entries, h), id) ==> #[trigger] entry_of(
                merge(merge(entries, h), h),
                id,
            ) == entry_of(merge(entries, h), id),
{
    let once = merge(entries, h);
    lemma_merge(entries, h);
    lemma_merge(once, h);
    assert(!refreshes(once, h));
}

/// A list of entries makes a table without repeated peers; a list without
/// repeated peers is that table.
pub proof fn law_entries_make_a_table(entries: Seq<EntryView>)
    ensures
        distinct_ids(placed(entries)),
        distinct_ids(entries) ==> placed(entries) == entries,
    decreases entries.len(),
{
    if entries.len() > 0 {
        let earlier = entries.drop_last();
        law_entries_make_a_table(earlier);
        lemma_put(placed(earlier), entries.last());
        if distinct_ids(entries) {
            assert(distinct_ids(earlier)) by {
                assert forall|i: int, j: int| 0 <= i < j < earlier.len() implies earlier[i].heartbeat.id
                    != earlier[j].heartbeat.id by {
                    assert(entries[i].heartbeat.id != entries[j].heartbeat.id);
                }
            }
            assert(!knows(earlier, entries.last().heartbeat.id)) by {
                if knows(earlier, entries.last().heartbeat.id) {
                    let k = slot(earlier, entries.last().heartbeat.id);
                    assert(entries[k].heartbeat.id != entries[entries.len() - 1].heartbeat.id);
                }
            }
            assert(placed(entries) =~= entries);
        }
    }
}

/// The seed pair at `i` is the last of `seeds` that names the peer `id`.
pub open spec fn names_last(seeds: Seq<(Seq<char>, Seq<char>)>, id: Seq<char>, i: int) -> bool {
    &&& 0 <= i < seeds.len()
    &&& seeds[i].0 == id
    &&& forall|j: int| i < j < seeds.len() ==> (#[trigger] seeds[j]).0 != id
}

/// The table seeded from `seeds` knows exactly the peers that `seeds` names,
/// each once, at the address of the last pair that names it, unheard of.
pub proof fn law_seeded_table(seeds: Seq<(Seq<char>, Seq<char>)>, now: nat)
    ensures
        distinct_ids(seeded(seeds, now)),
        forall|id: Seq<char>|
            knows(seeded(seeds, now), id) <==> exists|i: int| names_last(seeds, id, i),
        forall|id: Seq<char>, i: int| #[trigger]
            names_last(seeds, id, i) ==> entry_of(seeded(seeds, now), id) == unheard(
                id,
                seeds[i].1,
                now,
            ),
    decreases seeds.len(),
{
    let table = seeded(seeds, now);
    if seeds.len() == 0 {
        assert forall|id: Seq<char>| !knows(table, id) by {}
    } else {
        let earlier = seeds.drop_last();
        let last = seeds.last();
        let before = seeded(earlier, now);
        let entry = unheard(last.0, last.1, now);
        law_seeded_table(earlier, now);
        lemma_put(before, entry);
        assert forall|id: Seq<char>, i: int| #[trigger] names_last(seeds, id, i) implies entry_of(
            table,
            id,
        ) == unheard(id, seeds[i].1, now) by {
            if i == seeds.len() - 1 {
            } else {
                assert(seeds[seeds.len() - 1].0 != id);
                assert(names_last(earlier, id, i)) by {
                    assert forall|j: int| i < j < earlier.len() implies (#[trigger] earlier[j]).0
                        != id by {
                        assert(earlier[j] == seeds[j]);
                    }
                }
                assert(knows(before, id));
            }
        }
        assert forall|id: Seq<char>| knows(table, id) <==> exists|i: int|
            names_last(seeds, id, i) by {
            if id == last.0 {
                assert(names_last(seeds, id, seeds.len() - 1));
            } else {
                if knows(before, id) {
                    let i = choose|i: int| names_last(earlier, id, i);
                    assert(names_last(seeds, id, i)) by {
                        assert forall|j: int| i < j < seeds.len() implies (#[trigger] seeds[j]).0
                            != id by {
                            if j < earlier.len() {
                                assert(earlier[j] == seeds[j]);
                            }
                        }
                    }
                }
                if exists|i: int| names_last(seeds, id, i) {
                    let i = choose|i: int| names_last(seeds, id, i);
                    assert(names_last(earlier, id, i)) by {
                        assert forall|j: int| i < j < earlier.len() implies (
                        #[trigger] earlier[j]).0 != id by {
                            assert(earlier[j] == seeds[j]);
                        }
                    }
                }
            }
        }
    }
}

/// The table of a node at startup knows the node itself, at its own address,
/// and every seed peer, at the address of the last seed pair that names it;
/// it knows nobody else and nobody twice, and has heard of nobody.
pub proof fn law_startup_table(
    id: Seq<char>,
    address: Seq<char>,
    seeds: Seq<(Seq<char>, Seq<char>)>,
    now: nat,
)
    ensures
        distinct_ids(initial_table(id, address, seeds, now)),
        entry_of(initial_table(id, address, seeds, now), id) == unheard(id, address, now),
        forall|peer: Seq<char>|
            knows(initial_table(id, address, seeds, now), peer) <==> peer == id || exists|i: int|
                names_last(seeds, peer, i),
        forall|peer: Seq<char>, i: int|
            peer != id && #[trigger] names_last(seeds, peer, i) ==> entry_of(
                initial_table(id, address, seeds, now),
                peer,
            ) == unheard(peer, seeds[i].1, now),
{
    law_seeded_table(seeds, now);
    lemma_put(seeded(seeds, now), unheard(id, address, now));
    let table = initial_table(id, address, seeds, now);
    assert forall|peer: Seq<char>| knows(table, peer) <==> peer == id || exists|i: int|
        names_last(seeds, peer, i) by {
        if peer != id {
            assert(knows(table, peer) <==> knows(seeded(seeds, now), peer));
        }
    }
    assert forall|peer: Seq<char>, i: int|
        peer != id && #[trigger] names_last(seeds, peer, i) implies entry_of(
        initial_table(id, address, seeds, now),
        peer,
    ) == unheard(peer, seeds[i].1, now) by {
        assert(knows(seeded(seeds, now), peer));
    }
}

} // verus!
