//! The membership table as a mathematical object: a sequence of entries, one
//! per known peer, in the order in which the peers became known.

use crate::heartbeat::{EntryView, HeartbeatView};
use vstd::prelude::*;

verus! {

/// No two entries speak of the same peer.
pub open spec fn distinct_ids(entries: Seq<EntryView>) -> bool {
    forall|i: int, j: int|
        0 <= i < j < entries.len() ==> entries[i].heartbeat.id != entries[j].heartbeat.id
}

/// The table has an entry for `id`.
pub open spec fn knows(entries: Seq<EntryView>, id: Seq<char>) -> bool {
    exists|i: int| 0 <= i < entries.len() && entries[i].heartbeat.id == id
}

/// Where the entry for `id` stands, if the table knows `id`.
pub open spec fn slot(entries: Seq<EntryView>, id: Seq<char>) -> int {
    choose|i: int| 0 <= i < entries.len() && entries[i].heartbeat.id == id
}

/// The entry for `id`, if the table knows `id`.
pub open spec fn entry_of(entries: Seq<EntryView>, id: Seq<char>) -> EntryView {
    entries[slot(entries, id)]
}

/// The table with `entry` in the place of whatever it held for the same peer,
/// or added at the end if the peer was unknown.
pub open spec fn put(entries: Seq<EntryView>, entry: EntryView) -> Seq<EntryView> {
    if knows(entries, entry.heartbeat.id) {
        entries.update(slot(entries, entry.heartbeat.id), entry)
    } else {
        entries.push(entry)
    }
}

/// The table that holds the entries of a list, put one after the other: where
/// a peer stands twice in the list, the later entry takes the place of the
/// earlier.
pub open spec fn placed(entries: Seq<EntryView>) -> Seq<EntryView>
    decreases entries.len(),
{
    if entries.len() == 0 {
        Seq::empty()
    } else {
        put(placed(entries.drop_last()), entries.last())
    }
}

/// The entry of a peer that is known by address only: nothing was received
/// from it yet, and `now` is when it became known.
pub open spec fn unheard(id: Seq<char>, address: Seq<char>, now: nat) -> EntryView {
    EntryView { heartbeat: HeartbeatView { id, address, timestamp: now }, received_count: 0 }
}

/// The table that knows the seed peers, each an `(id, address)` pair, and
/// nothing else. Where an id stands twice, the later pair counts.
pub open spec fn seeded(seeds: Seq<(Seq<char>, Seq<char>)>, now: nat) -> Seq<EntryView>
    decreases seeds.len(),
{
    if seeds.len() == 0 {
        Seq::empty()
    } else {
        put(seeded(seeds.drop_last(), now), unheard(seeds.last().0, seeds.last().1, now))
    }
}

/// The table of a node at startup: the seed peers and the node itself, which
/// counts over a seed of its own id.
pub open spec fn initial_table(
    id: Seq<char>,
    address: Seq<char>,
    seeds: Seq<(Seq<char>, Seq<char>)>,
    now: nat,
) -> Seq<EntryView> {
    put(seeded(seeds, now), unheard(id, address, now))
}

/// `h` is news to the table: its peer is unknown, or `h` is strictly newer
/// than the heartbeat held for the peer.
pub open spec fn refreshes(entries: Seq<EntryView>, h: HeartbeatView) -> bool {
    !knows(entries, h.id) || h.timestamp > entry_of(entries, h.id).heartbeat.timestamp
}

/// The entry that the table holds for the peer of `h` once `h` has been
/// received: news is adopted and counted once; anything else leaves the held
/// heartbeat alone and is counted as one more receipt of it.
pub open spec fn merged(entries: Seq<EntryView>, h: HeartbeatView) -> EntryView {
    if refreshes(entries, h) {
        EntryView { heartbeat: h, received_count: 1 }
    } else {
        EntryView {
            heartbeat: entry_of(entries, h.id).heartbeat,
            received_count: entry_of(entries, h.id).received_count + 1,
        }
    }
}

/// The table after `h` has been received.
pub open spec fn merge(entries: Seq<EntryView>, h: HeartbeatView) -> Seq<EntryView> {
    put(entries, merged(entries, h))
}

/// The addresses at which the peers of the table can be reached, in table
/// order; a peer's address stands once for every entry that names it.
pub open spec fn addresses(entries: Seq<EntryView>) -> Seq<Seq<char>> {
    entries.map_values(|e: EntryView| e.heartbeat.address)
}

/// The addresses of the table that are not among `exclude`, in table order.
pub open spec fn candidates(entries: Seq<EntryView>, exclude: Seq<Seq<char>>) -> Seq<Seq<char>> {
    addresses(entries).filter(|a: Seq<char>| !exclude.contains(a))
}

/// Receiving `h` would push the count of its peer past what a `u64` holds.
pub open spec fn exhausts_count(entries: Seq<EntryView>, h: HeartbeatView) -> bool {
    merged(entries, h).received_count > u64::MAX
}

/// In a table without repeated peers, an entry is found where it stands.
pub proof fn lemma_slot_is_position(entries: Seq<EntryView>, i: int)
    requires
        distinct_ids(entries),
        0 <= i < entries.len(),
    ensures
        knows(entries, entries[i].heartbeat.id),
        slot(entries, entries[i].heartbeat.id) == i,
        entry_of(entries, entries[i].heartbeat.id) == entries[i],
{
    let id = entries[i].heartbeat.id;
    let k = slot(entries, id);
    assert(0 <= k < entries.len() && entries[k].heartbeat.id == id);
    assert(k == i) by {
        if k < i {
            assert(entries[k].heartbeat.id != entries[i].heartbeat.id);
        } else if i < k {
            assert(entries[i].heartbeat.id != entries[k].heartbeat.id);
        }
    }
}

/// What `put` does to a table without repeated peers: the new entry is the
/// one found for its peer, every other peer keeps its entry, and no peer
/// comes to stand twice.
pub proof fn lemma_put(entries: Seq<EntryView>, entry: EntryView)
    requires
        distinct_ids(entries),
    ensures
        distinct_ids(put(entries, entry)),
        knows(put(entries, entry), entry.heartbeat.id),
        entry_of(put(entries, entry), entry.heartbeat.id) == entry,
        put(entries, entry).len() == entries.len() + if knows(entries, entry.heartbeat.id) {
            0int
        } else {
            1int
        },
        forall|id: Seq<char>|
            id != entry.heartbeat.id ==> (knows(put(entries, entry), id) <==> knows(entries, id)),
        forall|id: Seq<char>|
            id != entry.heartbeat.id && knows(entries, id) ==> #[trigger] entry_of(
                put(entries, entry),
                id,
            ) == entry_of(entries, id),
{
    let id = entry.heartbeat.id;
    let after = put(entries, entry);
    let at: int = if knows(entries, id) {
        slot(entries, id)
    } else {
        entries.len() as int
    };
    assert(0 <= at < after.len() && after[at] == entry);
    assert forall|i: int| 0 <= i < after.len() && i != at implies after[i] == entries[i]
        && entries[i].heartbeat.id != id by {
        if knows(entries, id) {
            lemma_slot_is_position(entries, i);
        }
    }
    assert(distinct_ids(after)) by {
        assert forall|i: int, j: int| 0 <= i < j < after.len() implies after[i].heartbeat.id
            != after[j].heartbeat.id by {
            if i != at && j != at {
                assert(entries[i].heartbeat.id != entries[j].heartbeat.id);
            }
        }
    }
    lemma_slot_is_position(after, at);
    assert forall|other: Seq<char>| other != id implies (knows(after, other) <==> knows(
        entries,
        other,
    )) by {
        if knows(entries, other) {
            let k = slot(entries, other);
            assert(after[k].heartbeat.id == other);
        }
        if knows(after, other) {
            let k = slot(after, other);
            assert(entries[k].heartbeat.id == other);
        }
    }
    assert forall|other: Seq<char>| other != id && knows(entries, other) implies #[trigger] entry_of(
        after,
        other,
    ) == entry_of(entries, other) by {
        let k = slot(entries, other);
        assert(after[k] == entries[k]);
        lemma_slot_is_position(after, k);
    }
}

/// What `merge` does to a table without repeated peers: the peer of `h` gets
/// the merged entry, every other peer keeps its entry, nobody is forgotten
/// and no peer comes to stand twice.
pub proof fn lemma_merge(entries: Seq<EntryView>, h: HeartbeatView)
    requires
        distinct_ids(entries),
    ensures
        distinct_ids(merge(entries, h)),
        knows(merge(entries, h), h.id),
        entry_of(merge(entries, h), h.id) == merged(entries, h),
        merged(entries, h).heartbeat.id == h.id,
        forall|id: Seq<char>| id != h.id ==> (knows(merge(entries, h), id) <==> knows(entries, id)),
        forall|id: Seq<char>|
            id != h.id && knows(entries, id) ==> #[trigger] entry_of(merge(entries, h), id)
                == entry_of(entries, id),
{
    lemma_put(entries, merged(entries, h));
}

} // verus!
