//! The membership table of one node.

use crate::clock::now_unix;
use crate::error::HeartbeatError;
use crate::heartbeat::{entry_views, EntryView, Heartbeat, NodeHeartbeatData};
use crate::selection::{contains_string, drawn_from, select_random_n_strings, texts};
use crate::table::{
    addresses, candidates, distinct_ids, entry_of, exhausts_count, initial_table, knows,
    lemma_put, lemma_slot_is_position, merge, merged, placed, put, refreshes, seeded,
};
use vstd::prelude::*;
use vstd::string::StringExecFns;

verus! {

/// The freshest heartbeat seen for every known peer, with the number of times
/// it was received. A peer never has two entries, and entries are never
/// removed.
#[derive(Debug)]
pub struct Storage {
    data: Vec<NodeHeartbeatData>,
}

impl View for Storage {
    type V = Seq<EntryView>;

    closed spec fn view(&self) -> Seq<EntryView> {
        entry_views(self.data@)
    }
}

impl Clone for Storage {
    fn clone(&self) -> (copy: Self)
        ensures
            copy@ == self@,
    {
        proof {
            use_type_invariant(self);
        }
        let mut data: Vec<NodeHeartbeatData> = Vec::new();
        let mut i: usize = 0;
        while i < self.data.len()
            invariant
                i <= self.data.len(),
                data@ == self.data@.take(i as int),
            decreases self.data.len() - i,
        {
            data.push(self.data[i].clone());
            assert(data@ =~= self.data@.take(i + 1));
            i += 1;
        }
        assert(data@ =~= self.data@);
        Storage { data }
    }
}

impl Storage {
    /// Every peer has at most one entry.
    #[verifier::type_invariant]
    pub open spec fn one_entry_per_peer(self) -> bool {
        distinct_ids(self@)
    }

    /// A table that knows nobody.
    pub fn new() -> (table: Storage)
        ensures
            table@ == Seq::<EntryView>::empty(),
    {
        Storage { data: Vec::new() }
    }

    /// The table that holds `entries`, put one after the other: an entry
    /// takes the place of an earlier one of the same peer.
    pub fn from_entries(entries: Vec<NodeHeartbeatData>) -> (table: Storage)
        ensures
            table@ == placed(entry_views(entries@)),
    {
        let mut table = Storage::new();
        let mut i: usize = 0;
        while i < entries.len()
            invariant
                i <= entries.len(),
                table@ == placed(entry_views(entries@).take(i as int)),
            decreases entries.len() - i,
        {
            proof {
                let next = entry_views(entries@).take(i + 1);
                assert(next.drop_last() =~= entry_views(entries@).take(i as int));
                assert(next.last() == entries@[i as int]@);
            }
            table.place(entries[i].clone());
            i += 1;
        }
        assert(entry_views(entries@).take(i as int) =~= entry_views(entries@));
        table
    }

    /// The number of known peers.
    pub fn len(&self) -> (n: usize)
        ensures
            n == self@.len(),
    {
        self.data.len()
    }

    /// The entries, in the order in which their peers became known.
    pub fn data(&self) -> (entries: &Vec<NodeHeartbeatData>)
        ensures
            entry_views(entries@) == self@,
            distinct_ids(self@),
    {
        proof {
            use_type_invariant(self);
        }
        &self.data
    }

    fn position(&self, id: &String) -> (at: Option<usize>)
        ensures
            match at {
                Some(i) => i < self@.len() && self@[i as int].heartbeat.id == id@,
                None => !knows(self@, id@),
            },
    {
        let mut i: usize = 0;
        while i < self.data.len()
            invariant
                i <= self.data.len(),
                forall|j: int| 0 <= j < i ==> self@[j].heartbeat.id != id@,
            decreases self.data.len() - i,
        {
            if self.data[i].heartbeat.id == *id {
                return Some(i);
            }
            i += 1;
        }
        None
    }

    /// The entry held for `id`, if the peer is known.
    pub fn get(&self, id: &String) -> (found: Option<&NodeHeartbeatData>)
        ensures
            match found {
                Some(entry) => knows(self@, id@) && entry@ == entry_of(self@, id@),
                None => !knows(self@, id@),
            },
    {
        match self.position(id) {
            Some(i) => {
                proof {
                    use_type_invariant(self);
                    lemma_slot_is_position(self@, i as int);
                }
                Some(&self.data[i])
            },
            None => None,
        }
    }

    /// Sets `entry` in the place of the entry of the same peer, or adds it.
    fn place(&mut self, entry: NodeHeartbeatData)
        ensures
            final(self)@ == put(old(self)@, entry@),
    {
        proof {
            use_type_invariant(&*self);
            lemma_put(self@, entry@);
        }
        let found = self.position(&entry.heartbeat.id);
        let mut data: Vec<NodeHeartbeatData> = Vec::new();
        core::mem::swap(&mut self.data, &mut data);
        assert(entry_views(data@) == old(self)@);
        match found {
            Some(i) => {
                proof {
                    lemma_slot_is_position(old(self)@, i as int);
                }
                data[i] = entry;
            },
            None => {
                data.push(entry);
            },
        }
        assert(entry_views(data@) =~= put(old(self)@, entry@));
        self.data = data;
    }

    /// Merges a received heartbeat into the table and returns how often the
    /// heartbeat now held for its peer has been received.
    ///
    /// A heartbeat of an unknown peer, or one strictly newer than the one
    /// held, is adopted and counted once. Any other leaves the held heartbeat
    /// as it is and adds one to its count. The only failure is a count that
    /// no longer fits; the table is then left as it was.
    pub fn insert(&mut self, heartbeat: Heartbeat) -> (r: Result<u64, HeartbeatError>)
        ensures
            match r {
                Ok(count) => {
                    &&& final(self)@ == merge(old(self)@, heartbeat@)
                    &&& count == merged(old(self)@, heartbeat@).received_count
                    &&& count == entry_of(final(self)@, heartbeat@.id).received_count
                },
                Err(e) => {
                    &&& final(self)@ == old(self)@
                    &&& e matches HeartbeatError::Other(text)
                    &&& text@ == "received count exhausted"@
                },
            },
            r is Err <==> exhausts_count(old(self)@, heartbeat@),
            refreshes(old(self)@, heartbeat@) ==> r == Ok::<u64, HeartbeatError>(1),
            !refreshes(old(self)@, heartbeat@) && r is Ok ==> {
                &&& r->Ok_0 == entry_of(old(self)@, heartbeat@.id).received_count + 1
                &&& entry_of(final(self)@, heartbeat@.id).heartbeat == entry_of(
                    old(self)@,
                    heartbeat@.id,
                ).heartbeat
            },
            forall|id: Seq<char>|
                knows(old(self)@, id) ==> knows(final(self)@, id) && #[trigger] entry_of(
                    final(self)@,
                    id,
                ).heartbeat.timestamp >= entry_of(old(self)@, id).heartbeat.timestamp,
            distinct_ids(final(self)@),
    {
        proof {
            use_type_invariant(&*self);
            lemma_put(self@, merged(self@, heartbeat@));
        }
        let found = self.position(&heartbeat.id);
        let mut data: Vec<NodeHeartbeatData> = Vec::new();
        core::mem::swap(&mut self.data, &mut data);
        assert(entry_views(data@) == old(self)@);
        let r = match found {
            Some(i) => {
                proof {
                    lemma_slot_is_position(old(self)@, i as int);
                }
                if heartbeat.timestamp > data[i].heartbeat.timestamp {
                    data[i] = NodeHeartbeatData { heartbeat, received_count: 1 };
                    Ok(1)
                } else if data[i].received_count == u64::MAX {
                    Err(HeartbeatError::Other(String::from_str("received count exhausted")))
                } else {
                    let count = data[i].received_count + 1;
                    data[i].received_count = count;
                    Ok(count)
                }
            },
            None => {
                data.push(NodeHeartbeatData { heartbeat, received_count: 1 });
                Ok(1)
            },
        };
        assert(r is Ok ==> entry_views(data@) =~= merge(old(self)@, heartbeat@));
        assert(r is Err ==> entry_views(data@) =~= old(self)@);
        self.data = data;
        r
    }

    /// Up to `n` addresses of known peers, none of them among `filter_out`,
    /// drawn at random without replacement. Empty where no address is left.
    pub fn select_n_random_addresses(
        &self,
        n: usize,
        filter_out: Vec<String>,
    ) -> (r: Result<Vec<String>, HeartbeatError>)
        ensures
            r is Ok,
            drawn_from(texts(r->Ok_0@), candidates(self@, texts(filter_out@)), n as nat),
            r->Ok_0@.len() <= n,
            forall|i: int|
                0 <= i < r->Ok_0@.len() ==> !texts(filter_out@).contains(#[trigger] r->Ok_0@[i]@),
            forall|i: int|
                0 <= i < r->Ok_0@.len() ==> addresses(self@).contains(#[trigger] r->Ok_0@[i]@),
    {
        let ghost exclude = texts(filter_out@);
        let ghost wanted = |a: Seq<char>| !exclude.contains(a);
        let mut pool: Vec<String> = Vec::new();
        let mut i: usize = 0;
        while i < self.data.len()
            invariant
                i <= self.data.len(),
                exclude == texts(filter_out@),
                wanted == |a: Seq<char>| !exclude.contains(a),
                texts(pool@) == addresses(self@.take(i as int)).filter(wanted),
            decreases self.data.len() - i,
        {
            let address = &self.data[i].heartbeat.address;
            proof {
                let seen = addresses(self@.take(i as int));
                assert(addresses(self@.take(i + 1)) =~= seen.push(address@));
                seen.lemma_filter_push(address@, wanted);
            }
            if !contains_string(&filter_out, address) {
                let ghost before = texts(pool@);
                pool.push(address.clone());
                assert(texts(pool@) =~= before.push(address@));
            }
            i += 1;
        }
        assert(self@.take(i as int) =~= self@);
        let picked = select_random_n_strings(pool, n);
        proof {
            let pool_texts = candidates(self@, exclude);
            assert forall|k: int| 0 <= k < picked@.len() implies !exclude.contains(
                #[trigger] picked@[k]@,
            ) && addresses(self@).contains(picked@[k]@) by {
                let a = picked@[k]@;
                assert(texts(picked@)[k] == a);
                texts(picked@).to_multiset_ensures();
                pool_texts.to_multiset_ensures();
                assert(texts(picked@).to_multiset().count(a) > 0);
                assert(pool_texts.to_multiset().count(a) > 0);
                assert(pool_texts.contains(a));
                addresses(self@).lemma_filter_contains_rev(wanted, a);
            }
        }
        Ok(picked)
    }
}

/// The seed peers of a list, each as the characters of its id and address.
pub open spec fn seed_views(seeds: Seq<(String, String)>) -> Seq<(Seq<char>, Seq<char>)> {
    seeds.map_values(|seed: (String, String)| (seed.0@, seed.1@))
}

/// The table of the node `id` at `address` as it starts at time `now`: it
/// knows the seed peers and itself, has heard of nobody yet, and dates every
/// entry `now`.
pub fn setup_storage_at(
    id: String,
    address: String,
    seed_nodes: Vec<(String, String)>,
    now: u64,
) -> (table: Storage)
    ensures
        table@ == initial_table(id@, address@, seed_views(seed_nodes@), now as nat),
{
    let mut table = Storage::new();
    let mut i: usize = 0;
    while i < seed_nodes.len()
        invariant
            i <= seed_nodes.len(),
            table@ == seeded(seed_views(seed_nodes@).take(i as int), now as nat),
        decreases seed_nodes.len() - i,
    {
        let seed = &seed_nodes[i];
        proof {
            let next = seed_views(seed_nodes@).take(i + 1);
            assert(next.drop_last() =~= seed_views(seed_nodes@).take(i as int));
            assert(next.last() == (seed.0@, seed.1@));
        }
        table.place(
            NodeHeartbeatData {
                heartbeat: Heartbeat {
                    id: seed.0.clone(),
                    address: seed.1.clone(),
                    timestamp: now,
                },
                received_count: 0,
            },
        );
        i += 1;
    }
    assert(seed_views(seed_nodes@).take(i as int) =~= seed_views(seed_nodes@));
    table.place(
        NodeHeartbeatData {
            heartbeat: Heartbeat { id, address, timestamp: now },
            received_count: 0,
        },
    );
    table
}

/// The table of the node `id` at `address` as it starts now: as
/// `setup_storage_at` builds it for the present reading of the clock.
pub fn setup_storage(
    id: String,
    address: String,
    seed_nodes: Vec<(String, String)>,
) -> (table: Storage)
    ensures
        exists|now: u64|
            table@ == #[trigger] initial_table(
                id@,
                address@,
                seed_views(seed_nodes@),
                now as nat,
            ),
{
    let now = now_unix();
    setup_storage_at(id, address, seed_nodes, now)
}

} // verus!
