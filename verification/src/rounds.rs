//! One round of each of a node's two loops: what the node decides between
//! reading the clock or the channel and handing datagrams to the channel.

use crate::error::HeartbeatError;
use crate::heartbeat::{announcement, Heartbeat};
use crate::selection::{drawn_from, texts};
use crate::storage::Storage;
use crate::table::{candidates, exhausts_count, merge, merged};
use vstd::prelude::*;

verus! {

/// A heartbeat and the addresses it is to be sent to.
#[derive(Debug)]
pub struct Outbound {
    pub heartbeat: Heartbeat,
    pub addresses: Vec<String>,
}

/// One round of the emitter of the node `id` at `address`, at time `now`:
/// the node's own heartbeat is built and merged into its table, and up to
/// `spread` peers are drawn to send it to, never the node itself.
///
/// Fails, with the table untouched, only where the count of the node's own
/// entry no longer fits.
pub fn heartbeat_round(
    storage: &mut Storage,
    id: &String,
    address: &String,
    now: u64,
    spread: usize,
) -> (r: Result<Outbound, HeartbeatError>)
    ensures
        match r {
            Ok(out) => {
                &&& out.heartbeat@ == announcement(id@, address@, now as nat)
                &&& final(storage)@ == merge(old(storage)@, out.heartbeat@)
                &&& drawn_from(
                    texts(out.addresses@),
                    candidates(final(storage)@, seq![address@]),
                    spread as nat,
                )
                &&& out.addresses@.len() <= spread
                &&& forall|i: int|
                    0 <= i < out.addresses@.len() ==> #[trigger] out.addresses@[i]@ != address@
            },
            Err(e) => final(storage)@ == old(storage)@ && e is Other,
        },
        r is Err <==> exhausts_count(old(storage)@, announcement(id@, address@, now as nat)),
{
    let heartbeat = Heartbeat { id: id.clone(), address: address.clone(), timestamp: now };
    match storage.insert(heartbeat.clone()) {
        Ok(_) => {},
        Err(e) => {
            return Err(e);
        },
    }
    let mut exclude: Vec<String> = Vec::new();
    exclude.push(address.clone());
    assert(texts(exclude@) =~= seq![address@]);
    match storage.select_n_random_addresses(spread, exclude) {
        Ok(addresses) => {
            assert forall|i: int| 0 <= i < addresses@.len() implies #[trigger] addresses@[i]@
                != address@ by {
                assert(seq![address@][0] == address@);
            }
            Ok(Outbound { heartbeat, addresses })
        },
        Err(e) => Err(e),
    }
}

/// One round of the forwarder of the node at `address`, for a heartbeat that
/// the channel delivered: the heartbeat is merged into the table, and
/// `should_forward` is asked, with the count that the merge gave, whether to
/// pass it on. If so, up to `spread` peers are drawn, never the node itself
/// nor the address that the heartbeat names. Nothing is to be sent where
/// `should_forward` declines or no peer is left to draw.
///
/// Fails, with the table untouched, only where the count of the heartbeat's
/// peer no longer fits.
pub fn gossip_round<F: Fn(u64) -> bool>(
    storage: &mut Storage,
    address: &String,
    heartbeat: Heartbeat,
    spread: usize,
    should_forward: F,
) -> (r: Result<Option<Outbound>, HeartbeatError>)
    requires
        forall|count: u64| should_forward.requires((count,)),
    ensures
        match r {
            Ok(sent) => {
                &&& final(storage)@ == merge(old(storage)@, heartbeat@)
                &&& match sent {
                    Some(out) => {
                        &&& should_forward.ensures(
                            (merged(old(storage)@, heartbeat@).received_count as u64,),
                            true,
                        )
                        &&& out.heartbeat == heartbeat
                        &&& out.addresses@.len() > 0
                        &&& drawn_from(
                            texts(out.addresses@),
                            candidates(final(storage)@, seq![address@, heartbeat@.address]),
                            spread as nat,
                        )
                        &&& out.addresses@.len() <= spread
                        &&& forall|i: int|
                            0 <= i < out.addresses@.len() ==> #[trigger] out.addresses@[i]@
                                != address@ && out.addresses@[i]@ != heartbeat@.address
                    },
                    None => {
                        ||| should_forward.ensures(
                            (merged(old(storage)@, heartbeat@).received_count as u64,),
                            false,
                        )
                        ||| spread == 0
                        ||| candidates(final(storage)@, seq![address@, heartbeat@.address]).len()
                            == 0
                    },
                }
            },
            Err(e) => final(storage)@ == old(storage)@ && e is Other,
        },
        r is Err <==> exhausts_count(old(storage)@, heartbeat@),
{
    let count = match storage.insert(heartbeat.clone()) {
        Ok(count) => count,
        Err(e) => {
            return Err(e);
        },
    };
    if !should_forward(count) {
        return Ok(None);
    }
    let mut exclude: Vec<String> = Vec::new();
    exclude.push(address.clone());
    exclude.push(heartbeat.address.clone());
    assert(texts(exclude@) =~= seq![address@, heartbeat@.address]);
    match storage.select_n_random_addresses(spread, exclude) {
        Ok(addresses) => {
            if addresses.len() == 0 {
                return Ok(None);
            }
            assert forall|i: int| 0 <= i < addresses@.len() implies #[trigger] addresses@[i]@
                != address@ && addresses@[i]@ != heartbeat@.address by {
                let exclude = seq![address@, heartbeat@.address];
                assert(exclude[0] == address@);
                assert(exclude[1] == heartbeat@.address);
            }
            Ok(Some(Outbound { heartbeat, addresses }))
        },
        Err(e) => Err(e),
    }
}

} // verus!
