//! The peer registry: the peers that are connected right now, in the order
//! in which they came.
//!
//! The registry does no locking of its own. Whoever shares it between
//! connections keeps it behind one lock and holds that lock for the whole of
//! each operation, so that a peer is never written to while it is removed.

use crate::membership::{apply, RegistryOp};
use vstd::prelude::*;

verus! {

/// One connected peer.
pub struct Peer<H> {
    /// The identifier that the registry gave it.
    pub id: u64,
    /// Where it connected from.
    pub addr: String,
    /// What is written to in order to reach it.
    pub handle: H,
    /// Whether a write to it has failed, so that it is due for removal.
    pub failed: bool,
}

/// Why the registry refused.
#[derive(Debug, Clone, Copy, PartialEq, Eq, Structural)]
pub enum RegistryError {
    /// Every identifier has been given out.
    Exhausted,
}

/// What came of writing a message to one peer.
#[derive(Debug, Clone, Copy, PartialEq, Eq, Structural)]
pub struct Delivery {
    pub id: u64,
    pub delivered: bool,
}

/// The connected peers. Identifiers start at 1, grow by one with each
/// registration and are never given out twice.
pub struct PeerRegistry<H> {
    peers: Vec<Peer<H>>,
    next_id: u64,
}

/// The identifiers of those among `peers` that a broadcast reaches: all but
/// `except`, in order.
pub open spec fn targets<H>(peers: Seq<Peer<H>>, except: Option<u64>) -> Seq<u64>
    decreases peers.len(),
{
    if peers.len() == 0 {
        Seq::empty()
    } else if except == Some(peers.last().id) {
        targets(peers.drop_last(), except)
    } else {
        targets(peers.drop_last(), except).push(peers.last().id)
    }
}

/// Those among `peers` to which a write has failed, in order.
pub open spec fn marked<H>(peers: Seq<Peer<H>>) -> Seq<Peer<H>>
    decreases peers.len(),
{
    if peers.len() == 0 {
        Seq::empty()
    } else if peers[0].failed {
        seq![peers[0]] + marked(peers.skip(1))
    } else {
        marked(peers.skip(1))
    }
}

/// Those among `peers` to which no write has failed, in order.
pub open spec fn unmarked<H>(peers: Seq<Peer<H>>) -> Seq<Peer<H>>
    decreases peers.len(),
{
    if peers.len() == 0 {
        Seq::empty()
    } else if peers[0].failed {
        unmarked(peers.skip(1))
    } else {
        seq![peers[0]] + unmarked(peers.skip(1))
    }
}

/// The identifiers of `peers`, as a set.
pub open spec fn id_set<H>(peers: Seq<Peer<H>>) -> Set<u64> {
    Set::new(|id: u64| exists|i: int| 0 <= i < peers.len() && #[trigger] peers[i].id == id)
}

/// Whether the identifiers of `peers` grow strictly, and stay below `bound`.
pub open spec fn ordered_below<H>(peers: Seq<Peer<H>>, bound: u64) -> bool {
    &&& forall|i: int, j: int|
        0 <= i < j < peers.len() ==> (#[trigger] peers[i]).id < (#[trigger] peers[j]).id
    &&& forall|i: int| 0 <= i < peers.len() ==> 1 <= (#[trigger] peers[i]).id < bound
}

/// What a broadcast of `message` leaves of the peer at place `at`, and what
/// it reports of it.
///
/// The peer `after` is the one that stood there `before`, with the same
/// handle. Where it is not the one left out, `send` was called on it, the
/// call's result stands in `outcomes` at the place of the peer among those
/// written to, and the peer is marked if that write failed.
pub open spec fn written<H, F: Fn(&H, &[u8]) -> bool>(
    before: Seq<Peer<H>>,
    after: Peer<H>,
    at: int,
    except: Option<u64>,
    message: &[u8],
    send: F,
    outcomes: Seq<Delivery>,
) -> bool {
    let peer = before[at];
    let place = targets(before.take(at), except).len() as int;
    &&& after.id == peer.id
    &&& after.addr == peer.addr
    &&& after.handle == peer.handle
    &&& if except == Some(peer.id) {
        after.failed == peer.failed
    } else {
        &&& place < outcomes.len()
        &&& outcomes[place].id == peer.id
        &&& call_ensures(send, (&peer.handle, message), outcomes[place].delivered)
        &&& after.failed == (peer.failed || !outcomes[place].delivered)
    }
}

impl<H> PeerRegistry<H> {
    /// The registered peers, in the order of their registration.
    pub closed spec fn peers(&self) -> Seq<Peer<H>> {
        self.peers@
    }

    /// The identifier that the next registration gives out.
    pub closed spec fn next_id(&self) -> u64 {
        self.next_id
    }

    /// What holds of every registry: identifiers grow along the order of
    /// registration, so none occurs twice, and all are below the next one.
    pub open spec fn wf(&self) -> bool {
        self.next_id() >= 1 && ordered_below(self.peers(), self.next_id())
    }

    /// The identifiers of the registered peers.
    pub open spec fn live(&self) -> Set<u64> {
        id_set(self.peers())
    }

    /// Whether a peer with this identifier is registered.
    pub open spec fn has(&self, id: u64) -> bool {
        exists|i: int| 0 <= i < self.peers().len() && #[trigger] self.peers()[i].id == id
    }

    /// The place of the peer with this identifier among the registered
    /// peers.
    pub open spec fn slot(&self, id: u64) -> int {
        choose|i: int| 0 <= i < self.peers().len() && #[trigger] self.peers()[i].id == id
    }

    /// An empty registry.
    pub fn new() -> (registry: Self)
        ensures
            registry.wf(),
            registry.peers() == Seq::<Peer<H>>::empty(),
            registry.next_id() == 1,
    {
        PeerRegistry { peers: Vec::new(), next_id: 1 }
    }

    /// An empty registry whose first peer will be `first_id`, or 1 where
    /// that is 0.
    pub fn starting_at(first_id: u64) -> (registry: Self)
        ensures
            registry.wf(),
            registry.peers() == Seq::<Peer<H>>::empty(),
            registry.next_id() == if first_id == 0 {
                1
            } else {
                first_id
            },
    {
        let next_id: u64 = if first_id == 0 {
            1
        } else {
            first_id
        };
        PeerRegistry { peers: Vec::new(), next_id }
    }

    /// The number of registered peers.
    pub fn len(&self) -> (n: usize)
        ensures
            n == self.peers().len(),
    {
        self.peers.len()
    }

    /// Whether no peer is registered.
    pub fn is_empty(&self) -> (empty: bool)
        ensures
            empty == (self.peers().len() == 0),
    {
        self.peers.len() == 0
    }

    fn find(&self, id: u64) -> (at: Option<usize>)
        requires
            self.wf(),
        ensures
            match at {
                Some(i) => i < self.peers().len() && self.peers()[i as int].id == id && self.has(
                    id,
                ) && self.slot(id) == i,
                None => !self.has(id),
            },
    {
        let mut i: usize = 0;
        while i < self.peers.len()
            invariant
                self.wf(),
                i <= self.peers@.len(),
                forall|k: int| 0 <= k < i ==> (#[trigger] self.peers@[k]).id != id,
            decreases self.peers@.len() - i,
        {
            if self.peers[i].id == id {
                proof {
                    let peers = self.peers();
                    assert(peers[i as int].id == id);
                    let s = self.slot(id);
                    if s < i {
                        assert(peers[s].id < peers[i as int].id);
                    } else if i < s {
                        assert(peers[i as int].id < peers[s].id);
                    }
                }
                return Some(i);
            }
            i += 1;
        }
        None
    }

    /// Tells whether a peer with this identifier is registered.
    pub fn contains(&self, id: u64) -> (yes: bool)
        requires
            self.wf(),
        ensures
            yes == self.has(id),
    {
        self.find(id).is_some()
    }

    /// The peer with this identifier, if it is registered.
    pub fn get(&self, id: u64) -> (peer: Option<&Peer<H>>)
        requires
            self.wf(),
        ensures
            match peer {
                Some(p) => self.has(id) && *p == self.peers()[self.slot(id)],
                None => !self.has(id),
            },
    {
        match self.find(id) {
            Some(i) => Some(&self.peers[i]),
            None => None,
        }
    }

    /// The identifiers of the registered peers, in the order of their
    /// registration.
    pub fn ids(&self) -> (ids: Vec<u64>)
        ensures
            ids@.len() == self.peers().len(),
            forall|i: int| 0 <= i < ids@.len() ==> #[trigger] ids@[i] == self.peers()[i].id,
    {
        let mut ids: Vec<u64> = Vec::new();
        let mut i: usize = 0;
        while i < self.peers.len()
            invariant
                i <= self.peers@.len(),
                ids@.len() == i,
                forall|k: int| 0 <= k < i ==> #[trigger] ids@[k] == self.peers@[k].id,
            decreases self.peers@.len() - i,
        {
            ids.push(self.peers[i].id);
            i += 1;
        }
        ids
    }

    /// Registers a peer under the next identifier and gives that identifier
    /// back: the handle by which the peer is removed later.
    ///
    /// Fails, and leaves the registry as it was, only when every identifier
    /// has been given out.
    pub fn register(&mut self, addr: String, handle: H) -> (issued: Result<u64, RegistryError>)
        requires
            old(self).wf(),
        ensures
            final(self).wf(),
            (final(self).live(), final(self).next_id()) == apply(
                old(self).live(),
                old(self).next_id(),
                RegistryOp::Register,
            ),
            match issued {
                Ok(id) => {
                    &&& id == old(self).next_id()
                    &&& id < u64::MAX
                    &&& final(self).next_id() == id + 1
                    &&& final(self).peers() == old(self).peers().push(
                        (Peer { id, addr, handle, failed: false }),
                    )
                    &&& final(self).live() == old(self).live().insert(id)
                },
                Err(_) => {
                    &&& old(self).next_id() == u64::MAX
                    &&& final(self).next_id() == old(self).next_id()
                    &&& final(self).peers() == old(self).peers()
                },
            },
    {
        let id: u64 = self.next_id;
        if id == u64::MAX {
            return Err(RegistryError::Exhausted);
        }
        self.next_id = id + 1;
        self.peers.push(Peer { id, addr, handle, failed: false });
        proof {
            let before = old(self).peers();
            let after = self.peers();
            assert forall|x: u64|
                id_set(after).contains(x) <==> id_set(before).insert(id).contains(x) by {
                if id_set(after).contains(x) {
                    let i = choose|i: int| 0 <= i < after.len() && #[trigger] after[i].id == x;
                    if i < before.len() {
                        assert(before[i].id == x);
                    }
                }
                if id_set(before).contains(x) {
                    let i = choose|i: int| 0 <= i < before.len() && #[trigger] before[i].id == x;
                    assert(after[i].id == x);
                }
                if x == id {
                    assert(after[before.len() as int].id == x);
                }
            }
        }
        Ok(id)
    }

    /// Removes the peer with this identifier and gives it back. Where no such
    /// peer is registered, as after an earlier removal, nothing changes.
    pub fn unregister(&mut self, id: u64) -> (removed: Option<Peer<H>>)
        requires
            old(self).wf(),
        ensures
            final(self).wf(),
            final(self).next_id() == old(self).next_id(),
            final(self).live() == old(self).live().remove(id),
            (final(self).live(), final(self).next_id()) == apply(
                old(self).live(),
                old(self).next_id(),
                RegistryOp::Unregister(id),
            ),
            !final(self).has(id),
            match removed {
                Some(peer) => {
                    &&& old(self).has(id)
                    &&& peer == old(self).peers()[old(self).slot(id)]
                    &&& final(self).peers() == old(self).peers().remove(old(self).slot(id))
                },
                None => !old(self).has(id) && final(self).peers() == old(self).peers(),
            },
    {
        match self.find(id) {
            Some(i) => {
                let peer = self.peers.remove(i);
                proof {
                    lemma_remove_keeps_order(old(self).peers(), i as int, self.next_id);
                }
                Some(peer)
            },
            None => None,
        }
    }

    /// Writes `message` to every registered peer but `except`, in the order
    /// of registration, by one call of `send` for each.
    ///
    /// A write that fails does not end the broadcast: the peer is marked for
    /// removal and the remaining peers are still written to. The outcome of
    /// each write is given back, in the same order.
    pub fn broadcast<F: Fn(&H, &[u8]) -> bool>(
        &mut self,
        except: Option<u64>,
        message: &[u8],
        send: F,
    ) -> (outcomes: Vec<Delivery>)
        requires
            old(self).wf(),
            forall|i: int|
                0 <= i < old(self).peers().len() ==> call_requires(
                    send,
                    (&(#[trigger] old(self).peers()[i]).handle, message),
                ),
        ensures
            final(self).wf(),
            final(self).next_id() == old(self).next_id(),
            final(self).peers().len() == old(self).peers().len(),
            outcomes@.len() == targets(old(self).peers(), except).len(),
            forall|j: int|
                0 <= j < outcomes@.len() ==> (#[trigger] outcomes@[j]).id == targets(
                    old(self).peers(),
                    except,
                )[j],
            forall|i: int|
                0 <= i < old(self).peers().len() ==> written(
                    old(self).peers(),
                    #[trigger] final(self).peers()[i],
                    i,
                    except,
                    message,
                    send,
                    outcomes@,
                ),
    {
        let ghost before = self.peers();
        let mut outcomes: Vec<Delivery> = Vec::new();
        let mut i: usize = 0;
        while i < self.peers.len()
            invariant
                before == old(self).peers(),
                ordered_below(before, self.next_id),
                self.next_id == old(self).next_id(),
                self.next_id >= 1,
                i <= self.peers@.len() == before.len(),
                forall|k: int|
                    0 <= k < before.len() ==> call_requires(
                        send,
                        (&(#[trigger] before[k]).handle, message),
                    ),
                forall|k: int| i <= k < before.len() ==> #[trigger] self.peers@[k] == before[k],
                outcomes@.len() == targets(before.take(i as int), except).len(),
                forall|j: int|
                    0 <= j < outcomes@.len() ==> (#[trigger] outcomes@[j]).id == targets(
                        before.take(i as int),
                        except,
                    )[j],
                forall|k: int|
                    0 <= k < i ==> written(
                        before,
                        #[trigger] self.peers@[k],
                        k,
                        except,
                        message,
                        send,
                        outcomes@,
                    ),
                forall|k: int|
                    0 <= k < before.len() ==> (#[trigger] self.peers@[k]).id == before[k].id,
            decreases before.len() - i,
        {
            let ghost done = outcomes@;
            let ghost current = self.peers@;
            let peer_id: u64 = self.peers[i].id;
            let skipped = match except {
                Some(e) => e == peer_id,
                None => false,
            };
            proof {
                assert(before.take(i + 1).drop_last() =~= before.take(i as int));
                assert(before.take(i + 1).last() == before[i as int]);
                assert(self.peers@[i as int] == before[i as int]);
            }
            if !skipped {
                let delivered = send(&self.peers[i].handle, message);
                if !delivered {
                    self.peers[i].failed = true;
                }
                outcomes.push(Delivery { id: peer_id, delivered });
            }
            proof {
                assert forall|k: int| 0 <= k < i implies written(
                    before,
                    #[trigger] self.peers@[k],
                    k,
                    except,
                    message,
                    send,
                    outcomes@,
                ) by {
                    let j = targets(before.take(k), except).len() as int;
                    assert(self.peers@[k] == current[k]);
                    assert(written(before, current[k], k, except, message, send, done));
                    if except != Some(before[k].id) {
                        assert(outcomes@[j] == done[j]);
                    }
                }
            }
            i += 1;
        }
        proof {
            assert(before.take(before.len() as int) =~= before);
        }
        outcomes
    }

    /// Removes the peers to which a write has failed, and gives them back.
    pub fn remove_failed(&mut self) -> (removed: Vec<Peer<H>>)
        requires
            old(self).wf(),
        ensures
            final(self).wf(),
            final(self).next_id() == old(self).next_id(),
            final(self).peers() == unmarked(old(self).peers()),
            removed@ == marked(old(self).peers()),
    {
        let ghost before = self.peers();
        let mut removed: Vec<Peer<H>> = Vec::new();
        let mut i: usize = 0;
        assert(self.peers@.take(0) + unmarked(self.peers@.skip(0)) =~= unmarked(before)) by {
            assert(self.peers@.skip(0) =~= before);
        }
        assert(removed@ + marked(self.peers@.skip(0)) =~= marked(before)) by {
            assert(self.peers@.skip(0) =~= before);
        }
        while i < self.peers.len()
            invariant
                i <= self.peers@.len(),
                self.next_id == old(self).next_id(),
                self.next_id >= 1,
                ordered_below(self.peers@, self.next_id),
                unmarked(before) == self.peers@.take(i as int) + unmarked(
                    self.peers@.skip(i as int),
                ),
                marked(before) == removed@ + marked(self.peers@.skip(i as int)),
            decreases self.peers@.len() - i,
        {
            let ghost current = self.peers@;
            let ghost tail = current.skip(i as int);
            assert(tail[0] == current[i as int]);
            assert(tail.skip(1) =~= current.skip(i + 1));
            if self.peers[i].failed {
                let peer = self.peers.remove(i);
                proof {
                    lemma_remove_keeps_order(current, i as int, self.next_id);
                    assert(self.peers@.skip(i as int) =~= current.skip(i + 1));
                    assert(removed@.push(peer) + marked(current.skip(i + 1)) =~= removed@ + (
                    seq![peer] + marked(current.skip(i + 1))));
                }
                removed.push(peer);
            } else {
                proof {
                    assert(current.take(i + 1) + unmarked(current.skip(i + 1)) =~= current.take(
                        i as int,
                    ) + (seq![current[i as int]] + unmarked(current.skip(i + 1))));
                }
                i += 1;
            }
        }
        proof {
            assert(self.peers@.skip(i as int) =~= Seq::<Peer<H>>::empty());
        }
        removed
    }
}

/// A broadcast reaches every registered peer but the one left out: all of
/// them where none is left out, and all but one where the one left out is
/// registered. Whether a write fails has no part in who is written to.
pub proof fn lemma_broadcast_reaches_all_others<H>(
    peers: Seq<Peer<H>>,
    bound: u64,
    except: Option<u64>,
)
    requires
        ordered_below(peers, bound),
    ensures
        forall|i: int|
            0 <= i < peers.len() && except != Some((#[trigger] peers[i]).id) ==> targets(
                peers,
                except,
            ).contains(peers[i].id),
        forall|j: int|
            0 <= j < targets(peers, except).len() ==> except != Some(
                #[trigger] targets(peers, except)[j],
            ) && id_set(peers).contains(targets(peers, except)[j]),
        except is None ==> targets(peers, except).len() == peers.len(),
        except matches Some(id) ==> targets(peers, except).len() == if id_set(peers).contains(
            id,
        ) {
            peers.len() - 1
        } else {
            peers.len() as int
        },
    decreases peers.len(),
{
    if peers.len() > 0 {
        let front = peers.drop_last();
        let last = peers.last();
        lemma_broadcast_reaches_all_others(front, bound, except);
        let reached = targets(peers, except);
        assert forall|i: int|
            0 <= i < peers.len() && except != Some((#[trigger] peers[i]).id) implies reached.contains(
            peers[i].id,
        ) by {
            if i < front.len() {
                assert(front[i] == peers[i]);
                let j = choose|j: int|
                    0 <= j < targets(front, except).len() && targets(front, except)[j]
                        == front[i].id;
                assert(reached[j] == peers[i].id);
            } else {
                assert(reached[reached.len() - 1] == peers[i].id);
            }
        }
        assert forall|j: int| 0 <= j < reached.len() implies except != Some(#[trigger] reached[j])
            && id_set(peers).contains(reached[j]) by {
            if j < targets(front, except).len() {
                let id = targets(front, except)[j];
                assert(reached[j] == id);
                let i = choose|i: int| 0 <= i < front.len() && #[trigger] front[i].id == id;
                assert(peers[i].id == id);
            } else {
                assert(peers[peers.len() - 1].id == reached[j]);
            }
        }
        if let Some(id) = except {
            if id_set(front).contains(id) {
                let i = choose|i: int| 0 <= i < front.len() && #[trigger] front[i].id == id;
                assert(peers[i].id == id);
                assert(peers[i].id < peers[peers.len() - 1].id);
            }
            if id_set(peers).contains(id) && !id_set(front).contains(id) {
                let i = choose|i: int| 0 <= i < peers.len() && #[trigger] peers[i].id == id;
                if i < front.len() {
                    assert(front[i].id == id);
                }
            }
            if last.id == id {
                assert(peers[peers.len() - 1].id == id);
            }
        }
    }
}

/// Taking one peer out leaves the others in order, and takes its identifier
/// out of the set.
proof fn lemma_remove_keeps_order<H>(peers: Seq<Peer<H>>, at: int, bound: u64)
    requires
        ordered_below(peers, bound),
        0 <= at < peers.len(),
    ensures
        ordered_below(peers.remove(at), bound),
        id_set(peers.remove(at)) == id_set(peers).remove(peers[at].id),
        forall|i: int| 0 <= i < peers.remove(at).len() ==> (#[trigger] peers.remove(at)[i]).id
            != peers[at].id,
{
    let rest = peers.remove(at);
    let gone = peers[at].id;
    assert forall|i: int| 0 <= i < rest.len() implies (#[trigger] rest[i]).id != gone && 1
        <= rest[i].id < bound by {
        if i < at {
            assert(rest[i] == peers[i]);
        } else {
            assert(rest[i] == peers[i + 1]);
        }
    }
    assert forall|i: int, j: int| 0 <= i < j < rest.len() implies (#[trigger] rest[i]).id < (
    #[trigger] rest[j]).id by {
        let pi = if i < at { i } else { i + 1 };
        let pj = if j < at { j } else { j + 1 };
        assert(rest[i] == peers[pi] && rest[j] == peers[pj]);
    }
    assert forall|x: u64| id_set(rest).contains(x) <==> id_set(peers).remove(gone).contains(
        x,
    ) by {
        if id_set(rest).contains(x) {
            let i = choose|i: int| 0 <= i < rest.len() && #[trigger] rest[i].id == x;
            let pi = if i < at { i } else { i + 1 };
            assert(peers[pi].id == x);
        }
        if id_set(peers).remove(gone).contains(x) {
            let i = choose|i: int| 0 <= i < peers.len() && #[trigger] peers[i].id == x;
            let ri = if i < at { i } else { i - 1 };
            assert(rest[ri].id == x);
        }
    }
}

} // verus!
