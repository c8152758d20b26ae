//! Who is registered after a run of registrations and removals: exactly the
//! peers that were registered and not removed since, in whatever order the
//! operations came.

use vstd::prelude::*;

verus! {

/// One operation on the set of registered peers.
pub enum RegistryOp {
    /// A peer is registered, under the next identifier.
    Register,
    /// The peer with this identifier is removed, if it is there.
    Unregister(u64),
}

/// The registered identifiers and the next identifier to give out, after
/// `op` on a registry that held `live` and would give out `next_id`.
pub open spec fn apply(live: Set<u64>, next_id: u64, op: RegistryOp) -> (Set<u64>, u64) {
    match op {
        RegistryOp::Register => if next_id < u64::MAX {
            (live.insert(next_id), (next_id + 1) as u64)
        } else {
            (live, next_id)
        },
        RegistryOp::Unregister(id) => (live.remove(id), next_id),
    }
}

/// The registered identifiers and the next identifier to give out, after
/// `ops` in turn on an empty registry.
pub open spec fn run(ops: Seq<RegistryOp>) -> (Set<u64>, u64)
    decreases ops.len(),
{
    if ops.len() == 0 {
        (Set::empty(), 1)
    } else {
        let (live, next_id) = run(ops.drop_last());
        apply(live, next_id, ops.last())
    }
}

/// How many of `ops` are registrations.
pub open spec fn registrations(ops: Seq<RegistryOp>) -> nat
    decreases ops.len(),
{
    if ops.len() == 0 {
        0
    } else if ops.last() is Register {
        registrations(ops.drop_last()) + 1
    } else {
        registrations(ops.drop_last())
    }
}

/// The identifiers that the registrations among `ops` give out.
pub open spec fn registered(ops: Seq<RegistryOp>) -> Set<u64> {
    Set::new(|id: u64| 1 <= id <= registrations(ops))
}

/// The identifiers that the removals among `ops` name.
pub open spec fn unregistered(ops: Seq<RegistryOp>) -> Set<u64> {
    Set::new(|id: u64| exists|i: int| 0 <= i < ops.len() && #[trigger] ops[i] == RegistryOp::Unregister(id))
}

/// Whether every removal among `ops` names an identifier that an earlier
/// registration gave out: a peer is removed by the handle it was given.
pub open spec fn removes_what_was_registered(ops: Seq<RegistryOp>) -> bool {
    forall|i: int|
        0 <= i < ops.len() ==> (#[trigger] ops[i] matches RegistryOp::Unregister(id) ==> 1 <= id
            <= registrations(ops.take(i)))
}

proof fn lemma_registrations_grow(ops: Seq<RegistryOp>, k: int)
    requires
        0 <= k <= ops.len(),
    ensures
        registrations(ops.take(k)) <= registrations(ops),
    decreases ops.len() - k,
{
    if k == ops.len() {
        assert(ops.take(k) =~= ops);
    } else {
        assert(ops.drop_last().take(k) =~= ops.take(k));
        lemma_registrations_grow(ops.drop_last(), k);
    }
}

/// After any run of registrations and removals, the registered peers are
/// those that were registered and not removed, and nothing else of the run
/// matters: not the order of the operations, nor how often a peer was
/// removed.
pub proof fn lemma_registered_and_not_removed(ops: Seq<RegistryOp>)
    requires
        removes_what_was_registered(ops),
        registrations(ops) < u64::MAX,
    ensures
        run(ops).0 == registered(ops).difference(unregistered(ops)),
        run(ops).1 == registrations(ops) + 1,
    decreases ops.len(),
{
    if ops.len() == 0 {
        assert(run(ops).0 =~= registered(ops).difference(unregistered(ops)));
    } else {
        let front = ops.drop_last();
        let op = ops.last();
        assert forall|i: int| 0 <= i < front.len() implies (#[trigger] front[i] matches RegistryOp::Unregister(
            id,
        ) ==> 1 <= id <= registrations(front.take(i))) by {
            assert(front[i] == ops[i]);
            assert(front.take(i) =~= ops.take(i));
        }
        lemma_registered_and_not_removed(front);
        let n = registrations(front);
        assert forall|id: u64| unregistered(front).contains(id) implies unregistered(ops).contains(
            id,
        ) by {
            let i = choose|i: int|
                0 <= i < front.len() && #[trigger] front[i] == RegistryOp::Unregister(id);
            assert(ops[i] == RegistryOp::Unregister(id));
        }
        match op {
            RegistryOp::Register => {
                let fresh = (n + 1) as u64;
                assert forall|id: u64| unregistered(ops).contains(id) implies
                    unregistered(front).contains(id) && id != fresh by {
                    let i = choose|i: int|
                        0 <= i < ops.len() && #[trigger] ops[i] == RegistryOp::Unregister(id);
                    assert(i < front.len());
                    assert(front[i] == RegistryOp::Unregister(id));
                    lemma_registrations_grow(front, i);
                }
            },
            RegistryOp::Unregister(gone) => {
                assert(ops[ops.len() - 1] == RegistryOp::Unregister(gone));
                assert forall|id: u64| unregistered(ops).contains(id) implies
                    unregistered(front).contains(id) || id == gone by {
                    let i = choose|i: int|
                        0 <= i < ops.len() && #[trigger] ops[i] == RegistryOp::Unregister(id);
                    if i < front.len() {
                        assert(front[i] == RegistryOp::Unregister(id));
                    }
                }
            },
        }
    }
}

/// Two runs that register as many peers and remove the same ones leave the
/// same peers registered, however their operations are interleaved.
pub proof fn lemma_order_is_immaterial(first: Seq<RegistryOp>, second: Seq<RegistryOp>)
    requires
        removes_what_was_registered(first),
        removes_what_was_registered(second),
        registrations(first) == registrations(second),
        registrations(first) < u64::MAX,
        unregistered(first) == unregistered(second),
    ensures
        run(first) == run(second),
{
    lemma_registered_and_not_removed(first);
    lemma_registered_and_not_removed(second);
}

} // verus!
