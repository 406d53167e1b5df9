//! Convergence laws of the document model.
//!
//! These lemmas state, over the operation-set model of [`crate::doc`], the
//! guarantees the sync protocol exists to provide: order-independence of
//! update application, idempotence, handshake completeness, and snapshot
//! round-trips.

use vstd::prelude::*;

use crate::doc::{elements_of, sv_ops, update_ops};

verus! {

/// The operations carried by a sequence of update blobs, taken together.
pub open spec fn seq_ops(us: Seq<Seq<u8>>) -> Set<int>
    decreases us.len(),
{
    if us.len() == 0 {
        Set::empty()
    } else {
        seq_ops(us.drop_last()).union(update_ops(us.last()))
    }
}

/// The operation set a document reaches after applying the blobs of `us` in
/// order, starting from `ops0` — each application being a union, per the
/// contract of `Document::apply_v1`.
pub open spec fn apply_all(ops0: Set<int>, us: Seq<Seq<u8>>) -> Set<int>
    decreases us.len(),
{
    if us.len() == 0 {
        ops0
    } else {
        apply_all(ops0, us.drop_last()).union(update_ops(us.last()))
    }
}

/// Applying a sequence of updates one by one lands on the plain union of
/// their operations: the order of arrival cannot matter.
pub proof fn lemma_apply_all_is_union(ops0: Set<int>, us: Seq<Seq<u8>>)
    ensures
        apply_all(ops0, us) == ops0.union(seq_ops(us)),
    decreases us.len(),
{
    if us.len() == 0 {
        assert(apply_all(ops0, us) =~= ops0.union(seq_ops(us)));
    } else {
        lemma_apply_all_is_union(ops0, us.drop_last());
        assert(apply_all(ops0, us) =~= ops0.union(seq_ops(us)));
    }
}

/// Convergence: two documents that end up having received the same
/// operations — whatever frames carried them, interleaved however — hold
/// the same operation set and therefore the same `elements` map.
pub proof fn lemma_convergence(a0: Set<int>, b0: Set<int>, us_a: Seq<Seq<u8>>, us_b: Seq<Seq<u8>>)
    ensures
        a0.union(seq_ops(us_a)) == b0.union(seq_ops(us_b)) ==> apply_all(a0, us_a) == apply_all(
            b0,
            us_b,
        ) && elements_of(apply_all(a0, us_a)) == elements_of(apply_all(b0, us_b)),
{
    lemma_apply_all_is_union(a0, us_a);
    lemma_apply_all_is_union(b0, us_b);
}

/// Two peers that exchange full diffs both land on the union of their
/// operation sets, which is the same set on both sides.
pub proof fn lemma_mutual_exchange(a: Set<int>, b: Set<int>)
    ensures
        a.union(b.difference(a)) == a.union(b),
        b.union(a.difference(b)) == b.union(a),
        a.union(b) == b.union(a),
        elements_of(a.union(b.difference(a))) == elements_of(b.union(a.difference(b))),
{
    assert(a.union(b.difference(a)) =~= a.union(b));
    assert(b.union(a.difference(b)) =~= b.union(a));
    assert(a.union(b) =~= b.union(a));
}

/// Full resynchronization: a lagging peer that asks a settled, farther-
/// ahead document for a diff — its state vector covering only operations
/// it already holds — lands exactly on that document's operation set, and
/// so on its `elements` map.
pub proof fn lemma_resync(d_ops: Set<int>, e_ops: Set<int>, sv_cover: Set<int>, u: Seq<u8>)
    ensures
        e_ops.subset_of(d_ops) && sv_cover.subset_of(e_ops) && update_ops(u)
            == d_ops.difference(sv_cover) ==> e_ops.union(update_ops(u)) == d_ops
            && elements_of(e_ops.union(update_ops(u))) == elements_of(d_ops),
{
    if e_ops.subset_of(d_ops) && sv_cover.subset_of(e_ops) && update_ops(u)
        == d_ops.difference(sv_cover) {
        assert(e_ops.union(d_ops.difference(sv_cover)) =~= d_ops);
    }
}

/// Idempotent apply: once a document's operations include an update's, any
/// further application of that update — completed or refused partway —
/// leaves the operation set exactly where it was.
pub proof fn lemma_idempotent_apply(ops: Set<int>, u: Seq<u8>, after: Set<int>)
    ensures
        update_ops(u).subset_of(ops) && ops.subset_of(after) && after.subset_of(
            ops.union(update_ops(u)),
        ) ==> after == ops && elements_of(after) == elements_of(ops),
{
    if update_ops(u).subset_of(ops) && ops.subset_of(after) && after.subset_of(
        ops.union(update_ops(u)),
    ) {
        assert(after =~= ops);
    }
}

/// Handshake completeness: a diff computed by a settled document against an
/// empty peer's state vector carries the whole document, and the peer that
/// applies it reaches the very same operation set and `elements` map.
pub proof fn lemma_handshake_completeness(d_ops: Set<int>, sv: Seq<u8>, u: Seq<u8>)
    ensures
        sv_ops(sv) == Set::<int>::empty() && update_ops(u) == d_ops.difference(sv_ops(sv))
            ==> Set::<int>::empty().union(update_ops(u)) == d_ops && elements_of(
            Set::<int>::empty().union(update_ops(u)),
        ) == elements_of(d_ops),
{
    if sv_ops(sv) == Set::<int>::empty() && update_ops(u) == d_ops.difference(sv_ops(sv)) {
        assert(d_ops.difference(sv_ops(sv)) =~= d_ops);
        assert(Set::<int>::empty().union(update_ops(u)) =~= d_ops);
    }
}

/// Snapshot round-trip: loading a snapshot that carries a document's whole
/// operation set into a fresh document reproduces the operation set and so
/// the `elements` entries.
pub proof fn lemma_snapshot_roundtrip(d_ops: Set<int>, snap: Seq<u8>)
    ensures
        update_ops(snap) == d_ops ==> Set::<int>::empty().union(update_ops(snap)) == d_ops
            && elements_of(Set::<int>::empty().union(update_ops(snap))) == elements_of(d_ops),
{
    if update_ops(snap) == d_ops {
        assert(Set::<int>::empty().union(update_ops(snap)) =~= d_ops);
    }
}

} // verus!
