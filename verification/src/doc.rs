//! The shared CRDT document and its mathematical model.
//!
//! A document's state is modelled as the set of CRDT operations it has
//! received, each operation standing for an abstract identifier.  Merging is
//! set union: applying the same operations twice, or in another order, yields
//! the same set.  Everything a client observes — the `elements` map, state
//! vectors, diffs — is a function of that set.  The model rests on the
//! documented semantics of the `yrs` CRDT library, stated as contracts on the
//! trusted wrappers below; the rest of the crate is proved against those
//! contracts alone.

use vstd::prelude::*;
use yrs::updates::decoder::Decode as _;
use yrs::updates::encoder::Encode as _;
use yrs::Map as _;
use yrs::ReadTxn as _;
use yrs::Transact as _;

verus! {

#[verifier::external_type_specification]
#[verifier::external_body]
pub struct ExDoc(yrs::Doc);

/// The set of CRDT operations a document has received, integrated or still
/// awaiting a missing causal dependency.
pub uninterp spec fn doc_ops(d: yrs::Doc) -> Set<int>;

/// True when every received operation has been integrated: nothing is parked
/// waiting for a dependency.  Fresh documents are settled, and they stay so
/// as long as every applied update's dependencies were already present.
pub uninterp spec fn doc_settled(d: yrs::Doc) -> bool;

/// Whether a byte blob decodes as a version-1 update.
pub uninterp spec fn update_wf(u: Seq<u8>) -> bool;

/// The operations carried by an update blob.
pub uninterp spec fn update_ops(u: Seq<u8>) -> Set<int>;

/// The operations an update blob depends on but does not carry: a receiver
/// lacking any of them parks part of the update instead of integrating it.
pub uninterp spec fn update_deps(u: Seq<u8>) -> Set<int>;

/// Whether a byte blob decodes as a version-1 state vector.
pub uninterp spec fn sv_wf(s: Seq<u8>) -> bool;

/// The insertion operations a state vector declares its sender to hold.
/// Deletions advance no clock, so they are never declared.
pub uninterp spec fn sv_ops(s: Seq<u8>) -> Set<int>;

/// The `elements` map — element id to element JSON text — determined by a
/// settled document's operation set.
pub uninterp spec fn elements_of(ops: Set<int>) -> Map<Seq<char>, Seq<char>>;

/// Why a codec operation was refused.
#[derive(Clone, Copy, Debug, PartialEq, Eq, Structural)]
pub enum CodecError {
    /// A frame too short or with a malformed length or tag field.
    MalformedFrame,
    /// A state-vector payload that does not decode.
    MalformedStateVector,
    /// An update payload that does not decode or cannot be merged.
    MalformedUpdate,
}

/// A board's shared document.
pub struct Document {
    pub inner: yrs::Doc,
}

/// The empty `elements` map.
pub open spec fn no_elements() -> Map<Seq<char>, Seq<char>> {
    Map::empty()
}

/// The map each `(id, json)` pair sequence denotes, later pairs winning.
pub open spec fn pairs_to_map(s: Seq<(String, String)>) -> Map<Seq<char>, Seq<char>>
    decreases s.len(),
{
    if s.len() == 0 {
        Map::empty()
    } else {
        pairs_to_map(s.drop_last()).insert(s.last().0@, s.last().1@)
    }
}

impl Document {
    /// The document's operation set.
    pub open spec fn ops(self) -> Set<int> {
        doc_ops(self.inner)
    }

    /// The document's `elements` map under the settled interpretation.
    pub open spec fn elems(self) -> Map<Seq<char>, Seq<char>> {
        elements_of(doc_ops(self.inner))
    }

    /// Whether all received operations are integrated.
    pub open spec fn settled(self) -> bool {
        doc_settled(self.inner)
    }

    /// Relies on `yrs::Doc::new`: a fresh document holds no operations and
    /// its `elements` map is empty.
    #[verifier::external_body]
    pub fn new() -> (d: Document)
        ensures
            doc_ops(d.inner) == Set::<int>::empty(),
            doc_settled(d.inner),
            elements_of(doc_ops(d.inner)) == no_elements(),
    {
        Document { inner: yrs::Doc::new() }
    }

    /// Relies on `ReadTxn::state_vector` and `StateVector::encode_v1`: the
    /// encoded vector covers only operations the document holds.  No more
    /// can be said: a state vector is built from insertion clocks alone, and
    /// a deletion advances no clock, so two documents with different
    /// operation sets can encode the same vector.
    #[verifier::external_body]
    pub fn state_vector(&self) -> (r: Vec<u8>)
        ensures
            sv_wf(r@),
            sv_ops(r@).subset_of(self.ops()),
    {
        let txn = self.inner.transact();
        txn.state_vector().encode_v1()
    }

    /// Relies on `StateVector::decode_v1` and `ReadTxn::encode_diff_v1`: the
    /// diff carries the document's integrated operations not covered by the
    /// remote state vector, and depends on nothing outside that vector.
    #[verifier::external_body]
    pub fn diff_v1(&self, remote_sv: &Vec<u8>) -> (r: Result<Vec<u8>, CodecError>)
        ensures
            r is Ok <==> sv_wf(remote_sv@),
            r matches Err(e) ==> e == CodecError::MalformedStateVector,
            r matches Ok(u) ==> update_wf(u@) && update_ops(u@).subset_of(self.ops())
                && update_deps(u@).subset_of(sv_ops(remote_sv@)),
            self.settled() ==> (r matches Ok(u) ==> update_ops(u@) == self.ops().difference(
                sv_ops(remote_sv@),
            )),
    {
        let sv = match yrs::StateVector::decode_v1(remote_sv.as_slice()) {
            Ok(sv) => sv,
            Err(_) => return Err(CodecError::MalformedStateVector),
        };
        let txn = self.inner.transact();
        Ok(txn.encode_diff_v1(&sv))
    }

    /// Relies on `ReadTxn::encode_state_as_update_v1` against the empty state
    /// vector: the blob carries every operation the document has received,
    /// parked ones included, and a settled document's blob is self-contained.
    #[verifier::external_body]
    pub fn encode_state_v1(&self) -> (r: Vec<u8>)
        ensures
            update_wf(r@),
            update_ops(r@) == self.ops(),
            self.settled() ==> update_deps(r@) == Set::<int>::empty(),
    {
        let txn = self.inner.transact();
        txn.encode_state_as_update_v1(&yrs::StateVector::default())
    }

    /// Relies on `Update::decode_v1` and `TransactionMut::apply_update`:
    /// applying an update adds exactly its operations — already-known ones
    /// are dropped, those missing a dependency are parked but retained — and
    /// a malformed blob leaves the document untouched.
    #[verifier::external_body]
    pub fn apply_v1(&mut self, update: &Vec<u8>) -> (r: Result<(), CodecError>)
        ensures
            r matches Err(e) ==> e == CodecError::MalformedUpdate,
            !update_wf(update@) ==> r is Err && final(self).inner == old(self).inner,
            update_wf(update@) && r is Ok ==> final(self).ops() == old(self).ops().union(
                update_ops(update@),
            ),
            update_wf(update@) && r is Ok && old(self).settled() && update_deps(
                update@,
            ).subset_of(old(self).ops()) ==> final(self).settled(),
            update_wf(update@) && r is Err ==> old(self).ops().subset_of(final(self).ops())
                && final(self).ops().subset_of(old(self).ops().union(update_ops(update@))),
    {
        let update = match yrs::Update::decode_v1(update.as_slice()) {
            Ok(u) => u,
            Err(_) => return Err(CodecError::MalformedUpdate),
        };
        let mut txn = self.inner.transact_mut();
        match txn.apply_update(update) {
            Ok(()) => Ok(()),
            Err(_) => Err(CodecError::MalformedUpdate),
        }
    }

    /// Relies on `Doc::get_or_insert_map` and `Map::insert`: upserting an
    /// element adds fresh operations and sets `elements[id]` to `json`.
    #[verifier::external_body]
    pub fn store_element(&mut self, id: &str, json: &str)
        ensures
            old(self).ops().subset_of(final(self).ops()),
            final(self).settled() == old(self).settled(),
            final(self).elems() == old(self).elems().insert(id@, json@),
    {
        let map = self.inner.get_or_insert_map("elements");
        let mut txn = self.inner.transact_mut();
        map.insert(&mut txn, id, json);
    }

    /// Relies on `Doc::get_or_insert_map` and `Map::remove`: removing an
    /// element deletes `elements[id]`; deletion is itself an operation.
    #[verifier::external_body]
    pub fn remove_element(&mut self, id: &str)
        ensures
            old(self).ops().subset_of(final(self).ops()),
            final(self).settled() == old(self).settled(),
            final(self).elems() == old(self).elems().remove(id@),
    {
        let map = self.inner.get_or_insert_map("elements");
        let mut txn = self.inner.transact_mut();
        let _ = map.remove(&mut txn, id);
    }

    /// Relies on `Map::iter`: one pair per entry of the `elements` map, in
    /// unspecified order, keeping only string-valued entries — which is all
    /// of them for documents maintained through this crate.
    #[verifier::external_body]
    pub fn get_elements(&self) -> (r: Vec<(String, String)>)
        ensures
            self.settled() ==> pairs_to_map(r@) == self.elems(),
            forall|i: int, j: int|
                0 <= i < j < r@.len() ==> r@[i].0@ != r@[j].0@,
    {
        let map = self.inner.get_or_insert_map("elements");
        let txn = self.inner.transact();
        let mut out: Vec<(String, String)> = Vec::new();
        for (k, v) in map.iter(&txn) {
            if let yrs::Out::Any(yrs::Any::String(s)) = v {
                out.push((k.to_string(), s.to_string()));
            }
        }
        out
    }
}

} // verus!
