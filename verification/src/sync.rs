//! The CRDT sync wire protocol.
//!
//! Every frame is a tag, a sub-step, and one length-prefixed payload, all
//! integers in the variable-length encoding of [`crate::varint`].  The
//! framing here is verified byte for byte; what a payload means for a
//! document is settled by the contracts in [`crate::doc`].

use vstd::prelude::*;

use crate::doc::{
    doc_ops, doc_settled, elements_of, sv_ops, sv_wf, update_deps, update_ops, update_wf,
    CodecError, Document,
};
use crate::varint::{
    read_varint, varint_enc, varint_parse, write_varint, lemma_varint_roundtrip,
    lemma_varint_enc_len, lemma_varint_parse_bounds, pow128, MAX_VARINT_LEN,
};

verus! {

/// Frame tag: sync protocol traffic.
pub const MSG_SYNC: u8 = 0;

/// Frame tag: presence payloads, fanned out without touching the document.
pub const MSG_AWARENESS: u8 = 1;

/// Sync sub-step: a state vector, inviting a diff.
pub const MSG_SYNC_STEP1: u8 = 0;

/// Sync sub-step: a diff answering a state vector.
pub const MSG_SYNC_STEP2: u8 = 1;

/// Sync sub-step: an unsolicited update.
pub const MSG_SYNC_UPDATE: u8 = 2;

/// The bytes of one sync frame: tag, sub-step, then the payload behind its
/// length.
pub open spec fn sync_frame_bytes(step: nat, payload: Seq<u8>) -> Seq<u8> {
    varint_enc(MSG_SYNC as nat) + varint_enc(step) + varint_enc(payload.len()) + payload
}

/// A length-prefixed payload read from the front of `s`; bytes after the
/// payload are ignored.
pub open spec fn buf_parse(s: Seq<u8>) -> Option<Seq<u8>> {
    match varint_parse(s, MAX_VARINT_LEN as nat) {
        None => None,
        Some(lk) => if lk.0 <= u64::MAX && lk.0 + lk.1 <= s.len() {
            Some(s.subrange(lk.1 as int, (lk.1 + lk.0) as int))
        } else {
            None
        },
    }
}

/// What an incoming frame looks like to the dispatcher.
pub enum FrameShape {
    /// No bytes at all.
    Empty,
    /// A leading tag other than `MSG_SYNC`.
    NotSync,
    /// A truncated or overlong integer or length field.
    Malformed,
    /// `SYNC/STEP1` carrying a state vector.
    Step1(Seq<u8>),
    /// `SYNC/STEP2` or `SYNC/UPDATE` carrying an update blob.
    Apply(Seq<u8>),
    /// A `SYNC` frame with an unknown sub-step.
    OtherStep,
}

/// Parse an arbitrary byte sequence as a frame.
pub open spec fn frame_shape(s: Seq<u8>) -> FrameShape {
    if s.len() == 0 {
        FrameShape::Empty
    } else {
        match varint_parse(s, MAX_VARINT_LEN as nat) {
            None => FrameShape::Malformed,
            Some(tag) => if tag.0 > u64::MAX {
                FrameShape::Malformed
            } else if tag.0 != MSG_SYNC as nat {
                FrameShape::NotSync
            } else {
                let s1 = s.subrange(tag.1 as int, s.len() as int);
                match varint_parse(s1, MAX_VARINT_LEN as nat) {
                    None => FrameShape::Malformed,
                    Some(step) => if step.0 > u64::MAX {
                        FrameShape::Malformed
                    } else if step.0 > MSG_SYNC_UPDATE as nat {
                        FrameShape::OtherStep
                    } else {
                        let s2 = s1.subrange(step.1 as int, s1.len() as int);
                        match buf_parse(s2) {
                            None => FrameShape::Malformed,
                            Some(payload) => if step.0 == MSG_SYNC_STEP1 as nat {
                                FrameShape::Step1(payload)
                            } else {
                                FrameShape::Apply(payload)
                            },
                        }
                    },
                }
            },
        }
    }
}

/// A sound `STEP2` payload for a document with operations `ops` answering
/// the state vector `sv`: a well-formed update drawn from `ops`, depending
/// on nothing outside `sv`, and — when the document was settled — exactly
/// the operations `sv` lacks.
pub open spec fn step2_payload_ok(u: Seq<u8>, ops: Set<int>, settled: bool, sv: Seq<u8>) -> bool {
    &&& update_wf(u)
    &&& update_ops(u).subset_of(ops)
    &&& update_deps(u).subset_of(sv_ops(sv))
    &&& (settled ==> update_ops(u) == ops.difference(sv_ops(sv)))
}

/// `resp` is a whole `STEP2` frame whose payload answers `sv` for `ops`.
pub open spec fn is_step2_frame(resp: Seq<u8>, ops: Set<int>, settled: bool, sv: Seq<u8>) -> bool {
    exists|u: Seq<u8>|
        resp == sync_frame_bytes(MSG_SYNC_STEP2 as nat, u) && #[trigger] step2_payload_ok(
            u,
            ops,
            settled,
            sv,
        )
}

/// Append every byte of `src` to `out`.
pub fn push_all(out: &mut Vec<u8>, src: &Vec<u8>)
    ensures
        final(out)@ == old(out)@ + src@,
{
    let mut i: usize = 0;
    while i < src.len()
        invariant
            i <= src@.len(),
            out@ == old(out)@ + src@.subrange(0, i as int),
        decreases src@.len() - i,
    {
        out.push(src[i]);
        i = i + 1;
        assert(out@ =~= old(out)@ + src@.subrange(0, i as int));
    }
    assert(final(out)@ =~= old(out)@ + src@);
}

/// Wrap `step` and `payload` into one sync frame.
fn encode_sync_frame(step: u8, payload: &Vec<u8>) -> (r: Vec<u8>)
    ensures
        r@ == sync_frame_bytes(step as nat, payload@),
{
    let mut out: Vec<u8> = Vec::new();
    write_varint(&mut out, MSG_SYNC as u64);
    write_varint(&mut out, step as u64);
    write_varint(&mut out, payload.len() as u64);
    push_all(&mut out, payload);
    assert(out@ =~= sync_frame_bytes(step as nat, payload@));
    out
}

/// Read a length-prefixed payload starting at `pos`.
fn read_buf(data: &Vec<u8>, pos: usize) -> (r: Option<Vec<u8>>)
    requires
        pos <= data@.len(),
    ensures
        ({
            let tail = data@.subrange(pos as int, data@.len() as int);
            match buf_parse(tail) {
                None => r is None,
                Some(payload) => r matches Some(v) && v@ == payload,
            }
        }),
{
    let ghost tail = data@.subrange(pos as int, data@.len() as int);
    match read_varint(data, pos) {
        None => None,
        Some(lp) => {
            let len64 = lp.0;
            let start = lp.1;
            proof {
                lemma_varint_parse_bounds(tail, MAX_VARINT_LEN as nat);
            }
            let dlen = data.len();
            if len64 > (dlen - start) as u64 {
                None
            } else {
                let len = len64 as usize;
                assert(start + len <= dlen);
                let mut v: Vec<u8> = Vec::new();
                let mut i: usize = 0;
                while i < len
                    invariant
                        i <= len,
                        start + len <= data@.len(),
                        data@.len() <= usize::MAX,
                        v@ == data@.subrange(start as int, start + i as int),
                    decreases len - i,
                {
                    v.push(data[start + i]);
                    i = i + 1;
                    assert(v@ =~= data@.subrange(start as int, start + i as int));
                }
                proof {
                    let lk = varint_parse(tail, MAX_VARINT_LEN as nat).unwrap();
                    assert(tail.subrange(lk.1 as int, (lk.1 + lk.0) as int) =~= data@.subrange(
                        start as int,
                        start + len as int,
                    ));
                }
                Some(v)
            }
        },
    }
}

/// Build a `SYNC/STEP1` frame carrying the document's state vector.
pub fn create_sync_step1(doc: &Document) -> (r: Result<Vec<u8>, CodecError>)
    ensures
        r matches Ok(frame) && exists|sv: Seq<u8>|
            {
                &&& frame@ == sync_frame_bytes(MSG_SYNC_STEP1 as nat, sv)
                &&& #[trigger] sv_wf(sv)
                &&& sv_ops(sv).subset_of(doc.ops())
            },
{
    let sv = doc.state_vector();
    let frame = encode_sync_frame(MSG_SYNC_STEP1, &sv);
    proof {
        assert(sv_wf(sv@));
    }
    Ok(frame)
}

/// Build a `SYNC/STEP2` frame: the diff between this document and the
/// remote state vector.  Fails exactly when the vector does not decode.
pub fn create_sync_step2(doc: &Document, remote_sv: &Vec<u8>) -> (r: Result<Vec<u8>, CodecError>)
    ensures
        r is Ok <==> sv_wf(remote_sv@),
        r matches Err(e) ==> e == CodecError::MalformedStateVector,
        r matches Ok(frame) ==> is_step2_frame(frame@, doc.ops(), doc.settled(), remote_sv@),
{
    match doc.diff_v1(remote_sv) {
        Err(e) => Err(e),
        Ok(diff) => {
            let frame = encode_sync_frame(MSG_SYNC_STEP2, &diff);
            proof {
                assert(step2_payload_ok(diff@, doc.ops(), doc.settled(), remote_sv@));
            }
            Ok(frame)
        },
    }
}

/// Build a `SYNC/UPDATE` frame around raw update bytes.
pub fn create_update_message(update: &Vec<u8>) -> (r: Vec<u8>)
    ensures
        r@ == sync_frame_bytes(MSG_SYNC_UPDATE as nat, update@),
{
    encode_sync_frame(MSG_SYNC_UPDATE, update)
}

/// Encode the full document state for durable storage.
pub fn encode_doc_state(doc: &Document) -> (r: Vec<u8>)
    ensures
        update_wf(r@),
        update_ops(r@) == doc.ops(),
        doc.settled() ==> update_deps(r@) == Set::<int>::empty(),
{
    doc.encode_state_v1()
}

/// Replay a stored snapshot into a document.
pub fn load_doc_state(doc: &mut Document, state: &Vec<u8>) -> (r: Result<(), CodecError>)
    ensures
        r matches Err(e) ==> e == CodecError::MalformedUpdate,
        !update_wf(state@) ==> r is Err && final(doc).inner == old(doc).inner,
        update_wf(state@) && r is Ok ==> final(doc).ops() == old(doc).ops().union(
            update_ops(state@),
        ),
        update_wf(state@) && r is Ok && old(doc).settled() && update_deps(state@).subset_of(
            old(doc).ops(),
        ) ==> final(doc).settled(),
        update_wf(state@) && r is Err ==> old(doc).ops().subset_of(final(doc).ops())
            && final(doc).ops().subset_of(old(doc).ops().union(update_ops(state@))),
{
    doc.apply_v1(state)
}

/// Dispatch one incoming sync frame against the document.
///
/// A `STEP1` yields the answering `STEP2` frame and leaves the document
/// alone; a `STEP2` or `UPDATE` merges its payload and yields nothing; an
/// empty frame, a non-sync tag or an unknown sub-step is tolerated and
/// yields nothing; a malformed frame or payload is refused.
pub fn handle_sync_message(doc: &mut Document, msg: &Vec<u8>) -> (r: Result<
    Option<Vec<u8>>,
    CodecError,
>)
    ensures
        match frame_shape(msg@) {
            FrameShape::Empty => r == Ok::<Option<Vec<u8>>, CodecError>(None)
                && final(doc).inner == old(doc).inner,
            FrameShape::NotSync => r == Ok::<Option<Vec<u8>>, CodecError>(None)
                && final(doc).inner == old(doc).inner,
            FrameShape::OtherStep => r == Ok::<Option<Vec<u8>>, CodecError>(None)
                && final(doc).inner == old(doc).inner,
            FrameShape::Malformed => r == Err::<Option<Vec<u8>>, CodecError>(
                CodecError::MalformedFrame,
            ) && final(doc).inner == old(doc).inner,
            FrameShape::Step1(sv) => {
                &&& final(doc).inner == old(doc).inner
                &&& sv_wf(sv) ==> (r matches Ok(resp) && resp matches Some(frame)
                    && is_step2_frame(frame@, old(doc).ops(), old(doc).settled(), sv))
                &&& !sv_wf(sv) ==> r == Err::<Option<Vec<u8>>, CodecError>(
                    CodecError::MalformedStateVector,
                )
            },
            FrameShape::Apply(u) => {
                &&& r is Ok ==> r == Ok::<Option<Vec<u8>>, CodecError>(None)
                &&& r matches Err(e) ==> e == CodecError::MalformedUpdate
                &&& !update_wf(u) ==> r is Err && final(doc).inner == old(doc).inner
                &&& update_wf(u) && r is Ok ==> final(doc).ops() == old(doc).ops().union(
                    update_ops(u),
                )
                &&& update_wf(u) && r is Ok && old(doc).settled() && update_deps(u).subset_of(
                    old(doc).ops(),
                ) ==> final(doc).settled()
                &&& update_wf(u) && r is Err ==> old(doc).ops().subset_of(final(doc).ops())
                    && final(doc).ops().subset_of(old(doc).ops().union(update_ops(u)))
            },
        },
{
    if msg.len() == 0 {
        return Ok(None);
    }
    proof {
        assert(msg@.subrange(0, msg@.len() as int) =~= msg@);
    }
    let (tag, p1) = match read_varint(msg, 0) {
        None => return Err(CodecError::MalformedFrame),
        Some(x) => x,
    };
    if tag != MSG_SYNC as u64 {
        return Ok(None);
    }
    proof {
        lemma_varint_parse_bounds(msg@, MAX_VARINT_LEN as nat);
    }
    let (step, p2) = match read_varint(msg, p1) {
        None => return Err(CodecError::MalformedFrame),
        Some(x) => x,
    };
    let ghost s1 = msg@.subrange(p1 as int, msg@.len() as int);
    proof {
        lemma_varint_parse_bounds(s1, MAX_VARINT_LEN as nat);
    }
    if step > MSG_SYNC_UPDATE as u64 {
        return Ok(None);
    }
    let ghost s2 = s1.subrange((p2 - p1) as int, s1.len() as int);
    proof {
        assert(s2 =~= msg@.subrange(p2 as int, msg@.len() as int));
    }
    let payload = match read_buf(msg, p2) {
        None => return Err(CodecError::MalformedFrame),
        Some(v) => v,
    };
    if step == MSG_SYNC_STEP1 as u64 {
        match create_sync_step2(doc, &payload) {
            Ok(resp) => Ok(Some(resp)),
            Err(e) => Err(e),
        }
    } else {
        match doc.apply_v1(&payload) {
            Ok(()) => Ok(None),
            Err(e) => Err(e),
        }
    }
}

/// A frame built by this codec parses back to its own sub-step and payload:
/// encoding then dispatching loses nothing.
pub proof fn lemma_sync_frame_shape(step: nat, payload: Seq<u8>)
    requires
        step <= MSG_SYNC_UPDATE as nat,
        payload.len() <= u64::MAX,
    ensures
        step == MSG_SYNC_STEP1 as nat ==> frame_shape(sync_frame_bytes(step, payload))
            == FrameShape::Step1(payload),
        step != MSG_SYNC_STEP1 as nat ==> frame_shape(sync_frame_bytes(step, payload))
            == FrameShape::Apply(payload),
{
    let s = sync_frame_bytes(step, payload);
    let rest0 = varint_enc(step) + varint_enc(payload.len()) + payload;
    let rest1 = varint_enc(payload.len()) + payload;

    assert(varint_enc(MSG_SYNC as nat) =~= seq![MSG_SYNC]);
    assert(varint_enc(step).len() == 1);
    assert(s =~= varint_enc(MSG_SYNC as nat) + rest0);
    lemma_varint_roundtrip(MSG_SYNC as nat, rest0, MAX_VARINT_LEN as nat);
    assert(varint_parse(s, MAX_VARINT_LEN as nat) == Some((MSG_SYNC as nat, 1nat)));

    let s1 = s.subrange(1, s.len() as int);
    assert(s1 =~= rest0);
    lemma_varint_roundtrip(step, rest1, MAX_VARINT_LEN as nat);
    assert(varint_parse(s1, MAX_VARINT_LEN as nat) == Some((step, 1nat)));

    let s2 = s1.subrange(1, s1.len() as int);
    assert(s2 =~= rest1);
    assert(payload.len() < pow128(MAX_VARINT_LEN as nat)) by {
        reveal_with_fuel(pow128, 11);
    };
    lemma_varint_enc_len(payload.len(), MAX_VARINT_LEN as nat);
    lemma_varint_roundtrip(payload.len(), payload, MAX_VARINT_LEN as nat);
    let k = varint_enc(payload.len()).len();
    assert(varint_parse(s2, MAX_VARINT_LEN as nat) == Some((payload.len(), k)));
    assert(s2.subrange(k as int, (k + payload.len()) as int) =~= payload);
    assert(buf_parse(s2) == Some(payload));
}

} // verus!
