//! Per-connection rules: who may upgrade, how incoming frames act on the
//! room, and when the document is snapshotted for storage.
//!
//! The socket pumps run elsewhere and hand frames in as plain values;
//! what a frame is taken for, what reaches the document, what is fanned
//! out on the bus and what goes to storage is decided — and stated — here.

use vstd::prelude::*;
use vstd::string::StringSliceAdditionalSpecFns;

use crate::access::str_eq_chars;
use crate::auth::Claims;
use crate::bus::BusReceiver;
use crate::doc::{doc_ops, doc_settled, elements_of, sv_wf, update_deps, update_ops, update_wf,
    CodecError};
use crate::json::{json_get_str, json_to_string};
use crate::room::{Room, RoomManager};
use crate::sync::{
    encode_doc_state, handle_sync_message, is_step2_frame, load_doc_state, frame_shape,
    push_all, FrameShape, MSG_SYNC,
};

verus! {

/// Binary sync frames seen between two snapshots: every hundredth sync
/// frame on a connection triggers a save.
pub const SAVE_INTERVAL: u32 = 100;

/// The per-connection counter behind the save cadence.
pub struct SaveCadence {
    pub count: u32,
}

impl SaveCadence {
    /// A counter that has seen no frames.
    pub fn new() -> (c: SaveCadence)
        ensures
            c.count == 0,
    {
        SaveCadence { count: 0 }
    }
}

/// The verdict on a socket-upgrade request.
pub enum UpgradeAuth {
    /// Admitted, as this principal.
    Granted { user_id: u128, username: String },
    /// Turned away; the upgrade is refused with no side effect.
    Refused,
}

/// Decide a socket upgrade.
///
/// A presented bearer token must have verified; its subject is the
/// principal.  Without a bearer token, a share link found for the
/// request may admit a guest: it must bind to the requested board and
/// must not have expired.  Anything else is refused.
pub fn authorize_upgrade(
    token_present: bool,
    verified: Option<Claims>,
    share_link: Option<(u128, Option<i64>)>,
    requested_board: u128,
    now: i64,
    guest_id: u128,
) -> (r: UpgradeAuth)
    ensures
        token_present ==> match verified {
            Some(c) => r matches UpgradeAuth::Granted { user_id, username } && user_id == c.sub
                && username@ == c.username@,
            None => r is Refused,
        },
        !token_present ==> match share_link {
            Some(link) => if link.0 == requested_board && match link.1 {
                None => true,
                Some(t) => t > now,
            } {
                r matches UpgradeAuth::Granted { user_id, username } && user_id == guest_id
                    && username@ == "Guest"@
            } else {
                r is Refused
            },
            None => r is Refused,
        },
{
    if token_present {
        match verified {
            Some(c) => UpgradeAuth::Granted { user_id: c.sub, username: c.username },
            None => UpgradeAuth::Refused,
        }
    } else {
        match share_link {
            Some(link) => {
                let unexpired = match link.1 {
                    None => true,
                    Some(t) => t > now,
                };
                if link.0 == requested_board && unexpired {
                    UpgradeAuth::Granted { user_id: guest_id, username: "Guest".to_owned() }
                } else {
                    UpgradeAuth::Refused
                }
            },
            None => UpgradeAuth::Refused,
        }
    }
}

/// The bytes of a text frame.
pub fn str_bytes(s: &str) -> (r: Vec<u8>)
    ensures
        r@ == s.spec_bytes(),
{
    let b = s.as_bytes();
    let mut out: Vec<u8> = Vec::new();
    let mut i: usize = 0;
    while i < b.len()
        invariant
            i <= b@.len(),
            out@ == b@.subrange(0, i as int),
        decreases b@.len() - i,
    {
        out.push(b[i]);
        i = i + 1;
        assert(out@ =~= b@.subrange(0, i as int));
    }
    assert(out@ =~= b@);
    out
}

/// What dispatching one binary frame produced.
pub struct SyncOutcome {
    /// A snapshot to hand to storage, on cadence.
    pub save: Option<Vec<u8>>,
    /// The codec's complaint about the frame, if any; never fatal.
    pub error: Option<CodecError>,
}

/// Dispatch one binary frame from a member's socket.
///
/// A frame whose first byte is the sync tag runs through the sync codec:
/// a `STEP1` gets its `STEP2` answer published first, then the frame
/// itself is published so every peer converges; the per-connection save
/// counter advances and every `SAVE_INTERVAL`-th frame yields a snapshot
/// of the document as it then stands.  A frame the codec refuses is
/// dropped whole — nothing is published, nothing counted — and the
/// connection lives on.  Presence and unknown binary frames are fanned
/// out untouched.  An empty frame does nothing.
pub fn handle_binary_frame(room: &mut Room, data: &Vec<u8>, cadence: &mut SaveCadence) -> (r:
    SyncOutcome)
    requires
        old(room).wf(),
        old(cadence).count < u32::MAX,
        old(room).bus.frames().len() + 2 <= usize::MAX,
    ensures
        final(room).wf(),
        final(room).board_id == old(room).board_id,
        final(room).members() == old(room).members(),
        final(room).bus.capacity() == old(room).bus.capacity(),
        data@.len() == 0 ==> *final(room) == *old(room) && *final(cadence) == *old(cadence)
            && r.save is None && r.error is None,
        data@.len() > 0 && data@[0] != MSG_SYNC ==> final(room).doc.inner == old(room).doc.inner
            && final(room).bus.frames() == old(room).bus.frames().push(data@) && *final(cadence)
            == *old(cadence) && r.save is None && r.error is None,
        data@.len() > 0 && data@[0] == MSG_SYNC ==> {
            &&& (r.error is None ==> final(cadence).count == old(cadence).count + 1 && (
            r.save is Some <==> (old(cadence).count + 1) % (SAVE_INTERVAL as int) == 0))
            &&& (r.error is Some ==> *final(cadence) == *old(cadence) && r.save is None)
            &&& (r.save matches Some(snap) ==> update_wf(snap@) && update_ops(snap@) == doc_ops(
                final(room).doc.inner,
            ))
            &&& match frame_shape(data@) {
                FrameShape::Step1(sv) => {
                    &&& final(room).doc.inner == old(room).doc.inner
                    &&& sv_wf(sv) ==> r.error is None && exists|resp: Seq<u8>|
                        #[trigger] is_step2_frame(
                            resp,
                            doc_ops(old(room).doc.inner),
                            doc_settled(old(room).doc.inner),
                            sv,
                        ) && final(room).bus.frames() == old(room).bus.frames().push(resp).push(
                            data@,
                        )
                    &&& !sv_wf(sv) ==> r.error == Some(CodecError::MalformedStateVector)
                        && final(room).bus.frames() == old(room).bus.frames()
                },
                FrameShape::Apply(u) => {
                    &&& !update_wf(u) ==> r.error == Some(CodecError::MalformedUpdate) && final(room).doc.inner == old(room).doc.inner
                        && final(room).bus.frames() == old(room).bus.frames()
                    &&& update_wf(u) && r.error is None ==> doc_ops(final(room).doc.inner)
                        == doc_ops(old(room).doc.inner).union(update_ops(u)) && final(room).bus.frames() == old(room).bus.frames().push(data@)
                    &&& update_wf(u) && r.error is None && doc_settled(old(room).doc.inner)
                        && update_deps(u).subset_of(doc_ops(old(room).doc.inner)) ==> doc_settled(
                        final(room).doc.inner,
                    )
                    &&& update_wf(u) && r.error is Some ==> r.error == Some(
                        CodecError::MalformedUpdate,
                    ) && doc_ops(old(room).doc.inner).subset_of(doc_ops(final(room).doc.inner))
                        && doc_ops(final(room).doc.inner).subset_of(
                        doc_ops(old(room).doc.inner).union(update_ops(u)),
                    ) && final(room).bus.frames() == old(room).bus.frames()
                },
                FrameShape::Malformed => {
                    &&& final(room).doc.inner == old(room).doc.inner
                    &&& final(room).bus.frames() == old(room).bus.frames()
                    &&& r.error == Some(CodecError::MalformedFrame)
                },
                FrameShape::OtherStep => {
                    &&& final(room).doc.inner == old(room).doc.inner
                    &&& final(room).bus.frames() == old(room).bus.frames().push(data@)
                    &&& r.error is None
                },
                FrameShape::Empty => true,
                FrameShape::NotSync => true,
            }
        },
{
    if data.len() == 0 {
        return SyncOutcome { save: None, error: None };
    }
    let b0 = data[0];
    if b0 == MSG_SYNC {
        let handled = handle_sync_message(&mut room.doc, data);
        match handled {
            Err(e) => SyncOutcome { save: None, error: Some(e) },
            Ok(response) => {
                match response {
                    Some(resp) => {
                        room.bus.publish(resp);
                    },
                    None => {},
                }
                let mut copy: Vec<u8> = Vec::new();
                push_all(&mut copy, data);
                room.bus.publish(copy);
                cadence.count = cadence.count + 1;
                let save: Option<Vec<u8>> = if cadence.count % SAVE_INTERVAL == 0 {
                    Some(encode_doc_state(&room.doc))
                } else {
                    None
                };
                SyncOutcome { save, error: None }
            },
        }
    } else {
        let mut copy: Vec<u8> = Vec::new();
        push_all(&mut copy, data);
        room.bus.publish(copy);
        SyncOutcome { save: None, error: None }
    }
}

/// A text frame, classified.
pub enum TextMsg {
    /// `save_request`: snapshot and persist, no rebroadcast.
    SaveRequest,
    /// `element_add` or `element_update` carrying an element with an id:
    /// upsert `elements[id]` to the element's JSON text.
    ElementUpsert { id: String, json: String },
    /// `element_remove`: delete `elements[elementId]`.
    ElementRemove { id: String },
    /// `sync_state` carrying an element array: upsert each element that
    /// has an id, in order.
    SyncState { elements: Vec<(String, String)> },
    /// Anything else — including unparseable text — is fanned out
    /// untouched.
    Other,
}

/// The `type` field of the frame's JSON object, when the text parses to
/// an object holding a string there; a function of the text alone.
pub uninterp spec fn text_type_of(s: Seq<char>) -> Option<Seq<char>>;

/// The `element.id` string of the frame's `element` object, when present.
pub uninterp spec fn text_element_id_of(s: Seq<char>) -> Option<Seq<char>>;

/// The serialization of the frame's `element` object, when it is present
/// and carries a string id.
pub uninterp spec fn text_element_json_of(s: Seq<char>) -> Option<Seq<char>>;

/// The `elementId` string of the frame, when present.
pub uninterp spec fn text_remove_id_of(s: Seq<char>) -> Option<Seq<char>>;

/// Whether the frame's `elements` field holds an array.
pub uninterp spec fn text_elements_present(s: Seq<char>) -> bool;

/// Relies on `serde_json::from_str`, `Value::get` and `Value::as_str`:
/// the frame's `type` field.
#[verifier::external_body]
fn text_type(s: &str) -> (r: Option<String>)
    ensures
        match r {
            Some(t) => text_type_of(s@) == Some(t@),
            None => text_type_of(s@) is None,
        },
{
    let parsed: serde_json::Value = serde_json::from_str(s).ok()?;
    Some(parsed.get("type")?.as_str()?.to_string())
}

/// Relies on `serde_json::from_str`, `Value::get`, `Value::as_str` and
/// `serde_json::to_string`: the frame's element id and the serialization
/// of its `element` object.
#[verifier::external_body]
fn text_element(s: &str) -> (r: Option<(String, String)>)
    ensures
        r matches Some(p) ==> text_element_id_of(s@) == Some(p.0@) && text_element_json_of(s@)
            == Some(p.1@),
        r is None ==> text_element_id_of(s@) is None || text_element_json_of(s@) is None,
{
    let parsed: serde_json::Value = serde_json::from_str(s).ok()?;
    let element = parsed.get("element")?;
    let id = element.get("id")?.as_str()?.to_string();
    let json = serde_json::to_string(element).ok()?;
    Some((id, json))
}

/// Relies on `serde_json::from_str`, `Value::get` and `Value::as_str`:
/// the frame's `elementId` field.
#[verifier::external_body]
fn text_remove_id(s: &str) -> (r: Option<String>)
    ensures
        match r {
            Some(t) => text_remove_id_of(s@) == Some(t@),
            None => text_remove_id_of(s@) is None,
        },
{
    let parsed: serde_json::Value = serde_json::from_str(s).ok()?;
    Some(parsed.get("elementId")?.as_str()?.to_string())
}

/// Relies on `serde_json::from_str`, `Value::get` and `Value::as_array`:
/// the items of the frame's `elements` array.
#[verifier::external_body]
fn text_elements_items(s: &str) -> (r: Option<Vec<serde_json::Value>>)
    ensures
        r is Some <==> text_elements_present(s@),
{
    let parsed: serde_json::Value = serde_json::from_str(s).ok()?;
    Some(parsed.get("elements")?.as_array()?.to_vec())
}

/// Classify one text frame by its JSON `type` field, extracting what the
/// document update needs.  The classification is pinned to the frame's
/// `type` field; a frame that parses but lacks the pieces its type calls
/// for falls back to plain fan-out, as does any unknown type.  The pairs
/// carried by a state merge are the array items holding a string id, in
/// order; which pairs those are on given text is not pinned here, and the
/// map effect of whatever is extracted is exact in `handle_text_frame`.
pub fn parse_text_frame(text: &str) -> (r: TextMsg)
    ensures
        r is SaveRequest <==> text_type_of(text@) == Some("save_request"@),
        r is ElementUpsert ==> text_type_of(text@) == Some("element_add"@) || text_type_of(
            text@,
        ) == Some("element_update"@),
        r matches TextMsg::ElementUpsert { id, json } ==> text_element_id_of(text@) == Some(id@)
            && text_element_json_of(text@) == Some(json@),
        (text_type_of(text@) == Some("element_add"@) || text_type_of(text@) == Some(
            "element_update"@,
        )) && text_element_id_of(text@) is Some && text_element_json_of(text@) is Some
            ==> r is ElementUpsert,
        r matches TextMsg::ElementRemove { id } ==> text_type_of(text@) == Some(
            "element_remove"@,
        ) && text_remove_id_of(text@) == Some(id@),
        text_type_of(text@) == Some("element_remove"@) && text_remove_id_of(text@) is Some
            ==> r is ElementRemove,
        r is SyncState <==> text_type_of(text@) == Some("sync_state"@) && text_elements_present(
            text@,
        ),
{
    proof {
        reveal_strlit("save_request");
        reveal_strlit("element_add");
        reveal_strlit("element_update");
        reveal_strlit("element_remove");
        reveal_strlit("sync_state");
        assert("save_request"@.len() == 12);
        assert("element_add"@.len() == 11);
        assert("element_update"@.len() == 14);
        assert("element_remove"@.len() == 14);
        assert("sync_state"@.len() == 10);
        assert("element_update"@ != "element_remove"@) by {
            assert("element_update"@[8] == 'u');
            assert("element_remove"@[8] == 'r');
        };
    }
    let kind = match text_type(text) {
        Some(t) => t,
        None => return TextMsg::Other,
    };
    if str_eq_chars(kind.as_str(), "save_request") {
        TextMsg::SaveRequest
    } else if str_eq_chars(kind.as_str(), "element_add") || str_eq_chars(
        kind.as_str(),
        "element_update",
    ) {
        match text_element(text) {
            Some(pair) => TextMsg::ElementUpsert { id: pair.0, json: pair.1 },
            None => TextMsg::Other,
        }
    } else if str_eq_chars(kind.as_str(), "element_remove") {
        match text_remove_id(text) {
            Some(id) => TextMsg::ElementRemove { id },
            None => TextMsg::Other,
        }
    } else if str_eq_chars(kind.as_str(), "sync_state") {
        let items = match text_elements_items(text) {
            Some(a) => a,
            None => return TextMsg::Other,
        };
        let mut pairs: Vec<(String, String)> = Vec::new();
        let mut i: usize = 0;
        while i < items.len()
            decreases items@.len() - i,
        {
            let item = &items[i];
            match json_get_str(item, "id") {
                Some(id) => match json_to_string(item) {
                    Some(json) => {
                        pairs.push((id, json));
                    },
                    None => {},
                },
                None => {},
            }
            i = i + 1;
        }
        TextMsg::SyncState { elements: pairs }
    } else {
        TextMsg::Other
    }
}

/// The map after upserting each pair in order.
pub open spec fn upsert_all(
    m: Map<Seq<char>, Seq<char>>,
    pairs: Seq<(String, String)>,
) -> Map<Seq<char>, Seq<char>>
    decreases pairs.len(),
{
    if pairs.len() == 0 {
        m
    } else {
        upsert_all(m, pairs.drop_last()).insert(pairs.last().0@, pairs.last().1@)
    }
}

/// Dispatch one classified text frame from a member's socket.
///
/// A save request snapshots the document and is not rebroadcast.  Element
/// upserts and removals change the `elements` map exactly as stated, then
/// the raw frame is fanned out; a state merge upserts every carried
/// element in order, never replacing the whole map.  Everything else is
/// fanned out untouched.
pub fn handle_text_frame(room: &mut Room, msg: TextMsg, raw: &str) -> (save: Option<Vec<u8>>)
    requires
        old(room).wf(),
        old(room).bus.frames().len() < usize::MAX,
    ensures
        final(room).wf(),
        final(room).board_id == old(room).board_id,
        final(room).members() == old(room).members(),
        final(room).bus.capacity() == old(room).bus.capacity(),
        doc_ops(old(room).doc.inner).subset_of(doc_ops(final(room).doc.inner)),
        doc_settled(final(room).doc.inner) == doc_settled(old(room).doc.inner),
        match msg {
            TextMsg::SaveRequest => {
                &&& final(room).doc.inner == old(room).doc.inner
                &&& final(room).bus.frames() == old(room).bus.frames()
                &&& save matches Some(snap) && update_wf(snap@) && update_ops(snap@) == doc_ops(
                    old(room).doc.inner,
                )
            },
            TextMsg::ElementUpsert { id, json } => {
                &&& elements_of(doc_ops(final(room).doc.inner)) == elements_of(
                    doc_ops(old(room).doc.inner),
                ).insert(id@, json@)
                &&& final(room).bus.frames() == old(room).bus.frames().push(raw.spec_bytes())
                &&& save is None
            },
            TextMsg::ElementRemove { id } => {
                &&& elements_of(doc_ops(final(room).doc.inner)) == elements_of(
                    doc_ops(old(room).doc.inner),
                ).remove(id@)
                &&& final(room).bus.frames() == old(room).bus.frames().push(raw.spec_bytes())
                &&& save is None
            },
            TextMsg::SyncState { elements } => {
                &&& elements_of(doc_ops(final(room).doc.inner)) == upsert_all(
                    elements_of(doc_ops(old(room).doc.inner)),
                    elements@,
                )
                &&& final(room).bus.frames() == old(room).bus.frames().push(raw.spec_bytes())
                &&& save is None
            },
            TextMsg::Other => {
                &&& final(room).doc.inner == old(room).doc.inner
                &&& final(room).bus.frames() == old(room).bus.frames().push(raw.spec_bytes())
                &&& save is None
            },
        },
{
    match msg {
        TextMsg::SaveRequest => {
            let snap = encode_doc_state(&room.doc);
            Some(snap)
        },
        TextMsg::ElementUpsert { id, json } => {
            room.doc.store_element(id.as_str(), json.as_str());
            let bytes = str_bytes(raw);
            room.bus.publish(bytes);
            None
        },
        TextMsg::ElementRemove { id } => {
            room.doc.remove_element(id.as_str());
            let bytes = str_bytes(raw);
            room.bus.publish(bytes);
            None
        },
        TextMsg::SyncState { elements } => {
            let ghost m0 = elements_of(doc_ops(room.doc.inner));
            let mut i: usize = 0;
            while i < elements.len()
                invariant
                    i <= elements@.len(),
                    room.wf(),
                    room.board_id == old(room).board_id,
                    room.members() == old(room).members(),
                    room.bus == old(room).bus,
                    doc_ops(old(room).doc.inner).subset_of(doc_ops(room.doc.inner)),
                    doc_settled(room.doc.inner) == doc_settled(old(room).doc.inner),
                    elements_of(doc_ops(room.doc.inner)) == upsert_all(
                        m0,
                        elements@.subrange(0, i as int),
                    ),
                    m0 == elements_of(doc_ops(old(room).doc.inner)),
                decreases elements@.len() - i,
            {
                let pair = &elements[i];
                room.doc.store_element(pair.0.as_str(), pair.1.as_str());
                i = i + 1;
                proof {
                    let prefix = elements@.subrange(0, i as int);
                    assert(prefix.drop_last() =~= elements@.subrange(0, i - 1));
                    assert(prefix.last() == elements@[i - 1]);
                }
            }
            proof {
                assert(elements@.subrange(0, elements@.len() as int) =~= elements@);
            }
            let bytes = str_bytes(raw);
            room.bus.publish(bytes);
            None
        },
        TextMsg::Other => {
            let bytes = str_bytes(raw);
            room.bus.publish(bytes);
            None
        },
    }
}

/// What binding a connection to its room produced.
pub struct JoinOutcome {
    /// Where the room stands in the registry.
    pub room_index: usize,
    /// This connection's bus subscription.
    pub rx: BusReceiver,
    /// The snapshot replay's complaint, when a replay ran and was refused.
    pub load_error: Option<CodecError>,
}

/// Bind a connection to its room and join.
///
/// The room is created on demand; when it has no members yet, a stored
/// snapshot — if one exists — is replayed into the document before
/// anything else.  The principal is then inserted as a member, and a bus
/// subscription is opened that sees only frames published from now on.
/// Returns the room's index in the registry and the subscription.
pub fn join_room(
    manager: &mut RoomManager,
    board_id: u128,
    user_id: u128,
    username: String,
    snapshot: Option<Vec<u8>>,
) -> (r: JoinOutcome)
    requires
        old(manager).wf(),
    ensures
        final(manager).wf(),
        final(manager).has_room(board_id),
        r.room_index < final(manager).rooms_seq().len(),
        ({
            let room = final(manager).rooms_seq()[r.room_index as int];
            &&& room == final(manager).room_of(board_id)
            &&& room.board_id == board_id
            &&& room.wf()
            &&& room.has_member(user_id)
            &&& room.member_at(user_id).username@ == username@
            &&& r.rx.wf(room.bus.frames().len() as int)
            &&& r.rx.since() == room.bus.frames().len()
            &&& r.rx.lost() == Set::<int>::empty()
        }),
        forall|b: u128| b != board_id ==> final(manager).has_room(b) == old(manager).has_room(b),
        forall|b: u128|
            b != board_id && old(manager).has_room(b) ==> final(manager).room_of(b) == old(manager).room_of(b),
        old(manager).has_room(board_id) ==> doc_ops(
            old(manager).room_of(board_id).doc.inner,
        ).subset_of(doc_ops(final(manager).room_of(board_id).doc.inner)),
        !old(manager).has_room(board_id) ==> {
            let room = final(manager).room_of(board_id);
            &&& room.member_count() == 1
            &&& room.member_at(user_id).color@ == crate::room::palette(0)
            &&& (snapshot is None ==> doc_ops(room.doc.inner) == Set::<int>::empty()
                && r.load_error is None)
            &&& (snapshot matches Some(snap) ==> {
                &&& !update_wf(snap@) ==> r.load_error == Some(CodecError::MalformedUpdate)
                    && doc_ops(room.doc.inner) == Set::<int>::empty()
                &&& update_wf(snap@) && r.load_error is None ==> doc_ops(room.doc.inner)
                    == update_ops(snap@) && (update_deps(snap@) == Set::<int>::empty()
                    ==> doc_settled(room.doc.inner))
                &&& update_wf(snap@) && r.load_error is Some ==> doc_ops(
                    room.doc.inner,
                ).subset_of(update_ops(snap@))
            })
        },
{
    let i = manager.get_or_create_room(board_id);
    let room = &mut manager.rooms[i];
    let mut load_error: Option<CodecError> = None;
    if room.user_count() == 0 {
        match &snapshot {
            Some(snap) => {
                match load_doc_state(&mut room.doc, snap) {
                    Ok(()) => {},
                    Err(e) => {
                        load_error = Some(e);
                    },
                }
                proof {
                    assert(Set::<int>::empty().union(update_ops(snap@)) =~= update_ops(
                        snap@,
                    ));
                }
            },
            None => {},
        }
    }
    let _ = room.add_user(user_id, username);
    let rx = room.bus.subscribe();
    proof {
        assert(final(manager).rooms_seq()[i as int].board_id == board_id);
        assert(forall|j: int|
            0 <= j < final(manager).rooms_seq().len() && j != i ==> final(manager).rooms_seq()[j] == old(manager).rooms_seq()[j]);
        assert(final(manager).wf());
        final(manager).lemma_room_of(board_id, i as int);
        assert forall|b: u128|
            b != board_id && old(manager).has_room(b) implies final(manager).room_of(b) == old(manager).room_of(b) && final(manager).has_room(b) by {
            let j = choose|j: int|
                0 <= j < old(manager).rooms_seq().len() && old(manager).rooms_seq()[j].board_id
                    == b;
            old(manager).lemma_room_of(b, j);
            assert(final(manager).rooms_seq()[j] == old(manager).rooms_seq()[j]);
            final(manager).lemma_room_of(b, j);
        };
        assert forall|b: u128|
            b != board_id && final(manager).has_room(b) implies old(manager).has_room(b) by {
            let j = choose|j: int|
                0 <= j < final(manager).rooms_seq().len() && final(manager).rooms_seq()[j]
                    .board_id == b;
            assert(j != i);
            assert(old(manager).rooms_seq()[j].board_id == b);
        };
    }
    JoinOutcome { room_index: i, rx, load_error }
}

/// Leave a room, and close it down when empty.
///
/// The member is removed; when the room is left with no members, the
/// document is snapshotted for a final durable write and the room is
/// evicted from the registry.  The snapshot — when one is produced —
/// carries the closing document's whole operation set.
pub fn leave_room(manager: &mut RoomManager, board_id: u128, user_id: u128) -> (save: Option<
    Vec<u8>,
>)
    requires
        old(manager).wf(),
    ensures
        final(manager).wf(),
        !old(manager).has_room(board_id) ==> *final(manager) == *old(manager) && save is None,
        old(manager).has_room(board_id) ==> {
            let room0 = old(manager).room_of(board_id);
            let left = if room0.has_member(user_id) {
                room0.member_count() - 1
            } else {
                room0.member_count()
            };
            &&& (save is Some <==> left == 0)
            &&& (save matches Some(snap) ==> update_wf(snap@) && update_ops(snap@) == doc_ops(
                room0.doc.inner,
            ) && !final(manager).has_room(board_id))
            &&& (left != 0 ==> final(manager).has_room(board_id) && final(manager).room_of(
                board_id,
            ).member_count() == left && !final(manager).room_of(board_id).has_member(user_id))
        },
        forall|b: u128| b != board_id ==> final(manager).has_room(b) == old(manager).has_room(b),
        forall|b: u128|
            b != board_id && old(manager).has_room(b) ==> final(manager).room_of(b) == old(manager).room_of(b),
{
    let found = manager.get_room(board_id);
    match found {
        None => None,
        Some(i) => {
            let room = &mut manager.rooms[i];
            room.remove_user(user_id);
            let empty = room.user_count() == 0;
            let save: Option<Vec<u8>> = if empty {
                Some(encode_doc_state(&room.doc))
            } else {
                None
            };
            proof {
                assert(forall|j: int|
                    0 <= j < manager.rooms_seq().len() && j != i ==> manager.rooms_seq()[j]
                        == old(manager).rooms_seq()[j]);
                assert(manager.rooms_seq()[i as int].board_id == board_id);
                assert(manager.wf());
                manager.lemma_room_of(board_id, i as int);
            }
            let ghost mid = *manager;
            manager.remove_room_if_empty(board_id);
            proof {
                assert forall|b: u128|
                    b != board_id && old(manager).has_room(b) implies manager.has_room(b)
                    && manager.room_of(b) == old(manager).room_of(b) by {
                    let j = choose|j: int|
                        0 <= j < old(manager).rooms_seq().len() && old(manager).rooms_seq()[j].board_id == b;
                    old(manager).lemma_room_of(b, j);
                    assert(j != i);
                    assert(mid.rooms_seq()[j] == old(manager).rooms_seq()[j]);
                    mid.lemma_room_of(b, j);
                };
                assert forall|b: u128|
                    b != board_id && manager.has_room(b) implies old(manager).has_room(b) by {
                    assert(mid.has_room(b));
                    let j = choose|j: int|
                        0 <= j < mid.rooms_seq().len() && mid.rooms_seq()[j].board_id == b;
                    assert(j != i);
                    assert(old(manager).rooms_seq()[j].board_id == b);
                };
            }
            save
        },
    }
}

} // verus!
