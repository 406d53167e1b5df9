use boardsync::doc::{CodecError, Document};
use boardsync::sync::{
    create_sync_step1, create_sync_step2, create_update_message, encode_doc_state,
    handle_sync_message, load_doc_state, MSG_AWARENESS, MSG_SYNC,
};
use boardsync::varint::{read_varint, write_varint};

fn element(doc: &Document, key: &str) -> Option<String> {
    doc.get_elements()
        .into_iter()
        .find(|(k, _)| k == key)
        .map(|(_, v)| v)
}

#[test]
fn test_create_sync_step1() {
    let doc = Document::new();
    let msg = create_sync_step1(&doc).expect("should create sync step 1");
    assert!(!msg.is_empty());
    // First byte should be MSG_SYNC (0)
    assert_eq!(msg[0], MSG_SYNC);
}

#[test]
fn test_encode_and_load_doc_state() {
    let mut doc1 = Document::new();
    doc1.store_element("key", "value");

    let state = encode_doc_state(&doc1);
    assert!(!state.is_empty());

    let mut doc2 = Document::new();
    load_doc_state(&mut doc2, &state).expect("should load state");

    assert_eq!(element(&doc2, "key"), Some("value".to_string()));
}

#[test]
fn test_handle_sync_step1_returns_step2() {
    let doc = Document::new();
    let step1 = create_sync_step1(&doc).expect("create step1");

    let mut doc2 = Document::new();
    let response = handle_sync_message(&mut doc2, &step1).expect("handle step1");
    assert!(response.is_some(), "step1 should produce a step2 response");
}

#[test]
fn test_handle_empty_message() {
    let mut doc = Document::new();
    let result = handle_sync_message(&mut doc, &Vec::new());
    assert!(result.is_ok());
    assert!(result.unwrap().is_none());
}

#[test]
fn test_handle_non_sync_message() {
    let mut doc = Document::new();
    // MSG_AWARENESS = 1, not a sync message
    let result = handle_sync_message(&mut doc, &vec![MSG_AWARENESS, 0, 0]);
    assert!(result.is_ok());
    assert!(result.unwrap().is_none());
}

#[test]
fn test_create_update_message() {
    let update_data = vec![1, 2, 3, 4];
    let msg = create_update_message(&update_data);
    assert!(!msg.is_empty());
    assert_eq!(msg[0], MSG_SYNC);
}

#[test]
fn test_load_invalid_state_fails() {
    let mut doc = Document::new();
    let result = load_doc_state(&mut doc, &vec![0xFF, 0xFF, 0xFF]);
    assert!(result.is_err());
}

#[test]
fn test_roundtrip_sync_protocol() {
    // Create doc1 with some data
    let mut doc1 = Document::new();
    doc1.store_element("el1", "rectangle");
    doc1.store_element("el2", "circle");

    // doc2 starts empty
    let mut doc2 = Document::new();

    // doc2 sends step1 to doc1
    let step1 = create_sync_step1(&doc2).unwrap();
    let response = handle_sync_message(&mut doc1, &step1).unwrap();
    assert!(response.is_some());

    // doc2 receives step2 and applies it
    let step2 = response.unwrap();
    let result = handle_sync_message(&mut doc2, &step2).unwrap();
    assert!(result.is_none()); // step2 doesn't generate a response

    // Verify doc2 now has the data
    assert!(element(&doc2, "el1").is_some());
    assert!(element(&doc2, "el2").is_some());
}

#[test]
fn test_varint_known_encodings() {
    let mut out = Vec::new();
    write_varint(&mut out, 0);
    assert_eq!(out, vec![0]);

    let mut out = Vec::new();
    write_varint(&mut out, 127);
    assert_eq!(out, vec![127]);

    let mut out = Vec::new();
    write_varint(&mut out, 128);
    assert_eq!(out, vec![0x80, 0x01]);

    let mut out = Vec::new();
    write_varint(&mut out, 300);
    assert_eq!(out, vec![0xAC, 0x02]);
}

#[test]
fn test_varint_roundtrip_values() {
    for value in [0u64, 1, 127, 128, 255, 300, 16383, 16384, u64::MAX] {
        let mut out = Vec::new();
        write_varint(&mut out, value);
        let (read, end) = read_varint(&out, 0).expect("well-formed varint");
        assert_eq!(read, value);
        assert_eq!(end, out.len());
    }
}

#[test]
fn test_varint_truncated_is_rejected() {
    // A continuation bit with nothing after it.
    assert!(read_varint(&vec![0x80], 0).is_none());
    assert!(read_varint(&Vec::new(), 0).is_none());
}

#[test]
fn test_update_frame_applies_to_document() {
    // An update frame carrying doc1's full state brings an empty doc up to
    // date when dispatched as SYNC/UPDATE.
    let mut doc1 = Document::new();
    doc1.store_element("el1", "{\"id\":\"el1\",\"kind\":\"rect\"}");
    let update = encode_doc_state(&doc1);
    let frame = create_update_message(&update);

    let mut doc2 = Document::new();
    let result = handle_sync_message(&mut doc2, &frame).unwrap();
    assert!(result.is_none());
    assert!(element(&doc2, "el1").is_some());
}

#[test]
fn test_idempotent_apply() {
    // Applying the same SYNC/UPDATE frame twice leaves the document where
    // the first apply put it.
    let mut doc1 = Document::new();
    doc1.store_element("el1", "rectangle");
    let frame = create_update_message(&encode_doc_state(&doc1));

    let mut doc2 = Document::new();
    handle_sync_message(&mut doc2, &frame).unwrap();
    let mut after_first = doc2.get_elements();
    after_first.sort();
    handle_sync_message(&mut doc2, &frame).unwrap();
    let mut after_second = doc2.get_elements();
    after_second.sort();
    assert_eq!(after_first, after_second);
}

#[test]
fn test_two_document_convergence() {
    // Concurrent edits on both sides; each side applies the other's
    // update frame; both end with the same elements.
    let mut a = Document::new();
    let mut b = Document::new();
    a.store_element("a", "{\"id\":\"a\"}");
    b.store_element("b", "{\"id\":\"b\"}");

    let from_a = create_update_message(&encode_doc_state(&a));
    let from_b = create_update_message(&encode_doc_state(&b));

    handle_sync_message(&mut a, &from_b).unwrap();
    handle_sync_message(&mut b, &from_a).unwrap();

    let mut ea = a.get_elements();
    let mut eb = b.get_elements();
    ea.sort();
    eb.sort();
    assert_eq!(ea, eb);
    assert_eq!(ea.len(), 2);
}

#[test]
fn test_snapshot_roundtrip_preserves_elements() {
    let mut doc = Document::new();
    doc.store_element("x", "1");
    doc.store_element("y", "2");
    doc.remove_element("x");

    let snap = encode_doc_state(&doc);
    let mut fresh = Document::new();
    load_doc_state(&mut fresh, &snap).unwrap();

    let mut want = doc.get_elements();
    let mut got = fresh.get_elements();
    want.sort();
    got.sort();
    assert_eq!(want, got);
    assert_eq!(element(&fresh, "x"), None);
    assert_eq!(element(&fresh, "y"), Some("2".to_string()));
}

#[test]
fn test_step2_against_malformed_state_vector() {
    let doc = Document::new();
    let garbage = vec![0xFF, 0xFF, 0xFF, 0xFF];
    let result = create_sync_step2(&doc, &garbage);
    assert_eq!(result.unwrap_err(), CodecError::MalformedStateVector);
}

#[test]
fn test_handle_truncated_sync_frame() {
    // A sync tag with nothing after it is malformed.
    let mut doc = Document::new();
    let result = handle_sync_message(&mut doc, &vec![MSG_SYNC]);
    assert_eq!(result.unwrap_err(), CodecError::MalformedFrame);
}

#[test]
fn test_handle_unknown_sub_step_is_tolerated() {
    let mut doc = Document::new();
    // SYNC with sub-step 7: ignored, not fatal.
    let result = handle_sync_message(&mut doc, &vec![MSG_SYNC, 7]);
    assert!(result.is_ok());
    assert!(result.unwrap().is_none());
}

#[test]
fn test_malformed_update_error_kind() {
    // A well-framed SYNC/UPDATE whose payload is not a decodable update.
    let mut doc = Document::new();
    let frame = create_update_message(&vec![0xFF, 0xFF, 0xFF]);
    let result = handle_sync_message(&mut doc, &frame);
    assert_eq!(result.unwrap_err(), CodecError::MalformedUpdate);
}

#[test]
fn test_remove_element_from_doc() {
    let mut doc = Document::new();
    doc.store_element("gone", "soon");
    assert!(element(&doc, "gone").is_some());
    doc.remove_element("gone");
    assert_eq!(element(&doc, "gone"), None);
}
