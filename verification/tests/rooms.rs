use boardsync::room::{color_for, Room, RoomManager};
use boardsync::session::{
    handle_binary_frame, handle_text_frame, join_room, leave_room, parse_text_frame, SaveCadence,
    TextMsg,
};
use boardsync::sync::{create_sync_step1, create_update_message, encode_doc_state,
    handle_sync_message};
use uuid::Uuid;

fn uid() -> u128 {
    Uuid::new_v4().as_u128()
}

fn element_keys(room: &Room) -> Vec<String> {
    let mut keys: Vec<String> = room.doc.get_elements().into_iter().map(|(k, _)| k).collect();
    keys.sort();
    keys
}

#[test]
fn test_room_add_and_remove_user() {
    let mut room = Room::new(uid());
    assert_eq!(room.user_count(), 0);

    let user_id = uid();
    room.add_user(user_id, "Alice".to_string());
    assert_eq!(room.user_count(), 1);

    let users = room.get_users();
    assert_eq!(users.len(), 1);
    assert_eq!(users[0].username, "Alice");

    room.remove_user(user_id);
    assert_eq!(room.user_count(), 0);
}

#[test]
fn test_room_user_colors_cycle() {
    let mut room = Room::new(uid());
    let mut user_ids = vec![];
    for i in 0..9 {
        let u = uid();
        user_ids.push(u);
        room.add_user(u, format!("User{}", i));
    }
    let users = room.get_users();
    // 9th user should wrap around to color index 0
    let first_color = users.iter().find(|u| u.username == "User0").unwrap().color.clone();
    let ninth_color = users.iter().find(|u| u.username == "User8").unwrap().color.clone();
    assert_eq!(first_color, ninth_color);
}

#[test]
fn test_room_broadcast_channel() {
    let mut room = Room::new(uid());
    let mut rx = room.bus.subscribe();
    room.bus.publish(b"hello".to_vec());
    let msg = rx.recv(&room.bus).unwrap();
    assert_eq!(msg, b"hello");
}

#[test]
fn test_room_manager_get_or_create() {
    let mut manager = RoomManager::new();
    let board_id = uid();

    assert!(manager.get_room(board_id).is_none());

    let i = manager.get_or_create_room(board_id);
    assert_eq!(manager.rooms[i].board_id, board_id);

    // Should return same room
    let j = manager.get_or_create_room(board_id);
    assert_eq!(manager.rooms[j].board_id, board_id);
    assert_eq!(i, j);

    assert!(manager.get_room(board_id).is_some());
}

#[test]
fn test_room_manager_remove_empty_room() {
    let mut manager = RoomManager::new();
    let board_id = uid();

    let i = manager.get_or_create_room(board_id);
    let u = uid();
    manager.rooms[i].add_user(u, "Test".to_string());

    // Room with users should not be removed
    manager.remove_room_if_empty(board_id);
    assert!(manager.get_room(board_id).is_some());

    // After removing user, room should be removable
    let i = manager.get_room(board_id).unwrap();
    manager.rooms[i].remove_user(u);
    manager.remove_room_if_empty(board_id);
    assert!(manager.get_room(board_id).is_none());
}

#[test]
fn test_room_manager_multiple_boards() {
    let mut manager = RoomManager::new();
    let board1 = uid();
    let board2 = uid();

    manager.get_or_create_room(board1);
    manager.get_or_create_room(board2);

    assert!(manager.get_room(board1).is_some());
    assert!(manager.get_room(board2).is_some());

    // Removing one should not affect the other
    manager.remove_room_if_empty(board1);
    assert!(manager.get_room(board1).is_none());
    assert!(manager.get_room(board2).is_some());
}

#[test]
fn test_add_user_returns_assigned_color() {
    let mut room = Room::new(uid());
    let first = room.add_user(uid(), "One".to_string());
    assert_eq!(first, "#F44336");
    let second = room.add_user(uid(), "Two".to_string());
    assert_eq!(second, "#2196F3");
    let users = room.get_users();
    assert_eq!(users[0].color, first);
    assert_eq!(users[1].color, second);
}

#[test]
fn test_malformed_sync_frame_is_dropped() {
    // A refused frame is not rebroadcast, not counted, and not fatal.
    let mut room = Room::new(uid());
    let mut rx = room.bus.subscribe();
    let mut cadence = SaveCadence::new();

    let truncated = vec![boardsync::sync::MSG_SYNC];
    let out = handle_binary_frame(&mut room, &truncated, &mut cadence);
    assert!(out.error.is_some());
    assert!(out.save.is_none());

    let bad_update = create_update_message(&vec![0xFF, 0xFF, 0xFF]);
    let out = handle_binary_frame(&mut room, &bad_update, &mut cadence);
    assert!(out.error.is_some());

    assert_eq!(cadence.count, 0);
    assert!(rx.recv(&room.bus).is_none());

    // The connection lives on: the next good frame flows as usual.
    let mut client = boardsync::doc::Document::new();
    client.store_element("ok", "1");
    let good = create_update_message(&encode_doc_state(&client));
    let out = handle_binary_frame(&mut room, &good, &mut cadence);
    assert!(out.error.is_none());
    assert_eq!(cadence.count, 1);
    assert_eq!(rx.recv(&room.bus).unwrap(), good);
}

#[test]
fn test_join_room_reports_refused_snapshot() {
    let mut manager = RoomManager::new();
    let board = uid();
    let joined = join_room(&mut manager, board, uid(), "First".to_string(),
        Some(vec![0xFF, 0xFF, 0xFF]));
    assert!(joined.load_error.is_some());
    assert!(element_keys(&manager.rooms[joined.room_index]).is_empty());
}

#[test]
fn test_color_palette_assignment() {
    assert_eq!(color_for(0), "#F44336");
    assert_eq!(color_for(1), "#2196F3");
    assert_eq!(color_for(7), "#3F51B5");
    assert_eq!(color_for(8), "#F44336");
}

#[test]
fn test_bus_order_preserved_for_two_receivers() {
    let mut room = Room::new(uid());
    let mut rx1 = room.bus.subscribe();
    let mut rx2 = room.bus.subscribe();
    for i in 0..10u8 {
        room.bus.publish(vec![i]);
    }
    let seen1: Vec<Vec<u8>> = (0..10).map(|_| rx1.recv(&room.bus).unwrap()).collect();
    let seen2: Vec<Vec<u8>> = (0..10).map(|_| rx2.recv(&room.bus).unwrap()).collect();
    assert_eq!(seen1, seen2);
    assert_eq!(seen1, (0..10u8).map(|i| vec![i]).collect::<Vec<_>>());
    assert!(rx1.recv(&room.bus).is_none());
}

#[test]
fn test_late_subscriber_sees_only_later_frames() {
    let mut room = Room::new(uid());
    room.bus.publish(b"early".to_vec());
    let mut rx = room.bus.subscribe();
    assert!(rx.recv(&room.bus).is_none());
    room.bus.publish(b"late".to_vec());
    assert_eq!(rx.recv(&room.bus).unwrap(), b"late");
}

#[test]
fn test_solo_echo_and_cadence_save() {
    // One client in a room publishes SYNC/UPDATE frames; each is echoed
    // back on the bus, and the hundredth triggers a snapshot.
    let mut manager = RoomManager::new();
    let board = uid();
    let user = uid();
    let joined = join_room(&mut manager, board, user, "Solo".to_string(), None);
    let i = joined.room_index;
    let mut rx = joined.rx;
    let mut cadence = SaveCadence::new();

    let mut client = boardsync::doc::Document::new();
    client.store_element("el1", "{\"id\":\"el1\",\"kind\":\"rect\"}");
    let frame = create_update_message(&encode_doc_state(&client));

    let mut saved: Option<Vec<u8>> = None;
    for n in 1..=100u32 {
        let out = handle_binary_frame(&mut manager.rooms[i], &frame, &mut cadence);
        assert!(out.error.is_none());
        if n < 100 {
            assert!(out.save.is_none());
        } else {
            saved = out.save;
        }
    }
    let saved = saved.expect("hundredth sync frame saves a snapshot");

    // The sender's own subscription observes the echoed bytes.
    let echoed = rx.recv(&manager.rooms[i].bus).unwrap();
    assert_eq!(echoed, frame);

    // A cold restart hydrated from the snapshot still holds el1.
    let mut manager2 = RoomManager::new();
    let j = join_room(&mut manager2, board, user, "Solo".to_string(), Some(saved)).room_index;
    assert_eq!(element_keys(&manager2.rooms[j]), vec!["el1".to_string()]);
}

#[test]
fn test_two_client_convergence_via_text_frames() {
    let mut manager = RoomManager::new();
    let board = uid();
    let i = join_room(&mut manager, board, uid(), "C1".to_string(), None).room_index;
    let raw_a = "{\"type\":\"element_add\",\"element\":{\"id\":\"a\"}}";
    let raw_b = "{\"type\":\"element_add\",\"element\":{\"id\":\"b\"}}";
    let save = handle_text_frame(&mut manager.rooms[i], parse_text_frame(raw_a), raw_a);
    assert!(save.is_none());
    let save = handle_text_frame(&mut manager.rooms[i], parse_text_frame(raw_b), raw_b);
    assert!(save.is_none());

    assert_eq!(element_keys(&manager.rooms[i]), vec!["a".to_string(), "b".to_string()]);

    // A snapshot replayed on a fresh document reproduces the same keys.
    let snap = encode_doc_state(&manager.rooms[i].doc);
    let mut fresh = boardsync::doc::Document::new();
    boardsync::sync::load_doc_state(&mut fresh, &snap).unwrap();
    let mut keys: Vec<String> = fresh.get_elements().into_iter().map(|(k, _)| k).collect();
    keys.sort();
    assert_eq!(keys, vec!["a".to_string(), "b".to_string()]);
}

#[test]
fn test_cold_room_hydration() {
    // Storage holds a snapshot with element x; the first client to join
    // sees x before any peer frame, and its STEP1 yields a STEP2 that
    // imports x.
    let mut donor = boardsync::doc::Document::new();
    donor.store_element("x", "{\"id\":\"x\"}");
    let stored = encode_doc_state(&donor);

    let mut manager = RoomManager::new();
    let board = uid();
    let i = join_room(&mut manager, board, uid(), "First".to_string(), Some(stored)).room_index;
    assert_eq!(element_keys(&manager.rooms[i]), vec!["x".to_string()]);

    let mut client = boardsync::doc::Document::new();
    let step1 = create_sync_step1(&client).unwrap();
    let step2 = handle_sync_message(&mut manager.rooms[i].doc, &step1).unwrap().unwrap();
    handle_sync_message(&mut client, &step2).unwrap();
    let keys: Vec<String> = client.get_elements().into_iter().map(|(k, _)| k).collect();
    assert_eq!(keys, vec!["x".to_string()]);
}

#[test]
fn test_eviction_on_last_disconnect() {
    let mut manager = RoomManager::new();
    let board = uid();
    let user = uid();
    let i = join_room(&mut manager, board, user, "Only".to_string(), None).room_index;
    let raw = "{\"type\":\"element_add\",\"element\":{\"id\":\"kept\"}}";
    handle_text_frame(&mut manager.rooms[i], parse_text_frame(raw), raw);

    let save = leave_room(&mut manager, board, user);
    let snapshot = save.expect("final snapshot is written when the room empties");
    assert!(manager.get_room(board).is_none());

    // A later join triggers a fresh load from the stored snapshot.
    let j = join_room(&mut manager, board, uid(), "Next".to_string(), Some(snapshot)).room_index;
    assert_eq!(element_keys(&manager.rooms[j]), vec!["kept".to_string()]);
}

#[test]
fn test_leave_keeps_room_with_remaining_members() {
    let mut manager = RoomManager::new();
    let board = uid();
    let u1 = uid();
    let u2 = uid();
    join_room(&mut manager, board, u1, "One".to_string(), None);
    join_room(&mut manager, board, u2, "Two".to_string(), None);
    let save = leave_room(&mut manager, board, u1);
    assert!(save.is_none());
    let i = manager.get_room(board).unwrap();
    assert_eq!(manager.rooms[i].user_count(), 1);
}

#[test]
fn test_overflow_resilience() {
    // A stalled receiver misses frames while thousands are published, yet
    // publishing never blocks; a fresh STEP1 then fully resynchronizes.
    let mut manager = RoomManager::new();
    let board = uid();
    let joined = join_room(&mut manager, board, uid(), "Fast".to_string(), None);
    let i = joined.room_index;
    let mut rx = joined.rx;
    let mut cadence = SaveCadence::new();

    let mut client = boardsync::doc::Document::new();
    for n in 0..7u32 {
        client.store_element(&format!("el{}", n), "{\"id\":\"x\"}");
    }
    let frame = create_update_message(&encode_doc_state(&client));
    for _ in 0..10_000u32 {
        handle_binary_frame(&mut manager.rooms[i], &frame, &mut cadence);
    }

    // The stalled receiver sees a truncated backlog, not the full 10000.
    let mut observed = 0usize;
    while rx.recv(&manager.rooms[i].bus).is_some() {
        observed += 1;
    }
    assert!(observed <= 256);

    // Resynchronize from scratch with a fresh handshake.
    let mut late = boardsync::doc::Document::new();
    let step1 = create_sync_step1(&late).unwrap();
    let step2 = handle_sync_message(&mut manager.rooms[i].doc, &step1).unwrap().unwrap();
    handle_sync_message(&mut late, &step2).unwrap();
    let mut want = manager.rooms[i].doc.get_elements();
    let mut got = late.get_elements();
    want.sort();
    got.sort();
    assert_eq!(want, got);
}

#[test]
fn test_save_request_snapshots_without_rebroadcast() {
    let mut room = Room::new(uid());
    room.doc.store_element("kept", "1");
    let mut rx = room.bus.subscribe();
    let raw = "{\"type\":\"save_request\"}";
    let msg = parse_text_frame(raw);
    assert!(matches!(msg, TextMsg::SaveRequest));
    let save = handle_text_frame(&mut room, msg, raw);
    let snap = save.expect("save_request yields a snapshot");
    assert!(!snap.is_empty());
    assert!(rx.recv(&room.bus).is_none());
}

#[test]
fn test_element_remove_text_frame() {
    let mut room = Room::new(uid());
    room.doc.store_element("doomed", "1");
    let raw = "{\"type\":\"element_remove\",\"elementId\":\"doomed\"}";
    let save = handle_text_frame(&mut room, parse_text_frame(raw), raw);
    assert!(save.is_none());
    assert!(element_keys(&room).is_empty());
}

#[test]
fn test_sync_state_merges_without_replacing() {
    let mut room = Room::new(uid());
    room.doc.store_element("old", "1");
    let raw = "{\"type\":\"sync_state\",\"elements\":[{\"id\":\"n1\"},{\"id\":\"n2\"},{\"x\":1}]}";
    let save = handle_text_frame(&mut room, parse_text_frame(raw), raw);
    assert!(save.is_none());
    assert_eq!(
        element_keys(&room),
        vec!["n1".to_string(), "n2".to_string(), "old".to_string()]
    );
}

#[test]
fn test_unknown_text_frame_is_rebroadcast_unchanged() {
    let mut room = Room::new(uid());
    let mut rx = room.bus.subscribe();
    let raw = "{\"type\":\"cursor\",\"x\":3}";
    let save = handle_text_frame(&mut room, parse_text_frame(raw), raw);
    assert!(save.is_none());
    assert!(element_keys(&room).is_empty());
    assert_eq!(rx.recv(&room.bus).unwrap(), raw.as_bytes().to_vec());
}

#[test]
fn test_awareness_frame_passthrough() {
    let mut room = Room::new(uid());
    let mut rx = room.bus.subscribe();
    let mut cadence = SaveCadence::new();
    let frame = vec![boardsync::sync::MSG_AWARENESS, 9, 9, 9];
    let out = handle_binary_frame(&mut room, &frame, &mut cadence);
    assert!(out.save.is_none());
    assert!(out.error.is_none());
    assert_eq!(cadence.count, 0);
    assert_eq!(rx.recv(&room.bus).unwrap(), frame);
    assert!(element_keys(&room).is_empty());
}
