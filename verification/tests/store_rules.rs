//! The room store: creation, joining, starting, round play, disconnects,
//! and broadcasts, observed through real channels.

use rps_lobby::hand::{RPSHand, RoundOutcome};
use rps_lobby::messages::{GameLobbyResponse, Outbound, RoomError, UserMode};
use rps_lobby::registry::ConnectionRegistry;
use rps_lobby::store::{Member, RoomStore};
use tokio::sync::mpsc::{unbounded_channel, UnboundedReceiver, UnboundedSender};

fn channel() -> (UnboundedSender<Outbound>, UnboundedReceiver<Outbound>) {
    unbounded_channel()
}

fn member(id: u64, name: &str, role: UserMode, tx: Option<UnboundedSender<Outbound>>) -> Member {
    Member {
        connection_id: id,
        display_name: name.to_string(),
        role,
        connected: true,
        outbound: tx,
    }
}

#[test]
fn created_room_exists_and_codes_are_distinct() {
    let mut store = RoomStore::new();
    let c1 = store.create_room(member(1, "ann", UserMode::GameHost, None));
    let c2 = store.create_room(member(2, "ben", UserMode::GameHost, None));
    let c3 = store.create_room(member(3, "cid", UserMode::GameHost, None));
    assert!(store.has_room(&c1));
    assert!(store.has_room(&c2));
    assert!(store.has_room(&c3));
    assert_ne!(c1, c2);
    assert_ne!(c1, c3);
    assert_ne!(c2, c3);
    assert_eq!(c1.len(), 4);
    assert!(c1.chars().all(|c| c.is_ascii_uppercase()));
}

#[test]
fn join_unknown_code_fails_without_mutation() {
    let mut store = RoomStore::new();
    let code = store.create_room(member(1, "host", UserMode::GameHost, None));
    let bogus = "~~~~".to_string();
    let r = store.join_room(&bogus, member(2, "player", UserMode::GamePlayer, None));
    assert_eq!(r, Err(RoomError::RoomNotFound));
    // the only room is untouched: its member list still holds the host alone
    let names = store.start_game(&code).unwrap();
    assert_eq!(names, vec!["host".to_string()]);
    assert!(!store.has_room(&bogus));
}

#[test]
fn join_after_start_fails_with_game_already_started() {
    let mut store = RoomStore::new();
    let code = store.create_room(member(1, "host", UserMode::GameHost, None));
    store.start_game(&code).unwrap();
    let r = store.join_room(&code, member(2, "late", UserMode::GamePlayer, None));
    assert_eq!(r, Err(RoomError::GameAlreadyStarted));
    // and the member list is unchanged
    let names = store.start_game(&code).unwrap();
    assert_eq!(names, vec!["host".to_string()]);
}

#[test]
fn n_joins_grow_member_list_to_n_plus_one() {
    let mut store = RoomStore::new();
    let code = store.create_room(member(1, "host", UserMode::GameHost, None));
    let mut last = Vec::new();
    for i in 0..5u64 {
        let name = format!("p{}", i);
        last = store
            .join_room(&code, member(10 + i, &name, UserMode::GamePlayer, None))
            .unwrap();
    }
    assert_eq!(last.len(), 6);
    assert_eq!(last[0], "host");
    for i in 0..5usize {
        assert_eq!(last[i + 1], format!("p{}", i));
    }
}

#[test]
fn start_game_is_idempotent() {
    let mut store = RoomStore::new();
    let code = store.create_room(member(1, "host", UserMode::GameHost, None));
    store.join_room(&code, member(2, "ann", UserMode::GamePlayer, None)).unwrap();
    let first = store.start_game(&code).unwrap();
    let second = store.start_game(&code).unwrap();
    assert_eq!(first, second);
    assert_eq!(first, vec!["host".to_string(), "ann".to_string()]);
}

#[test]
fn start_unknown_room_fails() {
    let mut store = RoomStore::new();
    assert_eq!(store.start_game(&"ABCD".to_string()), Err(RoomError::RoomNotFound));
}

#[test]
fn play_round_resolves_against_server_hand() {
    let mut store = RoomStore::new();
    let code = store.create_room(member(1, "host", UserMode::GameHost, None));
    store.join_room(&code, member(2, "ann", UserMode::GamePlayer, None)).unwrap();
    for _ in 0..20 {
        let rr = store.play_round(&code, 2, RPSHand::Rock).unwrap();
        assert_eq!(rr.connection_id, 2);
        assert_eq!(rr.player_hand, RPSHand::Rock);
        let expected = match rr.server_hand {
            RPSHand::Rock => RoundOutcome::Draw,
            RPSHand::Paper => RoundOutcome::ServerWins,
            RPSHand::Scissors => RoundOutcome::PlayerWins,
        };
        assert_eq!(rr.outcome, expected);
    }
}

#[test]
fn play_round_reports_missing_room_and_member() {
    let mut store = RoomStore::new();
    let code = store.create_room(member(1, "host", UserMode::GameHost, None));
    assert_eq!(
        store.play_round(&"QQQQ".to_string(), 1, RPSHand::Rock).unwrap_err(),
        RoomError::RoomNotFound
    );
    assert_eq!(
        store.play_round(&code, 99, RPSHand::Rock).unwrap_err(),
        RoomError::MemberNotFound
    );
}

#[test]
fn host_disconnect_deletes_room_and_plans_other_connected_members() {
    let mut store = RoomStore::new();
    let code = store.create_room(member(1, "host", UserMode::GameHost, None));
    store.join_room(&code, member(2, "ann", UserMode::GamePlayer, None)).unwrap();
    store.join_room(&code, member(3, "ben", UserMode::GamePlayer, None)).unwrap();
    // ben disconnects first, so the host's plan must not cover it
    let p = store.remove_connection(3);
    assert!(!p.host_left);
    let plan = store.remove_connection(1);
    assert!(plan.host_left);
    assert_eq!(plan.room_code, Some(code.clone()));
    assert_eq!(plan.to_disconnect, vec![2]);
    assert!(!store.has_room(&code));
}

#[test]
fn player_disconnect_keeps_room_and_other_members() {
    let mut store = RoomStore::new();
    let code = store.create_room(member(1, "host", UserMode::GameHost, None));
    store.join_room(&code, member(2, "ann", UserMode::GamePlayer, None)).unwrap();
    let plan = store.remove_connection(2);
    assert!(!plan.host_left);
    assert_eq!(plan.room_code, None);
    assert!(plan.to_disconnect.is_empty());
    assert!(store.has_room(&code));
    // the member list keeps its join order, the host intact
    let names = store.start_game(&code).unwrap();
    assert_eq!(names, vec!["host".to_string(), "ann".to_string()]);
}

#[test]
fn remove_unknown_connection_is_a_no_op() {
    let mut store = RoomStore::new();
    let code = store.create_room(member(1, "host", UserMode::GameHost, None));
    let plan = store.remove_connection(42);
    assert!(!plan.host_left);
    assert_eq!(plan.room_code, None);
    assert!(plan.to_disconnect.is_empty());
    assert!(store.has_room(&code));
}

#[test]
fn broadcast_reaches_connected_members_only() {
    let mut store = RoomStore::new();
    let mut registry = ConnectionRegistry::new();
    let (tx1, mut rx1) = channel();
    let (tx2, mut rx2) = channel();
    let (tx3, mut rx3) = channel();
    registry.register(1, tx1.clone());
    registry.register(2, tx2.clone());
    registry.register(3, tx3.clone());
    let code = store.create_room(member(1, "host", UserMode::GameHost, Some(tx1)));
    store.join_room(&code, member(2, "ann", UserMode::GamePlayer, Some(tx2))).unwrap();
    store.join_room(&code, member(3, "ben", UserMode::GamePlayer, Some(tx3))).unwrap();
    // ann disconnects: marked disconnected, room persists
    store.remove_connection(2);
    let msg = Outbound::Protocol(GameLobbyResponse::GameStart { room_code: code.clone() });
    let sent = store.broadcast(&registry, &code, &msg);
    assert_eq!(sent, vec![1, 3]);
    assert_eq!(rx1.try_recv().unwrap(), msg);
    assert_eq!(rx3.try_recv().unwrap(), msg);
    assert!(rx2.try_recv().is_err());
    // nothing outside the room is addressed
    let sent_nowhere = store.broadcast(&registry, &"ZZZZ".to_string(), &msg);
    assert!(sent_nowhere.is_empty());
}

#[test]
fn registry_send_is_dropped_for_absent_ids() {
    let mut registry = ConnectionRegistry::new();
    let (tx, mut rx) = channel();
    registry.register(7, tx);
    assert!(registry.is_registered(7));
    let delivered = registry.send(
        7,
        Outbound::RoomCreated { room_code: "ABCD".to_string() },
    );
    assert!(delivered);
    assert_eq!(
        rx.try_recv().unwrap(),
        Outbound::RoomCreated { room_code: "ABCD".to_string() }
    );
    assert!(!registry.send(8, Outbound::RoomCreated { room_code: "ABCD".to_string() }));
    registry.unregister(7);
    assert!(!registry.is_registered(7));
    assert!(!registry.send(7, Outbound::RoomCreated { room_code: "ABCD".to_string() }));
    // unregistering an absent id is a no-op, not an error
    registry.unregister(7);
}
