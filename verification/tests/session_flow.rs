//! End-to-end session scenarios, driven through the per-connection state
//! machine with real channels standing in for the transport write loops.

use rps_lobby::hand::RPSHand;
use rps_lobby::messages::{
    GameLobbyRequest, GameLobbyResponse, Outbound, RoomError, UserMode,
};
use rps_lobby::registry::ConnectionRegistry;
use rps_lobby::session::{SessionDisposition, SessionEvent, SessionHandler, SessionState};
use rps_lobby::store::RoomStore;
use tokio::sync::mpsc::{unbounded_channel, UnboundedReceiver};

struct Conn {
    session: SessionHandler,
    rx: UnboundedReceiver<Outbound>,
}

fn connect(id: u64, registry: &mut ConnectionRegistry) -> Conn {
    let (tx, rx) = unbounded_channel();
    registry.register(id, tx);
    Conn { session: SessionHandler::new(id), rx }
}

#[test]
fn host_create_join_start_play_scenario() {
    let mut store = RoomStore::new();
    let mut registry = ConnectionRegistry::new();
    let mut host = connect(1, &mut registry);
    let mut player = connect(2, &mut registry);

    // Host creates a room and gets the code acknowledged to it alone.
    let o = host.session.handle_event(
        &mut store,
        &mut registry,
        SessionEvent::Inbound(GameLobbyRequest::HostNewGame {
            user_name: "hera".to_string(),
            user_type: UserMode::GameHost,
        }),
    );
    assert_eq!(o.disposition, SessionDisposition::Continue);
    assert_eq!(o.error, None);
    assert_eq!(o.notified, vec![1]);
    let code = match host.rx.try_recv().unwrap() {
        Outbound::RoomCreated { room_code } => room_code,
        other => panic!("expected the room-created acknowledgment, got {:?}", other),
    };
    assert_eq!(code.len(), 4);
    assert!(code.chars().all(|c| c.is_ascii_uppercase()));
    assert_eq!(host.session.state, SessionState::InLobby);
    // the membership broadcast reaches the host, and nobody else
    assert_eq!(
        host.rx.try_recv().unwrap(),
        Outbound::Protocol(GameLobbyResponse::PartyUpdate {
            room_code: code.clone(),
            users: vec!["hera".to_string()],
        })
    );
    assert!(player.rx.try_recv().is_err());

    // Player joins: both members receive the two-name party update.
    let o = player.session.handle_event(
        &mut store,
        &mut registry,
        SessionEvent::Inbound(GameLobbyRequest::UserLogin {
            user_name: "pat".to_string(),
            user_type: UserMode::GamePlayer,
            room_code: code.clone(),
        }),
    );
    assert_eq!(o.disposition, SessionDisposition::Continue);
    assert_eq!(o.notified, vec![1, 2]);
    let expected_update = Outbound::Protocol(GameLobbyResponse::PartyUpdate {
        room_code: code.clone(),
        users: vec!["hera".to_string(), "pat".to_string()],
    });
    assert_eq!(host.rx.try_recv().unwrap(), expected_update);
    assert_eq!(player.rx.try_recv().unwrap(), expected_update);

    // A non-host asking to start is refused without starting the game.
    let o = player.session.handle_event(
        &mut store,
        &mut registry,
        SessionEvent::Inbound(GameLobbyRequest::HostStartGame { room_code: code.clone() }),
    );
    assert_eq!(o.disposition, SessionDisposition::Continue);
    assert_eq!(o.error, Some(RoomError::Unauthorized));
    assert_eq!(
        player.rx.try_recv().unwrap(),
        Outbound::RequestFailed {
            room_code: Some(code.clone()),
            error: RoomError::Unauthorized,
        }
    );
    assert!(host.rx.try_recv().is_err());

    // The host starts the game: every member receives the start event.
    let o = host.session.handle_event(
        &mut store,
        &mut registry,
        SessionEvent::Inbound(GameLobbyRequest::HostStartGame { room_code: code.clone() }),
    );
    assert_eq!(o.error, None);
    assert_eq!(o.notified, vec![1, 2]);
    let expected_start =
        Outbound::Protocol(GameLobbyResponse::GameStart { room_code: code.clone() });
    assert_eq!(host.rx.try_recv().unwrap(), expected_start);
    assert_eq!(player.rx.try_recv().unwrap(), expected_start);
    assert_eq!(host.session.state, SessionState::InGame);

    // The player plays a hand: the server's counter-hand goes to the acting
    // player alone.
    let o = player.session.handle_event(
        &mut store,
        &mut registry,
        SessionEvent::Inbound(GameLobbyRequest::PlayerHand {
            user_name: "pat".to_string(),
            room_code: code.clone(),
            hand: RPSHand::Rock,
        }),
    );
    assert_eq!(o.error, None);
    match player.rx.try_recv().unwrap() {
        Outbound::Protocol(GameLobbyResponse::ServerHand { hand: _ }) => {},
        other => panic!("expected the server's hand, got {:?}", other),
    }
    assert!(host.rx.try_recv().is_err());
    assert_eq!(player.session.state, SessionState::InGame);
}

#[test]
fn login_with_unused_code_closes_session_without_mutation() {
    let mut store = RoomStore::new();
    let mut registry = ConnectionRegistry::new();
    let mut host = connect(1, &mut registry);
    let mut player = connect(2, &mut registry);
    host.session.handle_event(
        &mut store,
        &mut registry,
        SessionEvent::Inbound(GameLobbyRequest::HostNewGame {
            user_name: "hera".to_string(),
            user_type: UserMode::GameHost,
        }),
    );
    let code = match host.rx.try_recv().unwrap() {
        Outbound::RoomCreated { room_code } => room_code,
        other => panic!("expected the room-created acknowledgment, got {:?}", other),
    };
    host.rx.try_recv().unwrap();

    let bogus = "!!!!".to_string();
    let o = player.session.handle_event(
        &mut store,
        &mut registry,
        SessionEvent::Inbound(GameLobbyRequest::UserLogin {
            user_name: "pat".to_string(),
            user_type: UserMode::GamePlayer,
            room_code: bogus.clone(),
        }),
    );
    assert_eq!(o.disposition, SessionDisposition::CloseSelf);
    assert_eq!(o.error, Some(RoomError::RoomNotFound));
    assert_eq!(player.session.state, SessionState::Closed);
    assert_eq!(
        player.rx.try_recv().unwrap(),
        Outbound::RequestFailed { room_code: Some(bogus), error: RoomError::RoomNotFound }
    );
    // the store is untouched: the host's room still holds the host alone
    let mut store2 = store;
    let names = store2.start_game(&code).unwrap();
    assert_eq!(names, vec!["hera".to_string()]);
    assert!(host.rx.try_recv().is_err());
}

#[test]
fn malformed_frames_are_ignored_and_logged() {
    let mut store = RoomStore::new();
    let mut registry = ConnectionRegistry::new();
    let mut conn = connect(1, &mut registry);
    let o = conn.session.handle_event(&mut store, &mut registry, SessionEvent::Malformed);
    assert_eq!(o.disposition, SessionDisposition::Continue);
    assert_eq!(o.error, Some(RoomError::MalformedMessage));
    assert_eq!(conn.session.state, SessionState::Unjoined);
    assert!(conn.rx.try_recv().is_err());
}

#[test]
fn host_disconnect_cascades_to_the_whole_room() {
    let mut store = RoomStore::new();
    let mut registry = ConnectionRegistry::new();
    let mut host = connect(1, &mut registry);
    let mut p2 = connect(2, &mut registry);
    let mut p3 = connect(3, &mut registry);
    host.session.handle_event(
        &mut store,
        &mut registry,
        SessionEvent::Inbound(GameLobbyRequest::HostNewGame {
            user_name: "hera".to_string(),
            user_type: UserMode::GameHost,
        }),
    );
    let code = match host.rx.try_recv().unwrap() {
        Outbound::RoomCreated { room_code } => room_code,
        other => panic!("expected the room-created acknowledgment, got {:?}", other),
    };
    for (conn, name) in [(&mut p2, "ann"), (&mut p3, "ben")] {
        conn.session.handle_event(
            &mut store,
            &mut registry,
            SessionEvent::Inbound(GameLobbyRequest::UserLogin {
                user_name: name.to_string(),
                user_type: UserMode::GamePlayer,
                room_code: code.clone(),
            }),
        );
    }

    let o = host.session.handle_event(&mut store, &mut registry, SessionEvent::TransportClosed);
    assert_eq!(o.disposition, SessionDisposition::CloseSelf);
    assert_eq!(o.force_close, vec![2, 3]);
    assert_eq!(host.session.state, SessionState::Closed);
    assert!(!store.has_room(&code));
    // every remaining member was told the room closed, then unregistered
    let notice = Outbound::RoomClosed { room_code: code.clone() };
    loop {
        match p2.rx.try_recv() {
            Ok(m) if m == notice => break,
            Ok(_) => continue,
            Err(e) => panic!("no room-closed notice reached ann: {:?}", e),
        }
    }
    loop {
        match p3.rx.try_recv() {
            Ok(m) if m == notice => break,
            Ok(_) => continue,
            Err(e) => panic!("no room-closed notice reached ben: {:?}", e),
        }
    }
    assert!(!registry.is_registered(1));
    assert!(!registry.is_registered(2));
    assert!(!registry.is_registered(3));
}

#[test]
fn player_disconnect_leaves_room_intact() {
    let mut store = RoomStore::new();
    let mut registry = ConnectionRegistry::new();
    let mut host = connect(1, &mut registry);
    let mut player = connect(2, &mut registry);
    host.session.handle_event(
        &mut store,
        &mut registry,
        SessionEvent::Inbound(GameLobbyRequest::HostNewGame {
            user_name: "hera".to_string(),
            user_type: UserMode::GameHost,
        }),
    );
    let code = match host.rx.try_recv().unwrap() {
        Outbound::RoomCreated { room_code } => room_code,
        other => panic!("expected the room-created acknowledgment, got {:?}", other),
    };
    player.session.handle_event(
        &mut store,
        &mut registry,
        SessionEvent::Inbound(GameLobbyRequest::UserLogin {
            user_name: "pat".to_string(),
            user_type: UserMode::GamePlayer,
            room_code: code.clone(),
        }),
    );

    let o = player.session.handle_event(&mut store, &mut registry, SessionEvent::TransportClosed);
    assert_eq!(o.disposition, SessionDisposition::CloseSelf);
    assert!(o.force_close.is_empty());
    assert!(store.has_room(&code));
    assert!(!registry.is_registered(2));
    assert!(registry.is_registered(1));
    // a later broadcast no longer addresses the departed player
    let sent = store.broadcast(
        &registry,
        &code,
        &Outbound::Protocol(GameLobbyResponse::GameStart { room_code: code.clone() }),
    );
    assert_eq!(sent, vec![1]);
}

#[test]
fn requests_out_of_lifecycle_order_are_refused() {
    let mut store = RoomStore::new();
    let mut registry = ConnectionRegistry::new();
    let mut host = connect(1, &mut registry);
    host.session.handle_event(
        &mut store,
        &mut registry,
        SessionEvent::Inbound(GameLobbyRequest::HostNewGame {
            user_name: "hera".to_string(),
            user_type: UserMode::GameHost,
        }),
    );
    // creating a second room from the same session is refused
    let o = host.session.handle_event(
        &mut store,
        &mut registry,
        SessionEvent::Inbound(GameLobbyRequest::HostNewGame {
            user_name: "hera".to_string(),
            user_type: UserMode::GameHost,
        }),
    );
    assert_eq!(o.error, Some(RoomError::Unauthorized));
    assert_eq!(o.disposition, SessionDisposition::Continue);
}
