use chess::network::{GameStatus, MoveInfo, NetworkMessage};
use chess::piece::Color;
use chess::server::{Binding, Recipient, Registry, Session, SessionError, MAX_CHAT, MAX_INACTIVE_SECS};

fn started_registry() -> (Registry, String) {
    let mut registry = Registry::new();
    let created = registry.negotiate(1, NetworkMessage::CreateGame { player_name: "alice".to_string() }, 10);
    let id = match created.bound {
        Some(Binding::White(id)) => id,
        other => panic!("unexpected binding {:?}", other),
    };
    assert_eq!(id.len(), 36);
    match &created.out[0].message {
        NetworkMessage::GameCreated { game_id } => assert_eq!(game_id, &id),
        other => panic!("unexpected reply {:?}", other),
    }
    let joined = registry.negotiate(
        2,
        NetworkMessage::JoinGame { game_id: id.clone(), player_name: "bob".to_string() },
        20,
    );
    assert!(matches!(joined.bound, Some(Binding::Black(_))));
    assert_eq!(joined.out.len(), 3);
    (registry, id)
}

#[test]
fn join_in_progress_rejected_spectate_replays_state() {
    let (mut registry, id) = started_registry();
    let i = registry.find(&id).unwrap();
    assert_eq!(registry.sessions[i].status, GameStatus::InProgress);
    let again = registry.join_game(&id, "carol".to_string(), 3, 30);
    assert!(matches!(again, Err(SessionError::Unavailable)));
    assert!(registry.sessions[i].spectators.is_empty());
    let out = registry.spectate_game(&id, "dave".to_string(), 4, 40).unwrap();
    let session = &registry.sessions[i];
    assert_eq!(session.spectators.len(), 1);
    assert!(matches!(out[0].message, NetworkMessage::SpectatorJoined { .. }));
    assert_eq!(out[1].to, Recipient::Connection(4));
    match &out[1].message {
        NetworkMessage::GameState { current_turn, game_over, .. } => {
            assert_eq!(*current_turn, Color::White);
            assert!(!game_over);
        },
        other => panic!("expected a snapshot, got {:?}", other),
    }
    assert_eq!(out.len(), 2 + session.chat_history.len());
    match &out[out.len() - 1].message {
        NetworkMessage::ChatMessage { sender, message, is_spectator } => {
            assert_eq!(sender, "System");
            assert_eq!(message, "dave joined as spectator");
            assert!(*is_spectator);
        },
        other => panic!("expected chat, got {:?}", other),
    }
    match &out[2].message {
        NetworkMessage::ChatMessage { message, .. } => assert_eq!(message, "bob joined as black"),
        other => panic!("expected chat, got {:?}", other),
    }
}

#[test]
fn unknown_session_is_not_found() {
    let mut registry = Registry::new();
    assert!(matches!(registry.join_game("nope", "x".to_string(), 1, 0), Err(SessionError::NotFound)));
    assert!(matches!(registry.spectate_game("nope", "x".to_string(), 1, 0), Err(SessionError::NotFound)));
    let r = registry.negotiate(1, NetworkMessage::JoinGame { game_id: "nope".to_string(), player_name: "x".to_string() }, 0);
    assert!(r.bound.is_none());
    assert!(r.out.is_empty());
}

fn started_session() -> Session {
    let mut session = Session::new("g1".to_string(), "alice".to_string(), 1, 100);
    assert!(session.seat_black(2, "bob".to_string()));
    let out = session.start(100);
    assert_eq!(out.len(), 3);
    session
}

#[test]
fn disconnected_side_forfeits_after_inactivity() {
    let mut session = started_session();
    session.player_disconnected(true);
    assert!(session.tick(100 + MAX_INACTIVE_SECS).is_empty());
    assert_eq!(session.status, GameStatus::InProgress);
    let out = session.tick(100 + MAX_INACTIVE_SECS + 1);
    assert_eq!(out.len(), 1);
    assert_eq!(out[0].to, Recipient::Everyone);
    match &out[0].message {
        NetworkMessage::GameEnd { reason } => assert_eq!(reason, "White player forfeited the game"),
        other => panic!("expected game end, got {:?}", other),
    }
    assert_eq!(session.status, GameStatus::Completed);
    assert!(session.game.is_game_over());
}

#[test]
fn everyone_gone_completes_session() {
    let mut session = started_session();
    session.player_disconnected(true);
    session.player_disconnected(false);
    assert!(session.tick(101).is_empty());
    assert_eq!(session.status, GameStatus::Completed);
}

#[test]
fn moves_only_from_side_to_move() {
    let mut session = started_session();
    let e4 = MoveInfo { from: (6, 4), to: (4, 4), promotion: None };
    assert!(session.handle_move(false, &e4, 110).is_empty());
    let out = session.handle_move(true, &e4, 110);
    assert_eq!(out.len(), 1);
    assert!(matches!(out[0].message, NetworkMessage::GameState { current_turn: Color::Black, .. }));
    let illegal = MoveInfo { from: (1, 4), to: (5, 4), promotion: None };
    assert!(session.handle_move(false, &illegal, 120).is_empty());
}

#[test]
fn second_player_cannot_join_twice() {
    let mut session = Session::new("g".to_string(), "a".to_string(), 1, 0);
    assert!(session.seat_black(2, "b".to_string()));
    assert!(!session.seat_black(3, "c".to_string()));
}

#[test]
fn draw_offer_and_acceptance() {
    let mut session = started_session();
    // accepting without an offer does nothing
    assert!(session.accept_draw(false, 110).is_empty());
    let out = session.offer_draw(true, 110);
    assert_eq!(out[0].to, Recipient::Black);
    assert_eq!(session.draw_offer, Some(Color::White));
    // the offering side cannot accept its own offer
    assert!(session.accept_draw(true, 111).is_empty());
    let out = session.accept_draw(false, 112);
    assert_eq!(out.len(), 4);
    match &out[3].message {
        NetworkMessage::GameEnd { reason } => assert_eq!(reason, "Draw agreed"),
        other => panic!("expected game end, got {:?}", other),
    }
    assert_eq!(session.status, GameStatus::Completed);
}

#[test]
fn resignation_ends_and_rematch_swaps_colors() {
    let mut session = started_session();
    let out = session.handle_player_message(false, NetworkMessage::Resign, 110);
    assert_eq!(out.len(), 3);
    match &out[2].message {
        NetworkMessage::GameEnd { reason } => assert_eq!(reason, "Black resigned"),
        other => panic!("expected game end, got {:?}", other),
    }
    assert_eq!(session.status, GameStatus::Completed);
    let out = session.request_rematch(true, 120);
    assert_eq!(out.len(), 1);
    assert_eq!(session.status, GameStatus::Completed);
    let out = session.request_rematch(false, 121);
    assert_eq!(out.len(), 4);
    assert_eq!(session.status, GameStatus::InProgress);
    assert_eq!(session.white.as_ref().unwrap().conn, 2);
    assert_eq!(session.black.as_ref().unwrap().conn, 1);
    assert_eq!(session.chat_history.len(), 1);
    assert_eq!(session.chat_history[0].message, "A new game has started");
    assert!(!session.game.is_game_over());
}

#[test]
fn chat_log_is_bounded() {
    let mut session = started_session();
    for i in 0..(MAX_CHAT + 5) {
        let out = session.handle_chat("bob".to_string(), format!("line {}", i), false, 200);
        assert_eq!(out.len(), 1);
    }
    assert_eq!(session.chat_history.len(), MAX_CHAT);
    assert_eq!(session.chat_history[MAX_CHAT - 1].message, format!("line {}", MAX_CHAT + 4));
}

#[test]
fn spectators_only_chat() {
    let mut session = started_session();
    assert!(session.handle_spectator_message(NetworkMessage::Resign, 110).is_empty());
    assert_eq!(session.status, GameStatus::InProgress);
    let out = session.handle_spectator_message(
        NetworkMessage::ChatMessage { sender: "eve".to_string(), message: "hi".to_string(), is_spectator: true },
        110,
    );
    assert_eq!(out.len(), 1);
}

#[test]
fn sweep_removes_completed_and_idle_sessions() {
    let mut registry = Registry::new();
    assert!(registry.open_session("a".to_string(), "x".to_string(), 1, 0));
    assert!(!registry.open_session("a".to_string(), "y".to_string(), 2, 0));
    assert!(registry.open_session("b".to_string(), "y".to_string(), 2, 1000));
    let removed = registry.sweep(1000);
    assert_eq!(removed, 1);
    assert_eq!(registry.sessions.len(), 1);
    assert_eq!(registry.sessions[0].id, "b");
    let list = registry.game_list();
    assert_eq!(list.len(), 1);
    assert_eq!(list[0].player_count, Some(1));
    assert_eq!(list[0].status, GameStatus::Waiting);
}

#[test]
fn unbound_connection_accepts_only_negotiation() {
    let mut registry = Registry::new();
    let r = registry.negotiate(1, NetworkMessage::Resign, 0);
    assert!(r.bound.is_none() && r.out.is_empty());
    let r = registry.negotiate(1, NetworkMessage::Heartbeat, 0);
    assert_eq!(r.out.len(), 1);
    let r = registry.negotiate(1, NetworkMessage::RequestGameList, 0);
    assert!(matches!(&r.out[0].message, NetworkMessage::GameList { available_games } if available_games.is_empty()));
}

#[test]
fn absent_player_forfeits_even_when_opponent_is_to_move() {
    let mut session = started_session();
    session.player_disconnected(false);
    assert_eq!(session.game.current_turn, Color::White);
    let out = session.tick(100 + MAX_INACTIVE_SECS + 1);
    assert_eq!(out.len(), 1);
    match &out[0].message {
        NetworkMessage::GameEnd { reason } => assert_eq!(reason, "Black player forfeited the game"),
        other => panic!("expected game end, got {:?}", other),
    }
    assert_eq!(session.status, GameStatus::Completed);
}

#[test]
fn late_spectator_gets_full_backlog_when_log_is_full() {
    let mut session = started_session();
    for i in 0..MAX_CHAT {
        session.handle_chat("bob".to_string(), format!("line {}", i), false, 200);
    }
    assert_eq!(session.chat_history.len(), MAX_CHAT);
    let out = session.add_spectator(9, "zed".to_string(), 210);
    assert_eq!(out.len(), 3 + MAX_CHAT);
    match &out[2].message {
        NetworkMessage::ChatMessage { message, .. } => assert_eq!(message, "line 0"),
        other => panic!("expected chat, got {:?}", other),
    }
    match &out[2 + MAX_CHAT].message {
        NetworkMessage::ChatMessage { message, .. } => assert_eq!(message, "zed joined as spectator"),
        other => panic!("expected chat, got {:?}", other),
    }
    assert_eq!(session.chat_history.len(), MAX_CHAT);
}

#[test]
fn rematch_starts_from_the_initial_position() {
    let mut session = started_session();
    let e4 = MoveInfo { from: (6, 4), to: (4, 4), promotion: None };
    assert_eq!(session.handle_move(true, &e4, 110).len(), 1);
    session.resign(false, 120);
    session.request_rematch(true, 121);
    session.request_rematch(false, 122);
    assert_eq!(session.status, GameStatus::InProgress);
    assert!(session.game.board[4][4].is_none());
    assert!(session.game.board[6][4].is_some());
    assert_eq!(session.game.fullmove_number, 1);
    assert_eq!(session.game.halfmove_clock, 0);
    assert!(session.game.white_can_castle_kingside);
}
