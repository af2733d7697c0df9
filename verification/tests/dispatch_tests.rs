use type_arena::machine::TypeArenaState;
use type_arena::protocol::{Message, Operation};
use type_arena::room::RoomStatus;
use type_arena::TypeArenaError;

const ROOM: u64 = 7;
const HOST: u64 = 1;
const HOST_CHAIN: u64 = 10;

fn hosted_lobby() -> TypeArenaState {
    let mut state = TypeArenaState::new();
    state
        .create_room(ROOM, 4, 3, HOST, HOST_CHAIN, "Alice".to_string(), 100)
        .unwrap();
    state
}

#[test]
fn a_fatal_creation_error_propagates_through_the_dispatcher() {
    let mut state = hosted_lobby();
    let outcome = state.execute_operation(
        Operation::CreateRoom { room_id: ROOM, max_players: 4, rounds: 3 },
        HOST,
        "Alice".to_string(),
        HOST_CHAIN,
        200,
        0,
    );
    assert!(matches!(outcome, Err(TypeArenaError::RoomAlreadyExists)));
}

#[test]
fn a_fatal_start_error_propagates_through_the_dispatcher() {
    let mut state = hosted_lobby();
    let outcome = state.execute_operation(
        Operation::StartGame { room_id: ROOM },
        HOST,
        "Alice".to_string(),
        HOST_CHAIN,
        200,
        0,
    );
    assert!(matches!(outcome, Err(TypeArenaError::NotEnoughPlayers)));
}

#[test]
fn a_join_message_is_idempotent() {
    let mut state = hosted_lobby();
    let joined = Message::PlayerJoined {
        room_id: ROOM,
        player: 2,
        player_chain_id: 20,
        player_name: "Bob".to_string(),
    };
    state.execute_message(joined, HOST_CHAIN, 200, 0);
    let again = Message::PlayerJoined {
        room_id: ROOM,
        player: 2,
        player_chain_id: 20,
        player_name: "Bob".to_string(),
    };
    let out = state.execute_message(again, HOST_CHAIN, 210, 0);
    assert!(out.is_empty());
    assert_eq!(state.rooms.get(&ROOM).unwrap().players.len(), 2);
}

#[test]
fn a_duplicate_result_message_is_swallowed() {
    let mut state = hosted_lobby();
    state.handle_player_joined(ROOM, 2, 20, "Bob".to_string(), HOST_CHAIN);
    state.start_game(ROOM, HOST, HOST_CHAIN, 200, 0).unwrap();
    let submitted = Message::ResultSubmitted {
        room_id: ROOM,
        player: 2,
        wpm: 50,
        accuracy: 100,
        time_ms: 31_000,
    };
    state.execute_message(submitted, HOST_CHAIN, 250, 6);
    let again = Message::ResultSubmitted {
        room_id: ROOM,
        player: 2,
        wpm: 90,
        accuracy: 100,
        time_ms: 21_000,
    };
    let out = state.execute_message(again, HOST_CHAIN, 260, 7);
    assert!(out.is_empty());
    let room = state.rooms.get(&ROOM).unwrap();
    assert_eq!(room.round_results.len(), 1);
    assert_eq!(room.round_results[0].score, 50);
    assert_eq!(state.player_stats.get(&2).unwrap().rounds_played, 1);
}

#[test]
fn a_round_ended_notice_without_a_prompt_is_swallowed() {
    let mut state = hosted_lobby();
    state.handle_player_joined(ROOM, 2, 20, "Bob".to_string(), HOST_CHAIN);
    state.start_game(ROOM, HOST, HOST_CHAIN, 200, 0).unwrap();
    state.handle_round_ended(ROOM, 1, Vec::new(), None, 300);
    assert_eq!(state.rooms.get(&ROOM).unwrap().current_round, 1);
}

#[test]
fn a_round_ended_notice_advances_a_replica() {
    let mut state = hosted_lobby();
    state.handle_player_joined(ROOM, 2, 20, "Bob".to_string(), HOST_CHAIN);
    state.start_game(ROOM, HOST, HOST_CHAIN, 200, 0).unwrap();
    state.handle_round_ended(ROOM, 1, Vec::new(), Some("next up".to_string()), 300);
    let room = state.rooms.get(&ROOM).unwrap();
    assert_eq!(room.current_round, 2);
    assert!(room.round_results.is_empty());
    assert_eq!(room.current_prompt, Some("next up".to_string()));
    assert_eq!(room.round_start_time, Some(300));
}

#[test]
fn a_game_ended_notice_needs_the_last_round() {
    let mut state = hosted_lobby();
    state.handle_player_joined(ROOM, 2, 20, "Bob".to_string(), HOST_CHAIN);
    state.start_game(ROOM, HOST, HOST_CHAIN, 200, 0).unwrap();
    // Round one of three: a game-ended notice cannot fit yet.
    state.handle_game_ended(ROOM, Vec::new(), HOST);
    assert_eq!(state.rooms.get(&ROOM).unwrap().status, RoomStatus::InProgress);
    state.handle_round_ended(ROOM, 1, Vec::new(), Some("a".to_string()), 300);
    state.handle_round_ended(ROOM, 2, Vec::new(), Some("b".to_string()), 400);
    state.handle_game_ended(ROOM, Vec::new(), HOST);
    assert_eq!(state.rooms.get(&ROOM).unwrap().status, RoomStatus::Finished);
}

#[test]
fn a_stale_game_started_notice_cannot_rewind_a_finished_room() {
    let mut state = hosted_lobby();
    state.handle_player_joined(ROOM, 2, 20, "Bob".to_string(), HOST_CHAIN);
    state.start_game(ROOM, HOST, HOST_CHAIN, 200, 0).unwrap();
    state.handle_round_ended(ROOM, 1, Vec::new(), Some("a".to_string()), 300);
    state.handle_round_ended(ROOM, 2, Vec::new(), Some("b".to_string()), 400);
    state.handle_game_ended(ROOM, Vec::new(), HOST);
    assert_eq!(state.rooms.get(&ROOM).unwrap().status, RoomStatus::Finished);
    // A duplicate of the old game-started notice arrives late.
    state.handle_game_started(ROOM, "a".to_string(), 1, 200);
    assert_eq!(state.rooms.get(&ROOM).unwrap().status, RoomStatus::Finished);
}

#[test]
fn requests_issued_elsewhere_leave_the_local_state_untouched() {
    let mut state = TypeArenaState::new();
    state
        .execute_operation(
            Operation::JoinRoom { room_id: ROOM, host_chain_id: HOST_CHAIN, player_name: "Bob".to_string() },
            2,
            "Bob".to_string(),
            20,
            200,
            0,
        )
        .unwrap();
    state
        .execute_operation(
            Operation::SubmitResult {
                room_id: ROOM,
                host_chain_id: HOST_CHAIN,
                wpm: 50,
                accuracy: 100,
                time_ms: 31_000,
            },
            2,
            "Bob".to_string(),
            20,
            210,
            0,
        )
        .unwrap();
    state
        .execute_operation(
            Operation::LeaveRoom { room_id: ROOM, host_chain_id: HOST_CHAIN },
            2,
            "Bob".to_string(),
            20,
            220,
            0,
        )
        .unwrap();
    assert!(state.rooms.is_empty());
    assert!(state.player_stats.is_empty());
    assert_eq!(state.total_games, 0);
}
