use type_arena::machine::TypeArenaState;
use type_arena::protocol::{Envelope, Message, Operation};
use type_arena::room::{GameRoom, RoomStatus};

const ROOM: u64 = 42;
const ALICE: u64 = 1;
const BOB: u64 = 2;
const HOST_CHAIN: u64 = 10;
const BOB_CHAIN: u64 = 20;

/// Deliver every envelope to the location it addresses, collecting what the
/// handlers emit in turn.
fn deliver(
    out: Vec<Envelope>,
    host: &mut TypeArenaState,
    replica: &mut TypeArenaState,
    now: u64,
    seed: u8,
) -> Vec<Envelope> {
    let mut emitted = Vec::new();
    for env in out {
        for dest in &env.recipients {
            let copy = reconstruct(&env.message);
            let own = *dest;
            let state = if own == HOST_CHAIN { &mut *host } else { &mut *replica };
            let mut more = state.execute_message(copy, own, now, seed);
            emitted.append(&mut more);
        }
    }
    emitted
}

/// The transport would serialize a message per recipient; rebuild an owned
/// copy the same way.
fn reconstruct(message: &Message) -> Message {
    match message {
        Message::PlayerJoined { room_id, player, player_chain_id, player_name } => {
            Message::PlayerJoined {
                room_id: *room_id,
                player: *player,
                player_chain_id: *player_chain_id,
                player_name: player_name.clone(),
            }
        },
        Message::GameStarted { room_id, prompt, round, start_time } => Message::GameStarted {
            room_id: *room_id,
            prompt: prompt.clone(),
            round: *round,
            start_time: *start_time,
        },
        Message::ResultSubmitted { room_id, player, wpm, accuracy, time_ms } => {
            Message::ResultSubmitted {
                room_id: *room_id,
                player: *player,
                wpm: *wpm,
                accuracy: *accuracy,
                time_ms: *time_ms,
            }
        },
        Message::RoundEnded { room_id, round, results, next_prompt } => Message::RoundEnded {
            room_id: *room_id,
            round: *round,
            results: results.iter().map(|r| type_arena::room::PlayerResult {
                player: r.player,
                player_name: r.player_name.clone(),
                wpm: r.wpm,
                accuracy: r.accuracy,
                time_ms: r.time_ms,
                score: r.score,
            }).collect(),
            next_prompt: next_prompt.clone(),
        },
        Message::GameEnded { room_id, final_standings, winner } => Message::GameEnded {
            room_id: *room_id,
            final_standings: final_standings.iter().map(|r| type_arena::room::PlayerResult {
                player: r.player,
                player_name: r.player_name.clone(),
                wpm: r.wpm,
                accuracy: r.accuracy,
                time_ms: r.time_ms,
                score: r.score,
            }).collect(),
            winner: *winner,
        },
        Message::PlayerLeft { room_id, player } => Message::PlayerLeft {
            room_id: *room_id,
            player: *player,
        },
        Message::SyncState { room_id, room } => Message::SyncState {
            room_id: *room_id,
            room: room.snapshot(),
        },
    }
}

#[test]
fn a_full_two_player_two_round_game() {
    let mut host = TypeArenaState::new();
    let mut replica = TypeArenaState::new();

    // Alice creates a room for two players and two rounds on her location.
    let out = host
        .execute_operation(
            Operation::CreateRoom { room_id: ROOM, max_players: 2, rounds: 2 },
            ALICE,
            "Alice".to_string(),
            HOST_CHAIN,
            1_000,
            0,
        )
        .unwrap();
    assert!(out.is_empty());

    // Bob joins from his own location: the request travels to the host, and
    // the host answers with a snapshot that creates Bob's replica.
    let out = replica
        .execute_operation(
            Operation::JoinRoom { room_id: ROOM, host_chain_id: HOST_CHAIN, player_name: "Bob".to_string() },
            BOB,
            "Bob".to_string(),
            BOB_CHAIN,
            1_100,
            0,
        )
        .unwrap();
    let out = deliver(out, &mut host, &mut replica, 1_200, 0);
    let out = deliver(out, &mut host, &mut replica, 1_300, 0);
    assert!(out.is_empty());
    assert_eq!(replica.rooms.get(&ROOM).unwrap().players.len(), 2);

    // Alice starts the game.
    let out = host
        .execute_operation(
            Operation::StartGame { room_id: ROOM },
            ALICE,
            "Alice".to_string(),
            HOST_CHAIN,
            2_000,
            3,
        )
        .unwrap();
    let out = deliver(out, &mut host, &mut replica, 2_050, 0);
    assert!(out.is_empty());
    let replica_room = replica.rooms.get(&ROOM).unwrap();
    assert_eq!(replica_room.status, RoomStatus::InProgress);
    assert_eq!(replica_room.current_round, 1);
    let first_prompt = replica_room.current_prompt.clone().unwrap();

    // Round one: Alice types 60 wpm at 90 percent, Bob 50 wpm at 100.
    let out = host
        .execute_operation(
            Operation::SubmitResult { room_id: ROOM, host_chain_id: HOST_CHAIN, wpm: 60, accuracy: 90, time_ms: 30_000 },
            ALICE,
            "Alice".to_string(),
            HOST_CHAIN,
            2_100,
            4,
        )
        .unwrap();
    assert!(out.is_empty());
    assert_eq!(host.rooms.get(&ROOM).unwrap().round_results[0].score, 48);

    let out = replica
        .execute_operation(
            Operation::SubmitResult { room_id: ROOM, host_chain_id: HOST_CHAIN, wpm: 50, accuracy: 100, time_ms: 31_000 },
            BOB,
            "Bob".to_string(),
            BOB_CHAIN,
            2_200,
            5,
        )
        .unwrap();
    let out = deliver(out, &mut host, &mut replica, 2_300, 6);
    // The round ended: round two starts with a fresh prompt everywhere.
    let host_room = host.rooms.get(&ROOM).unwrap();
    assert_eq!(host_room.current_round, 2);
    assert_eq!(host_room.game_scores[0].total_score, 48);
    assert_eq!(host_room.game_scores[1].total_score, 50);
    let second_prompt = host_room.current_prompt.clone().unwrap();
    assert_eq!(second_prompt, type_arena::prompts::get_random_prompt(6));
    let out = deliver(out, &mut host, &mut replica, 2_350, 0);
    assert!(out.is_empty());
    let replica_room = replica.rooms.get(&ROOM).unwrap();
    assert_eq!(replica_room.current_round, 2);
    assert_eq!(replica_room.current_prompt.clone().unwrap(), second_prompt);
    let _ = first_prompt;

    // Round two: Alice pulls ahead.
    let out = host
        .execute_operation(
            Operation::SubmitResult { room_id: ROOM, host_chain_id: HOST_CHAIN, wpm: 70, accuracy: 80, time_ms: 29_000 },
            ALICE,
            "Alice".to_string(),
            HOST_CHAIN,
            3_100,
            7,
        )
        .unwrap();
    assert!(out.is_empty());
    let out = replica
        .execute_operation(
            Operation::SubmitResult { room_id: ROOM, host_chain_id: HOST_CHAIN, wpm: 40, accuracy: 100, time_ms: 33_000 },
            BOB,
            "Bob".to_string(),
            BOB_CHAIN,
            3_200,
            8,
        )
        .unwrap();
    let out = deliver(out, &mut host, &mut replica, 3_300, 9);

    // The game is over on the host: Alice won 92 to 90.
    let host_room = host.rooms.get(&ROOM).unwrap();
    assert_eq!(host_room.status, RoomStatus::Finished);
    assert_eq!(host_room.game_scores[0].total_score, 92);
    assert_eq!(host_room.game_scores[1].total_score, 90);
    assert_eq!(host.total_games, 1);
    let alice_stats = host.player_stats.get(&ALICE).unwrap();
    assert_eq!(alice_stats.games_played, 1);
    assert_eq!(alice_stats.games_won, 1);
    assert_eq!(alice_stats.rounds_played, 2);
    let bob_stats = host.player_stats.get(&BOB).unwrap();
    assert_eq!(bob_stats.games_played, 1);
    assert_eq!(bob_stats.games_won, 0);

    // The game-ended notice finishes Bob's replica too.
    let out = deliver(out, &mut host, &mut replica, 3_400, 0);
    assert!(out.is_empty());
    assert_eq!(replica.rooms.get(&ROOM).unwrap().status, RoomStatus::Finished);
}

#[test]
fn replica_notices_tolerate_unknown_rooms() {
    let mut state = TypeArenaState::new();
    state.handle_game_started(ROOM, "p".to_string(), 1, 100);
    state.handle_round_ended(ROOM, 1, Vec::new(), Some("p".to_string()), 200);
    state.handle_game_ended(ROOM, Vec::new(), ALICE);
    assert!(state.rooms.is_empty());
    assert!(state.player_stats.is_empty());
    assert_eq!(state.total_games, 0);
}

#[test]
fn a_snapshot_replaces_the_local_copy_wholesale() {
    let mut state = TypeArenaState::new();
    let mut room = GameRoom::new(ROOM, ALICE, HOST_CHAIN, "Alice".to_string(), 2, 2, 100);
    room.players.push(type_arena::room::PlayerInfo {
        owner: BOB,
        chain_id: BOB_CHAIN,
        display_name: "Bob".to_string(),
        is_ready: true,
    });
    room.game_scores.push(type_arena::room::PlayerScore {
        player: BOB,
        total_score: 0,
        rounds_completed: 0,
    });
    state.handle_sync_state(ROOM, room);
    assert_eq!(state.rooms.get(&ROOM).unwrap().players.len(), 2);
}

#[test]
fn a_malformed_snapshot_is_swallowed() {
    let mut state = TypeArenaState::new();
    let mut room = GameRoom::new(ROOM, ALICE, HOST_CHAIN, "Alice".to_string(), 2, 2, 100);
    room.max_players = 0;
    state.handle_sync_state(ROOM, room);
    assert!(state.rooms.is_empty());

    // A snapshot filed under a foreign key is swallowed too.
    let room = GameRoom::new(ROOM, ALICE, HOST_CHAIN, "Alice".to_string(), 2, 2, 100);
    state.handle_sync_state(ROOM + 1, room);
    assert!(state.rooms.is_empty());
}

#[test]
fn a_stale_game_started_notice_is_swallowed() {
    let mut state = TypeArenaState::new();
    state
        .create_room(ROOM, 2, 2, ALICE, HOST_CHAIN, "Alice".to_string(), 100)
        .unwrap();
    // A round number beyond the configured rounds cannot be applied.
    state.handle_game_started(ROOM, "p".to_string(), 9, 200);
    assert_eq!(state.rooms.get(&ROOM).unwrap().status, RoomStatus::Lobby);
}
