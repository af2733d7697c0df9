use type_arena::room::{GameRoom, PlayerResult, RoomStatus};

fn lobby_of_two() -> GameRoom {
    let mut room = GameRoom::new(7, 1, 10, "Alice".to_string(), 2, 3, 500);
    room.players.push(type_arena::room::PlayerInfo {
        owner: 2,
        chain_id: 20,
        display_name: "Bob".to_string(),
        is_ready: true,
    });
    room.game_scores.push(type_arena::room::PlayerScore {
        player: 2,
        total_score: 0,
        rounds_completed: 0,
    });
    room
}

#[test]
fn a_new_room_is_a_lobby_with_its_host() {
    let room = GameRoom::new(7, 1, 10, "Alice".to_string(), 4, 5, 500);
    assert_eq!(room.room_id, 7);
    assert_eq!(room.host, 1);
    assert_eq!(room.host_chain_id, 10);
    assert_eq!(room.status, RoomStatus::Lobby);
    assert_eq!(room.max_players, 4);
    assert_eq!(room.total_rounds, 5);
    assert_eq!(room.current_round, 0);
    assert!(room.current_prompt.is_none());
    assert!(room.round_start_time.is_none());
    assert!(room.round_results.is_empty());
    assert_eq!(room.created_at, 500);
    assert_eq!(room.players.len(), 1);
    assert_eq!(room.players[0].owner, 1);
    assert_eq!(room.players[0].display_name, "Alice");
    assert!(room.players[0].is_ready);
    assert_eq!(room.game_scores.len(), 1);
    assert_eq!(room.game_scores[0].player, 1);
    assert_eq!(room.game_scores[0].total_score, 0);
    assert_eq!(room.game_scores[0].rounds_completed, 0);
}

#[test]
fn fullness_follows_the_configured_size() {
    let room = lobby_of_two();
    assert!(room.is_full());
    let roomy = GameRoom::new(8, 1, 10, "Alice".to_string(), 3, 3, 500);
    assert!(!roomy.is_full());
}

#[test]
fn membership_is_by_identity() {
    let room = lobby_of_two();
    assert!(room.has_player(&1));
    assert!(room.has_player(&2));
    assert!(!room.has_player(&3));
}

#[test]
fn a_member_location_is_found_by_identity() {
    let room = lobby_of_two();
    assert_eq!(room.get_player_chain(&1), Some(10));
    assert_eq!(room.get_player_chain(&2), Some(20));
    assert_eq!(room.get_player_chain(&3), None);
}

#[test]
fn all_results_submitted_compares_counts() {
    let mut room = lobby_of_two();
    assert!(!room.all_results_submitted());
    room.round_results.push(PlayerResult {
        player: 1,
        player_name: "Alice".to_string(),
        wpm: 60,
        accuracy: 90,
        time_ms: 1000,
        score: 48,
    });
    assert!(!room.all_results_submitted());
    room.round_results.push(PlayerResult {
        player: 2,
        player_name: "Bob".to_string(),
        wpm: 50,
        accuracy: 100,
        time_ms: 1100,
        score: 50,
    });
    assert!(room.all_results_submitted());
}

#[test]
fn a_snapshot_copies_every_field() {
    let mut room = lobby_of_two();
    room.round_results.push(PlayerResult {
        player: 1,
        player_name: "Alice".to_string(),
        wpm: 60,
        accuracy: 90,
        time_ms: 1000,
        score: 48,
    });
    room.current_prompt = Some("hello".to_string());
    let copy = room.snapshot();
    assert_eq!(copy.room_id, room.room_id);
    assert_eq!(copy.host, room.host);
    assert_eq!(copy.host_chain_id, room.host_chain_id);
    assert_eq!(copy.status, room.status);
    assert_eq!(copy.max_players, room.max_players);
    assert_eq!(copy.total_rounds, room.total_rounds);
    assert_eq!(copy.current_round, room.current_round);
    assert_eq!(copy.current_prompt, room.current_prompt);
    assert_eq!(copy.round_start_time, room.round_start_time);
    assert_eq!(copy.created_at, room.created_at);
    assert_eq!(copy.players.len(), room.players.len());
    assert_eq!(copy.players[1].display_name, "Bob");
    assert_eq!(copy.round_results.len(), 1);
    assert_eq!(copy.round_results[0].player_name, "Alice");
    assert_eq!(copy.round_results[0].score, 48);
    assert_eq!(copy.game_scores, room.game_scores);
}

#[test]
fn a_fresh_room_is_well_formed() {
    let room = GameRoom::new(7, 1, 10, "Alice".to_string(), 2, 3, 500);
    assert!(room.is_well_formed());
}

#[test]
fn integrity_check_rejects_a_broken_room() {
    // A room pretending to allow a single player.
    let mut room = GameRoom::new(7, 1, 10, "Alice".to_string(), 2, 3, 500);
    room.max_players = 1;
    assert!(!room.is_well_formed());

    // Duplicate membership.
    let mut room = lobby_of_two();
    room.players[1].owner = 1;
    assert!(!room.is_well_formed());

    // A lobby that claims a running round.
    let mut room = lobby_of_two();
    room.current_round = 1;
    assert!(!room.is_well_formed());

    // Misaligned cumulative scores.
    let mut room = lobby_of_two();
    room.game_scores[1].player = 9;
    assert!(!room.is_well_formed());

    // A submission from a non-member.
    let mut room = lobby_of_two();
    room.status = RoomStatus::InProgress;
    room.current_round = 1;
    room.current_prompt = Some("p".to_string());
    room.round_start_time = Some(1);
    room.round_results.push(PlayerResult {
        player: 9,
        player_name: "Mallory".to_string(),
        wpm: 1,
        accuracy: 1,
        time_ms: 1,
        score: 0,
    });
    assert!(!room.is_well_formed());
}
