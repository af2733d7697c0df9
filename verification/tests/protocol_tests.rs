use type_arena::machine::TypeArenaState;
use type_arena::prompts::get_random_prompt;
use type_arena::protocol::{recipients_for, Envelope, Message};
use type_arena::room::PlayerInfo;

fn member(owner: u64, chain_id: u64) -> PlayerInfo {
    PlayerInfo { owner, chain_id, display_name: format!("p{}", owner), is_ready: true }
}

#[test]
fn broadcasts_skip_the_senders_own_location() {
    let players = vec![member(1, 10), member(2, 20), member(3, 30)];
    assert_eq!(recipients_for(&players, 10), vec![20, 30]);
    assert_eq!(recipients_for(&players, 20), vec![10, 30]);
    assert_eq!(recipients_for(&players, 99), vec![10, 20, 30]);
    assert_eq!(recipients_for(&Vec::new(), 10), Vec::<u64>::new());
}

#[test]
fn prompts_are_deterministic_in_the_seed() {
    assert_eq!(get_random_prompt(3), get_random_prompt(3));
    assert_eq!(get_random_prompt(0), get_random_prompt(15));
    assert_eq!(get_random_prompt(1), get_random_prompt(16));
}

#[test]
fn prompts_come_from_the_fixed_bank() {
    assert_eq!(
        get_random_prompt(0),
        "The quick brown fox jumps over the lazy dog near the riverbank."
    );
    assert_eq!(
        get_random_prompt(14),
        "Precision typing separates the good players from the great ones."
    );
    let mut seed: u16 = 0;
    while seed < 256 {
        assert!(!get_random_prompt(seed as u8).is_empty());
        seed += 1;
    }
}

#[test]
fn a_join_issued_elsewhere_becomes_a_request_to_the_host() {
    let mut state = TypeArenaState::new();
    let out = state.join_room(7, 10, 2, 20, "Bob".to_string());
    assert!(state.rooms.is_empty());
    assert_eq!(out.len(), 1);
    match &out[0] {
        Envelope {
            recipients,
            message: Message::PlayerJoined { room_id, player, player_chain_id, player_name },
        } => {
            assert_eq!(recipients, &vec![10]);
            assert_eq!(*room_id, 7);
            assert_eq!(*player, 2);
            assert_eq!(*player_chain_id, 20);
            assert_eq!(player_name, "Bob");
        },
        _ => panic!("expected a join request"),
    }
}

#[test]
fn a_submission_issued_elsewhere_becomes_a_request_to_the_host() {
    let mut state = TypeArenaState::new();
    let out = state.submit_result(7, 10, 60, 90, 30_000, 2, 20, 250, 6);
    assert_eq!(out.len(), 1);
    match &out[0] {
        Envelope {
            recipients,
            message: Message::ResultSubmitted { room_id, player, wpm, accuracy, time_ms },
        } => {
            assert_eq!(recipients, &vec![10]);
            assert_eq!(*room_id, 7);
            assert_eq!(*player, 2);
            assert_eq!(*wpm, 60);
            assert_eq!(*accuracy, 90);
            assert_eq!(*time_ms, 30_000);
        },
        _ => panic!("expected a submission request"),
    }
}

#[test]
fn a_leave_issued_elsewhere_becomes_a_request_to_the_host() {
    let mut state = TypeArenaState::new();
    let out = state.leave_room(7, 10, 2, 20, 250, 6);
    assert_eq!(out.len(), 1);
    match &out[0] {
        Envelope { recipients, message: Message::PlayerLeft { room_id, player } } => {
            assert_eq!(recipients, &vec![10]);
            assert_eq!(*room_id, 7);
            assert_eq!(*player, 2);
        },
        _ => panic!("expected a leave request"),
    }
}
