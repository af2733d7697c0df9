//! The replication protocol: operations issued locally and the message kinds
//! exchanged one-way between locations.

use vstd::prelude::*;

use crate::room::{GameRoom, GameRoomView, PlayerInfo, PlayerInfoView, PlayerResult, PlayerResultView};
use crate::{AccountOwner, ChainId, RoomId, Timestamp};

verus! {

/// An operation a participant issues on its own location. When the local
/// location is not authoritative for the room, the operation is forwarded to
/// the host location as a message.
#[derive(Debug)]
pub enum Operation {
    /// Create a new game room, hosted on the local location.
    CreateRoom { room_id: RoomId, max_players: u8, rounds: u8 },
    /// Join an existing room hosted at `host_chain_id`.
    JoinRoom { room_id: RoomId, host_chain_id: ChainId, player_name: String },
    /// Start the game (host only).
    StartGame { room_id: RoomId },
    /// Submit the typing result for the current round.
    SubmitResult {
        room_id: RoomId,
        host_chain_id: ChainId,
        wpm: u32,
        accuracy: u32,
        time_ms: u64,
    },
    /// Leave the room.
    LeaveRoom { room_id: RoomId, host_chain_id: ChainId },
}

/// The seven message kinds exchanged between locations. Three of them are
/// requests towards a host; the other four are broadcasts from a host to the
/// members' replicas. The snapshot carries the room itself; the transport
/// serializes it on the wire and swallows payloads that fail to decode.
#[derive(Debug)]
pub enum Message {
    /// Request to the host: a player asks to join.
    PlayerJoined {
        room_id: RoomId,
        player: AccountOwner,
        player_chain_id: ChainId,
        player_name: String,
    },
    /// Broadcast: the game started with the first round's prompt.
    GameStarted { room_id: RoomId, prompt: String, round: u8, start_time: Timestamp },
    /// Request to the host: a player submitted a result.
    ResultSubmitted {
        room_id: RoomId,
        player: AccountOwner,
        wpm: u32,
        accuracy: u32,
        time_ms: u64,
    },
    /// Broadcast: a round ended and the next one is starting.
    RoundEnded { room_id: RoomId, round: u8, results: Vec<PlayerResult>, next_prompt: Option<String> },
    /// Broadcast: the game ended with final standings.
    GameEnded { room_id: RoomId, final_standings: Vec<PlayerResult>, winner: AccountOwner },
    /// Request to the host: a player leaves.
    PlayerLeft { room_id: RoomId, player: AccountOwner },
    /// Broadcast: a full snapshot of the authoritative room.
    SyncState { room_id: RoomId, room: GameRoom },
}

/// Mathematical model of a [`Message`].
#[verifier::ext_equal]
pub ghost enum MessageView {
    PlayerJoined {
        room_id: RoomId,
        player: AccountOwner,
        player_chain_id: ChainId,
        player_name: Seq<char>,
    },
    GameStarted { room_id: RoomId, prompt: Seq<char>, round: u8, start_time: Timestamp },
    ResultSubmitted {
        room_id: RoomId,
        player: AccountOwner,
        wpm: u32,
        accuracy: u32,
        time_ms: u64,
    },
    RoundEnded {
        room_id: RoomId,
        round: u8,
        results: Seq<PlayerResultView>,
        next_prompt: Option<Seq<char>>,
    },
    GameEnded { room_id: RoomId, final_standings: Seq<PlayerResultView>, winner: AccountOwner },
    PlayerLeft { room_id: RoomId, player: AccountOwner },
    SyncState { room_id: RoomId, room: GameRoomView },
}

impl DeepView for Message {
    type V = MessageView;

    open spec fn deep_view(&self) -> MessageView {
        match self {
            Message::PlayerJoined { room_id, player, player_chain_id, player_name } => {
                MessageView::PlayerJoined {
                    room_id: *room_id,
                    player: *player,
                    player_chain_id: *player_chain_id,
                    player_name: player_name@,
                }
            },
            Message::GameStarted { room_id, prompt, round, start_time } => {
                MessageView::GameStarted {
                    room_id: *room_id,
                    prompt: prompt@,
                    round: *round,
                    start_time: *start_time,
                }
            },
            Message::ResultSubmitted { room_id, player, wpm, accuracy, time_ms } => {
                MessageView::ResultSubmitted {
                    room_id: *room_id,
                    player: *player,
                    wpm: *wpm,
                    accuracy: *accuracy,
                    time_ms: *time_ms,
                }
            },
            Message::RoundEnded { room_id, round, results, next_prompt } => {
                MessageView::RoundEnded {
                    room_id: *room_id,
                    round: *round,
                    results: results.deep_view(),
                    next_prompt: next_prompt.deep_view(),
                }
            },
            Message::GameEnded { room_id, final_standings, winner } => {
                MessageView::GameEnded {
                    room_id: *room_id,
                    final_standings: final_standings.deep_view(),
                    winner: *winner,
                }
            },
            Message::PlayerLeft { room_id, player } => {
                MessageView::PlayerLeft { room_id: *room_id, player: *player }
            },
            Message::SyncState { room_id, room } => {
                MessageView::SyncState { room_id: *room_id, room: room@ }
            },
        }
    }
}

/// One outbound delivery: a message and the locations it goes to, each
/// exactly once from the core's point of view; the substrate may deliver it
/// more than once.
#[derive(Debug)]
pub struct Envelope {
    pub recipients: Vec<ChainId>,
    pub message: Message,
}

/// Mathematical model of an [`Envelope`].
#[verifier::ext_equal]
pub ghost struct EnvelopeView {
    pub recipients: Seq<ChainId>,
    pub message: MessageView,
}

impl DeepView for Envelope {
    type V = EnvelopeView;

    open spec fn deep_view(&self) -> EnvelopeView {
        EnvelopeView { recipients: self.recipients@, message: self.message.deep_view() }
    }
}

/// The locations a broadcast goes to: every member's location other than the
/// sender's own, in join order.
pub open spec fn broadcast_targets(players: Seq<PlayerInfoView>, own_chain_id: ChainId) -> Seq<
    ChainId,
>
    decreases players.len(),
{
    if players.len() == 0 {
        Seq::empty()
    } else {
        let prefix = broadcast_targets(players.drop_last(), own_chain_id);
        if players.last().chain_id != own_chain_id {
            prefix.push(players.last().chain_id)
        } else {
            prefix
        }
    }
}

/// Collect the broadcast recipients for a member list.
pub fn recipients_for(players: &Vec<PlayerInfo>, own_chain_id: ChainId) -> (recipients: Vec<
    ChainId,
>)
    ensures
        recipients@ == broadcast_targets(players.deep_view(), own_chain_id),
{
    let ghost all = players.deep_view();
    let mut recipients: Vec<ChainId> = Vec::new();
    let n = players.len();
    let mut i: usize = 0;
    while i < n
        invariant
            n == players.len(),
            0 <= i <= n,
            all == players.deep_view(),
            recipients@ == broadcast_targets(all.take(i as int), own_chain_id),
        decreases n - i,
    {
        proof {
            assert(all.take(i + 1).drop_last() =~= all.take(i as int));
            assert(all.take(i + 1).last() == all[i as int]);
        }
        if players[i].chain_id != own_chain_id {
            recipients.push(players[i].chain_id);
        }
        i = i + 1;
    }
    proof {
        assert(all.take(n as int) =~= all);
    }
    recipients
}

} // verus!
