//! Exhaustive dispatch of the operation and message surfaces.
//!
//! Every operation a participant issues and every message a location
//! receives runs through exactly one of the arms here, so each of the five
//! operations and seven message kinds is statically covered.

use vstd::prelude::*;

use crate::machine::{
    create_room_error, joined_transition, left_transition, start_game_error, submit_transition,
    unchanged, join_request_envelope, leave_request_envelope, submit_request_envelope,
    TypeArenaState,
};
use crate::prompts::prompt_for;
use crate::protocol::{broadcast_targets, Envelope, EnvelopeView, Message, MessageView, Operation};
use crate::replica::{
    game_ended_transition, game_started_transition, round_ended_transition, sync_transition,
};
use crate::room::fresh_room;
use crate::room::GameRoom;
use crate::{AccountOwner, ChainId, RoomId, Timestamp, TypeArenaError};

verus! {

/// Full effect of one locally issued operation: room creation and game start
/// can fail fatally with no effect; a join, submission or leave is applied
/// directly when this location hosts the room and otherwise becomes a single
/// request message to the host location.
pub open spec fn operation_transition(
    pre: TypeArenaState,
    post: TypeArenaState,
    outcome: Result<Seq<EnvelopeView>, TypeArenaError>,
    operation: Operation,
    caller: AccountOwner,
    caller_name: Seq<char>,
    own_chain_id: ChainId,
    now: Timestamp,
    seed: u8,
) -> bool {
    match operation {
        Operation::CreateRoom { room_id, max_players, rounds } => {
            match create_room_error(pre, room_id, max_players, rounds) {
                Some(e) => {
                    &&& outcome == Result::<Seq<EnvelopeView>, TypeArenaError>::Err(e)
                    &&& unchanged(pre, post)
                },
                None => {
                    match outcome {
                        Ok(out) => {
                            &&& out.len() == 0
                            &&& (exists|r: GameRoom|
                                r@ == fresh_room(
                                    room_id,
                                    caller,
                                    own_chain_id,
                                    caller_name,
                                    max_players,
                                    rounds,
                                    now,
                                ) && post.rooms@ == pre.rooms@.insert(room_id, r))
                            &&& post.player_stats@ == pre.player_stats@
                            &&& post.total_games == pre.total_games
                        },
                        Err(_) => false,
                    }
                },
            }
        },
        Operation::JoinRoom { room_id, host_chain_id, player_name } => {
            match outcome {
                Ok(out) => {
                    if own_chain_id == host_chain_id {
                        joined_transition(
                            pre,
                            post,
                            out,
                            room_id,
                            caller,
                            own_chain_id,
                            player_name@,
                            own_chain_id,
                        )
                    } else {
                        &&& unchanged(pre, post)
                        &&& out == seq![
                            join_request_envelope(
                                room_id,
                                caller,
                                own_chain_id,
                                player_name@,
                                host_chain_id,
                            ),
                        ]
                    }
                },
                Err(_) => false,
            }
        },
        Operation::StartGame { room_id } => {
            match start_game_error(pre, room_id, caller) {
                Some(e) => {
                    &&& outcome == Result::<Seq<EnvelopeView>, TypeArenaError>::Err(e)
                    &&& unchanged(pre, post)
                },
                None => {
                    match outcome {
                        Ok(out) => {
                            &&& (exists|r: GameRoom|
                                r@ == pre.rooms@[room_id]@.started(prompt_for(seed), now)
                                    && post.rooms@ == pre.rooms@.insert(room_id, r))
                            &&& post.player_stats@ == pre.player_stats@
                            &&& post.total_games == pre.total_games
                            &&& out == seq![
                                EnvelopeView {
                                    recipients: broadcast_targets(
                                        pre.rooms@[room_id]@.players,
                                        own_chain_id,
                                    ),
                                    message: MessageView::GameStarted {
                                        room_id,
                                        prompt: prompt_for(seed),
                                        round: 1,
                                        start_time: now,
                                    },
                                },
                            ]
                        },
                        Err(_) => false,
                    }
                },
            }
        },
        Operation::SubmitResult { room_id, host_chain_id, wpm, accuracy, time_ms } => {
            match outcome {
                Ok(out) => {
                    if own_chain_id == host_chain_id {
                        submit_transition(
                            pre,
                            post,
                            out,
                            room_id,
                            caller,
                            wpm,
                            accuracy,
                            time_ms,
                            own_chain_id,
                            now,
                            seed,
                        )
                    } else {
                        &&& unchanged(pre, post)
                        &&& out == seq![
                            submit_request_envelope(
                                room_id,
                                caller,
                                wpm,
                                accuracy,
                                time_ms,
                                host_chain_id,
                            ),
                        ]
                    }
                },
                Err(_) => false,
            }
        },
        Operation::LeaveRoom { room_id, host_chain_id } => {
            match outcome {
                Ok(out) => {
                    if own_chain_id == host_chain_id {
                        left_transition(
                            pre,
                            post,
                            out,
                            room_id,
                            caller,
                            own_chain_id,
                            now,
                            seed,
                        )
                    } else {
                        &&& unchanged(pre, post)
                        &&& out == seq![leave_request_envelope(room_id, caller, host_chain_id)]
                    }
                },
                Err(_) => false,
            }
        },
    }
}

/// Full effect of one inbound message: requests to a host apply the
/// corresponding authoritative step; broadcasts overwrite the local replica.
pub open spec fn message_transition(
    pre: TypeArenaState,
    post: TypeArenaState,
    out: Seq<EnvelopeView>,
    message: Message,
    own_chain_id: ChainId,
    now: Timestamp,
    seed: u8,
) -> bool {
    match message {
        Message::PlayerJoined { room_id, player, player_chain_id, player_name } => {
            joined_transition(
                pre,
                post,
                out,
                room_id,
                player,
                player_chain_id,
                player_name@,
                own_chain_id,
            )
        },
        Message::GameStarted { room_id, prompt, round, start_time } => {
            &&& out.len() == 0
            &&& game_started_transition(pre, post, room_id, prompt@, round, start_time)
        },
        Message::ResultSubmitted { room_id, player, wpm, accuracy, time_ms } => {
            submit_transition(
                pre,
                post,
                out,
                room_id,
                player,
                wpm,
                accuracy,
                time_ms,
                own_chain_id,
                now,
                seed,
            )
        },
        Message::RoundEnded { room_id, round: _, results: _, next_prompt } => {
            &&& out.len() == 0
            &&& round_ended_transition(pre, post, room_id, next_prompt.deep_view(), now)
        },
        Message::GameEnded { room_id, final_standings: _, winner: _ } => {
            &&& out.len() == 0
            &&& game_ended_transition(pre, post, room_id)
        },
        Message::PlayerLeft { room_id, player } => {
            left_transition(pre, post, out, room_id, player, own_chain_id, now, seed)
        },
        Message::SyncState { room_id, room } => {
            &&& out.len() == 0
            &&& sync_transition(pre, post, room_id, room)
        },
    }
}

/// The room lifecycle is monotonic: no inbound message moves a known room's
/// status backwards. The snapshot is the stated exception: it replaces the
/// local copy wholesale with whatever the host last sent, so a stale one can
/// rewind a replica.
pub proof fn lemma_messages_keep_status_monotonic(
    pre: TypeArenaState,
    post: TypeArenaState,
    out: Seq<EnvelopeView>,
    message: Message,
    own_chain_id: ChainId,
    now: Timestamp,
    seed: u8,
    room_id: RoomId,
)
    requires
        !(message is SyncState),
        message_transition(pre, post, out, message, own_chain_id, now, seed),
        pre.rooms@.contains_key(room_id),
        post.rooms@.contains_key(room_id),
    ensures
        crate::room::status_rank(pre.rooms@[room_id]@.status) <= crate::room::status_rank(
            post.rooms@[room_id]@.status,
        ),
{
    match message {
        Message::PlayerJoined { room_id: k, player, player_chain_id, player_name } => {
            if pre.rooms@.contains_key(k) && crate::machine::join_allowed(
                pre.rooms@[k]@,
                player,
            ) {
                let room1 = pre.rooms@[k]@.with_player(
                    crate::room::PlayerInfoView {
                        owner: player,
                        chain_id: player_chain_id,
                        display_name: player_name@,
                        is_ready: true,
                    },
                );
                let r = choose|r: GameRoom|
                    r@ == room1 && post.rooms@ == pre.rooms@.insert(k, r);
                assert(post.rooms@ == pre.rooms@.insert(k, r));
            }
        },
        Message::GameStarted { room_id: k, prompt, round, start_time } => {
            if pre.rooms@.contains_key(k) && crate::replica::game_started_applies(
                pre.rooms@[k]@,
                round,
            ) {
                let target = crate::replica::game_started_room(
                    pre.rooms@[k]@,
                    prompt@,
                    round,
                    start_time,
                );
                let r = choose|r: GameRoom|
                    r@ == target && post.rooms@ == pre.rooms@.insert(k, r);
                assert(post.rooms@ == pre.rooms@.insert(k, r));
            }
        },
        Message::ResultSubmitted { room_id: k, player, wpm, accuracy, time_ms } => {
            if pre.rooms@.contains_key(k) && crate::machine::submission_applies(
                pre.rooms@[k]@,
                player,
            ) {
                let room1 = pre.rooms@[k]@.with_result(
                    crate::machine::submitted_result(pre.rooms@[k]@, player, wpm, accuracy, time_ms),
                );
                if crate::machine::round_complete(room1) {
                    let target = crate::machine::end_round_room(room1, seed, now);
                    let r = choose|r: GameRoom|
                        r@ == target && post.rooms@ == pre.rooms@.insert(k, r);
                    assert(post.rooms@ == pre.rooms@.insert(k, r));
                } else {
                    let r = choose|r: GameRoom|
                        r@ == room1 && post.rooms@ == pre.rooms@.insert(k, r);
                    assert(post.rooms@ == pre.rooms@.insert(k, r));
                }
            }
        },
        Message::RoundEnded { room_id: k, round: _, results: _, next_prompt } => {
            if pre.rooms@.contains_key(k) && pre.rooms@[k]@.status is InProgress
                && pre.rooms@[k]@.current_round < pre.rooms@[k]@.total_rounds
                && next_prompt.deep_view() is Some {
                let target = pre.rooms@[k]@.advanced(next_prompt.deep_view()->0, now);
                let r = choose|r: GameRoom|
                    r@ == target && post.rooms@ == pre.rooms@.insert(k, r);
                assert(post.rooms@ == pre.rooms@.insert(k, r));
            }
        },
        Message::GameEnded { room_id: k, final_standings: _, winner: _ } => {
            if pre.rooms@.contains_key(k) && pre.rooms@[k]@.status is InProgress
                && pre.rooms@[k]@.current_round == pre.rooms@[k]@.total_rounds {
                let target = pre.rooms@[k]@.finished();
                let r = choose|r: GameRoom|
                    r@ == target && post.rooms@ == pre.rooms@.insert(k, r);
                assert(post.rooms@ == pre.rooms@.insert(k, r));
            }
        },
        Message::PlayerLeft { room_id: k, player } => {
            if pre.rooms@.contains_key(k) {
                let room0 = pre.rooms@[k]@;
                let room1 = room0.without_player(player);
                if room0.has_player(player) && room1.status is InProgress && room1.players.len()
                    > 0 && crate::machine::round_complete(room1) {
                    let target = crate::machine::end_round_room(room1, seed, now);
                    let r = choose|r: GameRoom|
                        r@ == target && post.rooms@ == pre.rooms@.insert(k, r);
                    assert(post.rooms@ == pre.rooms@.insert(k, r));
                } else {
                    let r = choose|r: GameRoom|
                        r@ == room1 && post.rooms@ == pre.rooms@.insert(k, r);
                    assert(post.rooms@ == pre.rooms@.insert(k, r));
                }
            }
        },
        Message::SyncState { .. } => {
            assert(false);
        },
    }
}

impl TypeArenaState {
    /// Process a result-submitted request on the host location.
    pub fn handle_result_submitted(
        &mut self,
        room_id: RoomId,
        player: AccountOwner,
        wpm: u32,
        accuracy: u32,
        time_ms: u64,
        own_chain_id: ChainId,
        now: Timestamp,
        seed: u8,
    ) -> (out: Vec<Envelope>)
        requires
            old(self).wf(),
        ensures
            final(self).wf(),
            submit_transition(
                *old(self),
                *final(self),
                out.deep_view(),
                room_id,
                player,
                wpm,
                accuracy,
                time_ms,
                own_chain_id,
                now,
                seed,
            ),
    {
        self.process_result(room_id, player, wpm, accuracy, time_ms, own_chain_id, now, seed)
    }

    /// Execute one locally issued operation atomically, returning the
    /// messages to deliver, or the fatal error that aborted it with no
    /// effect.
    pub fn execute_operation(
        &mut self,
        operation: Operation,
        caller: AccountOwner,
        caller_name: String,
        own_chain_id: ChainId,
        now: Timestamp,
        seed: u8,
    ) -> (outcome: Result<Vec<Envelope>, TypeArenaError>)
        requires
            old(self).wf(),
        ensures
            final(self).wf(),
            operation_transition(
                *old(self),
                *final(self),
                match outcome {
                    Ok(out) => Ok(out.deep_view()),
                    Err(e) => Err(e),
                },
                operation,
                caller,
                caller_name@,
                own_chain_id,
                now,
                seed,
            ),
    {
        match operation {
            Operation::CreateRoom { room_id, max_players, rounds } => {
                match self.create_room(
                    room_id,
                    max_players,
                    rounds,
                    caller,
                    own_chain_id,
                    caller_name,
                    now,
                ) {
                    Ok(()) => Ok(Vec::new()),
                    Err(e) => Err(e),
                }
            },
            Operation::JoinRoom { room_id, host_chain_id, player_name } => {
                Ok(self.join_room(room_id, host_chain_id, caller, own_chain_id, player_name))
            },
            Operation::StartGame { room_id } => {
                self.start_game(room_id, caller, own_chain_id, now, seed)
            },
            Operation::SubmitResult { room_id, host_chain_id, wpm, accuracy, time_ms } => {
                Ok(
                    self.submit_result(
                        room_id,
                        host_chain_id,
                        wpm,
                        accuracy,
                        time_ms,
                        caller,
                        own_chain_id,
                        now,
                        seed,
                    ),
                )
            },
            Operation::LeaveRoom { room_id, host_chain_id } => {
                Ok(self.leave_room(room_id, host_chain_id, caller, own_chain_id, now, seed))
            },
        }
    }

    /// Execute one inbound message atomically, returning any messages to
    /// deliver in turn.
    pub fn execute_message(
        &mut self,
        message: Message,
        own_chain_id: ChainId,
        now: Timestamp,
        seed: u8,
    ) -> (out: Vec<Envelope>)
        requires
            old(self).wf(),
        ensures
            final(self).wf(),
            message_transition(
                *old(self),
                *final(self),
                out.deep_view(),
                message,
                own_chain_id,
                now,
                seed,
            ),
    {
        match message {
            Message::PlayerJoined { room_id, player, player_chain_id, player_name } => {
                self.handle_player_joined(
                    room_id,
                    player,
                    player_chain_id,
                    player_name,
                    own_chain_id,
                )
            },
            Message::GameStarted { room_id, prompt, round, start_time } => {
                self.handle_game_started(room_id, prompt, round, start_time);
                Vec::new()
            },
            Message::ResultSubmitted { room_id, player, wpm, accuracy, time_ms } => {
                self.handle_result_submitted(
                    room_id,
                    player,
                    wpm,
                    accuracy,
                    time_ms,
                    own_chain_id,
                    now,
                    seed,
                )
            },
            Message::RoundEnded { room_id, round, results, next_prompt } => {
                self.handle_round_ended(room_id, round, results, next_prompt, now);
                Vec::new()
            },
            Message::GameEnded { room_id, final_standings, winner } => {
                self.handle_game_ended(room_id, final_standings, winner);
                Vec::new()
            },
            Message::PlayerLeft { room_id, player } => {
                self.handle_player_left(room_id, player, own_chain_id, now, seed)
            },
            Message::SyncState { room_id, room } => {
                self.handle_sync_state(room_id, room);
                Vec::new()
            },
        }
    }
}

} // verus!
