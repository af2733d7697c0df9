//! The authoritative room state machine.
//!
//! Exactly one location hosts a room; that location's machine processes every
//! operation and request message for the room atomically and emits the
//! broadcasts that keep the members' replicas consistent. The substrate
//! serializes operations per location, so the machine never sees two
//! operations race on the same state.

use vstd::prelude::*;

use vstd::pervasive::VecAdditionalExecFns;

use core::mem;
use std::collections::HashMap;

use crate::prompts::{get_random_prompt, prompt_for};
use crate::protocol::{broadcast_targets, recipients_for, Envelope, EnvelopeView, Message, MessageView};
use crate::room::{
    fresh_room, lemma_player_index_valid, lemma_result_index_valid,
    lemma_round_results_at_most_players, lemma_started_wf,
    lemma_with_player_wf, lemma_with_result_wf, lemma_without_player_wf, lemma_advanced_wf,
    lemma_finished_wf, lemma_winner_index_properties, standings_of, winner_index_of, GameRoom,
    GameRoomView, PlayerInfo, PlayerInfoView, PlayerResult, PlayerResultView, PlayerScore,
    RoomStatus,
};
use crate::score::score_saturated;
use crate::stats::{bump_u32, PlayerStats};
use crate::{AccountOwner, ChainId, RoomId, Timestamp, TypeArenaError};

verus! {

broadcast use vstd::std_specs::hash::group_hash_axioms;

/// A counter bump that stops at the largest representable value instead of
/// overflowing.
pub open spec fn bump_u64(x: u64) -> u64 {
    if x < u64::MAX {
        (x + 1) as u64
    } else {
        x
    }
}

/// The state one location persists: its rooms (authoritative for those it
/// hosts, replicas of the others), the global per-player statistics, and the
/// count of games completed here.
pub struct TypeArenaState {
    pub rooms: HashMap<RoomId, GameRoom>,
    pub player_stats: HashMap<AccountOwner, PlayerStats>,
    pub total_games: u64,
}

impl TypeArenaState {
    /// Every stored room is well formed and filed under its own key; every
    /// stats record respects its accumulation bounds.
    pub open spec fn wf(self) -> bool {
        &&& (forall|k: RoomId|
            self.rooms@.contains_key(k) ==> (#[trigger] self.rooms@[k])@.wf() && self.rooms@[k]@.room_id
                == k)
        &&& (forall|p: AccountOwner|
            self.player_stats@.contains_key(p) ==> (#[trigger] self.player_stats@[p]).wf())
    }

    /// The stored statistics of a player, or a fresh record.
    pub open spec fn stats_or_default(self, player: AccountOwner) -> PlayerStats {
        if self.player_stats@.contains_key(player) {
            self.player_stats@[player]
        } else {
            PlayerStats::zero()
        }
    }

    /// An empty state: no rooms, no statistics, no completed games.
    pub fn new() -> (state: TypeArenaState)
        ensures
            state.wf(),
            state.rooms@ == Map::<RoomId, GameRoom>::empty(),
            state.player_stats@ == Map::<AccountOwner, PlayerStats>::empty(),
            state.total_games == 0,
    {
        TypeArenaState { rooms: HashMap::new(), player_stats: HashMap::new(), total_games: 0 }
    }
}

/// Nothing observable changed: same rooms, same statistics, same counter.
pub open spec fn unchanged(pre: TypeArenaState, post: TypeArenaState) -> bool {
    &&& post.rooms@ == pre.rooms@
    &&& post.player_stats@ == pre.player_stats@
    &&& post.total_games == pre.total_games
}

/// The stats store after one submission was recorded for a player: the
/// record is created at zero if absent, then grows by the submission, unless
/// its round counter has reached the machine word's end.
pub open spec fn stats_after_submission(
    stats: Map<AccountOwner, PlayerStats>,
    player: AccountOwner,
    wpm: u32,
    accuracy: u32,
) -> Map<AccountOwner, PlayerStats> {
    let cur = if stats.contains_key(player) {
        stats[player]
    } else {
        PlayerStats::zero()
    };
    if cur.rounds_played < u32::MAX {
        stats.insert(player, cur.updated_with(wpm, accuracy))
    } else {
        stats
    }
}

/// The stats store after the winner's won-games counter grew. A winner who
/// never submitted anywhere has no record and gains none.
pub open spec fn stats_with_win(
    stats: Map<AccountOwner, PlayerStats>,
    winner: AccountOwner,
) -> Map<AccountOwner, PlayerStats> {
    if stats.contains_key(winner) {
        stats.insert(
            winner,
            PlayerStats { games_won: bump_u32(stats[winner].games_won), ..stats[winner] },
        )
    } else {
        stats
    }
}

/// The stats store after each listed member had a finished game counted, in
/// join order. Members without a record gain none.
pub open spec fn stats_with_games_played(
    stats: Map<AccountOwner, PlayerStats>,
    players: Seq<PlayerInfoView>,
) -> Map<AccountOwner, PlayerStats>
    decreases players.len(),
{
    if players.len() == 0 {
        stats
    } else {
        let prev = stats_with_games_played(stats, players.drop_last());
        let p = players.last().owner;
        if prev.contains_key(p) {
            prev.insert(p, PlayerStats { games_played: bump_u32(prev[p].games_played), ..prev[p] })
        } else {
            prev
        }
    }
}

/// The stats store after a game completed: first the winner's win, then
/// every member's played game.
pub open spec fn stats_after_game(
    stats: Map<AccountOwner, PlayerStats>,
    players: Seq<PlayerInfoView>,
    winner: AccountOwner,
) -> Map<AccountOwner, PlayerStats> {
    stats_with_games_played(stats_with_win(stats, winner), players)
}

/// Which fatal error, if any, a room creation runs into.
pub open spec fn create_room_error(
    pre: TypeArenaState,
    room_id: RoomId,
    max_players: u8,
    rounds: u8,
) -> Option<TypeArenaError> {
    if !(2 <= max_players && max_players <= 8) {
        Some(TypeArenaError::InvalidPlayerCount)
    } else if !(1 <= rounds && rounds <= 10) {
        Some(TypeArenaError::InvalidRoundCount)
    } else if pre.rooms@.contains_key(room_id) {
        Some(TypeArenaError::RoomAlreadyExists)
    } else {
        None
    }
}

impl TypeArenaState {
    /// Create a room on this location, which becomes its host. Fails fatally,
    /// with no effect, on parameters out of range or a key already taken.
    pub fn create_room(
        &mut self,
        room_id: RoomId,
        max_players: u8,
        rounds: u8,
        host: AccountOwner,
        host_chain_id: ChainId,
        host_name: String,
        created_at: Timestamp,
    ) -> (outcome: Result<(), TypeArenaError>)
        requires
            old(self).wf(),
        ensures
            final(self).wf(),
            match outcome {
                Ok(()) => {
                    &&& create_room_error(*old(self), room_id, max_players, rounds) is None
                    &&& (exists|r: GameRoom|
                        r@ == fresh_room(
                            room_id,
                            host,
                            host_chain_id,
                            host_name@,
                            max_players,
                            rounds,
                            created_at,
                        ) && final(self).rooms@ == old(self).rooms@.insert(room_id, r))
                    &&& final(self).player_stats@ == old(self).player_stats@
                    &&& final(self).total_games == old(self).total_games
                },
                Err(e) => {
                    &&& create_room_error(*old(self), room_id, max_players, rounds) == Some(e)
                    &&& unchanged(*old(self), *final(self))
                },
            },
    {
        if max_players < 2 || max_players > 8 {
            return Err(TypeArenaError::InvalidPlayerCount);
        }
        if rounds < 1 || rounds > 10 {
            return Err(TypeArenaError::InvalidRoundCount);
        }
        if self.rooms.contains_key(&room_id) {
            return Err(TypeArenaError::RoomAlreadyExists);
        }
        let room = GameRoom::new(
            room_id,
            host,
            host_chain_id,
            host_name,
            max_players,
            rounds,
            created_at,
        );
        let ghost room_view = room@;
        self.rooms.insert(room_id, room);
        proof {
            assert forall|k: RoomId| self.rooms@.contains_key(k) implies (#[trigger] self.rooms@[k])@.wf()
                && self.rooms@[k]@.room_id == k by {
                if k != room_id {
                    assert(old(self).rooms@.contains_key(k));
                }
            }
        }
        Ok(())
    }
}

/// Which fatal error, if any, a game start runs into.
pub open spec fn start_game_error(
    pre: TypeArenaState,
    room_id: RoomId,
    caller: AccountOwner,
) -> Option<TypeArenaError> {
    if !pre.rooms@.contains_key(room_id) {
        Some(TypeArenaError::RoomNotFound)
    } else if pre.rooms@[room_id]@.host != caller {
        Some(TypeArenaError::NotHost)
    } else if !(pre.rooms@[room_id]@.status is Lobby) {
        Some(TypeArenaError::GameAlreadyStarted)
    } else if pre.rooms@[room_id]@.players.len() < 2 {
        Some(TypeArenaError::NotEnoughPlayers)
    } else {
        None
    }
}

/// The snapshot broadcast for a room: the full room, to every member's
/// location but the sender's own.
pub open spec fn sync_envelope(room: GameRoomView, own_chain_id: ChainId) -> EnvelopeView {
    EnvelopeView {
        recipients: broadcast_targets(room.players, own_chain_id),
        message: MessageView::SyncState { room_id: room.room_id, room },
    }
}

/// Build the snapshot broadcast for a room.
pub fn broadcast_state_sync(room: &GameRoom, own_chain_id: ChainId) -> (env: Envelope)
    ensures
        env.deep_view() == sync_envelope(room@, own_chain_id),
{
    let recipients = recipients_for(&room.players, own_chain_id);
    let snapshot = room.snapshot();
    let env = Envelope {
        recipients,
        message: Message::SyncState { room_id: room.room_id, room: snapshot },
    };
    proof {
        assert(env.deep_view() =~~= sync_envelope(room@, own_chain_id));
    }
    env
}

/// Whether a join request is acted upon: the room has space, is still in its
/// lobby, and the joiner is not yet a member.
pub open spec fn join_allowed(room: GameRoomView, player: AccountOwner) -> bool {
    &&& !room.is_full()
    &&& room.status is Lobby
    &&& !room.has_player(player)
}

/// Full effect of a join request on the host's state: on success the member
/// is appended with a zeroed score entry and a snapshot goes to every member
/// location but the host's own; an unknown room, a full or closed lobby, or
/// a joiner already present leave everything untouched, silently.
pub open spec fn joined_transition(
    pre: TypeArenaState,
    post: TypeArenaState,
    out: Seq<EnvelopeView>,
    room_id: RoomId,
    player: AccountOwner,
    player_chain_id: ChainId,
    player_name: Seq<char>,
    own_chain_id: ChainId,
) -> bool {
    if pre.rooms@.contains_key(room_id) && join_allowed(pre.rooms@[room_id]@, player) {
        let room1 = pre.rooms@[room_id]@.with_player(
            PlayerInfoView {
                owner: player,
                chain_id: player_chain_id,
                display_name: player_name,
                is_ready: true,
            },
        );
        &&& (exists|r: GameRoom| r@ == room1 && post.rooms@ == pre.rooms@.insert(room_id, r))
        &&& post.player_stats@ == pre.player_stats@
        &&& post.total_games == pre.total_games
        &&& out == seq![sync_envelope(room1, own_chain_id)]
    } else {
        &&& unchanged(pre, post)
        &&& out.len() == 0
    }
}

impl TypeArenaState {
    /// Start the game. Only the host may start, only from the lobby, and only
    /// with at least two members; a fatal failure has no effect. On success
    /// the first round begins and every other member location is notified.
    pub fn start_game(
        &mut self,
        room_id: RoomId,
        caller: AccountOwner,
        own_chain_id: ChainId,
        now: Timestamp,
        seed: u8,
    ) -> (outcome: Result<Vec<Envelope>, TypeArenaError>)
        requires
            old(self).wf(),
        ensures
            final(self).wf(),
            match outcome {
                Ok(out) => {
                    &&& start_game_error(*old(self), room_id, caller) is None
                    &&& (exists|r: GameRoom|
                        r@ == old(self).rooms@[room_id]@.started(prompt_for(seed), now)
                            && final(self).rooms@ == old(self).rooms@.insert(room_id, r))
                    &&& final(self).player_stats@ == old(self).player_stats@
                    &&& final(self).total_games == old(self).total_games
                    &&& out.deep_view() == seq![
                        EnvelopeView {
                            recipients: broadcast_targets(
                                old(self).rooms@[room_id]@.players,
                                own_chain_id,
                            ),
                            message: MessageView::GameStarted {
                                room_id,
                                prompt: prompt_for(seed),
                                round: 1,
                                start_time: now,
                            },
                        },
                    ]
                },
                Err(e) => {
                    &&& start_game_error(*old(self), room_id, caller) == Some(e)
                    &&& unchanged(*old(self), *final(self))
                },
            },
    {
        let room_opt = self.rooms.remove(&room_id);
        let mut room = match room_opt {
            Some(r) => r,
            None => {
                proof {
                    assert(self.rooms@ =~= old(self).rooms@);
                }
                return Err(TypeArenaError::RoomNotFound);
            },
        };
        if room.host != caller {
            self.rooms.insert(room_id, room);
            proof {
                assert(self.rooms@ =~= old(self).rooms@);
            }
            return Err(TypeArenaError::NotHost);
        }
        if room.status != RoomStatus::Lobby {
            self.rooms.insert(room_id, room);
            proof {
                assert(self.rooms@ =~= old(self).rooms@);
            }
            return Err(TypeArenaError::GameAlreadyStarted);
        }
        if room.players.len() < 2 {
            self.rooms.insert(room_id, room);
            proof {
                assert(self.rooms@ =~= old(self).rooms@);
            }
            return Err(TypeArenaError::NotEnoughPlayers);
        }
        let ghost room0 = room@;
        room.status = RoomStatus::InProgress;
        room.current_round = 1;
        room.round_results.clear();
        let prompt = get_random_prompt(seed);
        room.current_prompt = Some(prompt.clone());
        room.round_start_time = Some(now);
        proof {
            assert(room.round_results.deep_view() =~= Seq::<PlayerResultView>::empty());
            assert(room@ =~~= room0.started(prompt_for(seed), now));
            lemma_started_wf(room0, prompt_for(seed), now);
        }
        let recipients = recipients_for(&room.players, own_chain_id);
        let message = Message::GameStarted { room_id, prompt, round: 1, start_time: now };
        let mut out: Vec<Envelope> = Vec::new();
        out.push(Envelope { recipients, message });
        let ghost room_val = room;
        self.rooms.insert(room_id, room);
        proof {
            assert(self.rooms@ =~= old(self).rooms@.insert(room_id, room_val));
            assert forall|k: RoomId| self.rooms@.contains_key(k) implies (
            #[trigger] self.rooms@[k])@.wf() && self.rooms@[k]@.room_id == k by {
                if k != room_id {
                    assert(old(self).rooms@.contains_key(k));
                }
            }
            assert(out.deep_view() =~= seq![
                EnvelopeView {
                    recipients: broadcast_targets(room0.players, own_chain_id),
                    message: MessageView::GameStarted {
                        room_id,
                        prompt: prompt_for(seed),
                        round: 1,
                        start_time: now,
                    },
                },
            ]);
        }
        Ok(out)
    }

    /// Apply a join request on the host. Silently a no-op when the room is
    /// unknown, full, no longer in its lobby, or the joiner already a member;
    /// otherwise the member is appended and a snapshot broadcast emitted.
    pub fn handle_player_joined(
        &mut self,
        room_id: RoomId,
        player: AccountOwner,
        player_chain_id: ChainId,
        player_name: String,
        own_chain_id: ChainId,
    ) -> (out: Vec<Envelope>)
        requires
            old(self).wf(),
        ensures
            final(self).wf(),
            joined_transition(
                *old(self),
                *final(self),
                out.deep_view(),
                room_id,
                player,
                player_chain_id,
                player_name@,
                own_chain_id,
            ),
    {
        let room_opt = self.rooms.remove(&room_id);
        let mut room = match room_opt {
            Some(r) => r,
            None => {
                proof {
                    assert(self.rooms@ =~= old(self).rooms@);
                }
                return Vec::new();
            },
        };
        if room.is_full() || room.status != RoomStatus::Lobby || room.has_player(&player) {
            self.rooms.insert(room_id, room);
            proof {
                assert(self.rooms@ =~= old(self).rooms@);
            }
            return Vec::new();
        }
        let ghost room0 = room@;
        let ghost joiner = PlayerInfoView {
            owner: player,
            chain_id: player_chain_id,
            display_name: player_name@,
            is_ready: true,
        };
        room.players.push(
            PlayerInfo { owner: player, chain_id: player_chain_id, display_name: player_name, is_ready: true },
        );
        room.game_scores.push(PlayerScore { player, total_score: 0, rounds_completed: 0 });
        proof {
            assert(room.players.deep_view() =~= room0.players.push(joiner));
            assert(room.game_scores.deep_view() =~= room0.game_scores.push(
                PlayerScore { player, total_score: 0, rounds_completed: 0 },
            ));
            assert(room@ =~~= room0.with_player(joiner));
            lemma_with_player_wf(room0, joiner);
        }
        let env = broadcast_state_sync(&room, own_chain_id);
        let mut out: Vec<Envelope> = Vec::new();
        out.push(env);
        let ghost room_val = room;
        self.rooms.insert(room_id, room);
        proof {
            assert(self.rooms@ =~= old(self).rooms@.insert(room_id, room_val));
            assert forall|k: RoomId| self.rooms@.contains_key(k) implies (
            #[trigger] self.rooms@[k])@.wf() && self.rooms@[k]@.room_id == k by {
                if k != room_id {
                    assert(old(self).rooms@.contains_key(k));
                }
            }
            assert(out.deep_view() =~= seq![
                sync_envelope(room0.with_player(joiner), own_chain_id),
            ]);
        }
        out
    }
}

/// Whether every currently known member has a submission recorded.
pub open spec fn round_complete(room: GameRoomView) -> bool {
    room.round_results.len() >= room.players.len()
}

/// Whether a submission is acted upon: the room is mid-game and the
/// submitter is a member who has not submitted in this round.
pub open spec fn submission_applies(room: GameRoomView, player: AccountOwner) -> bool {
    &&& room.status is InProgress
    &&& room.has_player(player)
    &&& !room.has_result(player)
}

/// The result a submission records: scored, under the member's display name.
pub open spec fn submitted_result(
    room: GameRoomView,
    player: AccountOwner,
    wpm: u32,
    accuracy: u32,
    time_ms: u64,
) -> PlayerResultView {
    PlayerResultView {
        player,
        player_name: room.players[room.player_index(player)].display_name,
        wpm,
        accuracy,
        time_ms,
        score: score_saturated(wpm, accuracy),
    }
}

/// Whether the ending round was the game's last.
pub open spec fn game_finishes(room: GameRoomView) -> bool {
    room.current_round >= room.total_rounds
}

/// The winner of a finished game: the maximum cumulative score, ties broken
/// towards the later member in join order.
pub open spec fn room_winner(room: GameRoomView) -> AccountOwner {
    room.game_scores[winner_index_of(room.game_scores)].player
}

/// The room an ended round leaves behind: finished after the last round,
/// otherwise advanced into the next round with a fresh prompt.
pub open spec fn end_round_room(room: GameRoomView, seed: u8, now: Timestamp) -> GameRoomView {
    if game_finishes(room) {
        room.finished()
    } else {
        room.advanced(prompt_for(seed), now)
    }
}

/// The broadcast an ended round emits: final standings and winner after the
/// last round, otherwise the completed round's results and the next prompt.
pub open spec fn end_round_envelope(
    room: GameRoomView,
    own_chain_id: ChainId,
    seed: u8,
) -> EnvelopeView {
    EnvelopeView {
        recipients: broadcast_targets(room.players, own_chain_id),
        message: if game_finishes(room) {
            MessageView::GameEnded {
                room_id: room.room_id,
                final_standings: standings_of(room),
                winner: room_winner(room),
            }
        } else {
            MessageView::RoundEnded {
                room_id: room.room_id,
                round: room.current_round,
                results: room.round_results,
                next_prompt: Some(prompt_for(seed)),
            }
        },
    }
}

/// The statistics an ended round leaves behind: untouched unless the game
/// finished, in which case the winner's win and every member's played game
/// are counted.
pub open spec fn end_round_stats(
    stats: Map<AccountOwner, PlayerStats>,
    room: GameRoomView,
) -> Map<AccountOwner, PlayerStats> {
    if game_finishes(room) {
        stats_after_game(stats, room.players, room_winner(room))
    } else {
        stats
    }
}

/// The completed-games counter an ended round leaves behind.
pub open spec fn end_round_total(total: u64, room: GameRoomView) -> u64 {
    if game_finishes(room) {
        bump_u64(total)
    } else {
        total
    }
}

/// Full effect of one submission on the host's state. A submission for an
/// unknown room, outside a running round, from a non-member, or from a
/// member who already submitted this round is a silent no-op. Otherwise the
/// result is recorded once, the submitter's statistics grow once, and, if
/// every member has now submitted, the round ends.
pub open spec fn submit_transition(
    pre: TypeArenaState,
    post: TypeArenaState,
    out: Seq<EnvelopeView>,
    room_id: RoomId,
    player: AccountOwner,
    wpm: u32,
    accuracy: u32,
    time_ms: u64,
    own_chain_id: ChainId,
    now: Timestamp,
    seed: u8,
) -> bool {
    if pre.rooms@.contains_key(room_id) && submission_applies(pre.rooms@[room_id]@, player) {
        let room1 = pre.rooms@[room_id]@.with_result(
            submitted_result(pre.rooms@[room_id]@, player, wpm, accuracy, time_ms),
        );
        let stats1 = stats_after_submission(pre.player_stats@, player, wpm, accuracy);
        if round_complete(room1) {
            &&& (exists|r: GameRoom|
                r@ == end_round_room(room1, seed, now) && post.rooms@ == pre.rooms@.insert(
                    room_id,
                    r,
                ))
            &&& post.player_stats@ == end_round_stats(stats1, room1)
            &&& post.total_games == end_round_total(pre.total_games, room1)
            &&& out == seq![end_round_envelope(room1, own_chain_id, seed)]
        } else {
            &&& (exists|r: GameRoom| r@ == room1 && post.rooms@ == pre.rooms@.insert(room_id, r))
            &&& post.player_stats@ == stats1
            &&& post.total_games == pre.total_games
            &&& out.len() == 0
        }
    } else {
        &&& unchanged(pre, post)
        &&& out.len() == 0
    }
}

/// A join is a no-op whenever it is not allowed — the room full, out of its
/// lobby, or the joiner already a member: the membership, and everything
/// else, stays as it was, and nothing is broadcast.
pub proof fn lemma_join_is_noop_when_not_allowed(
    pre: TypeArenaState,
    post: TypeArenaState,
    out: Seq<EnvelopeView>,
    room_id: RoomId,
    player: AccountOwner,
    player_chain_id: ChainId,
    player_name: Seq<char>,
    own_chain_id: ChainId,
)
    requires
        pre.rooms@.contains_key(room_id),
        !join_allowed(pre.rooms@[room_id]@, player),
        joined_transition(
            pre,
            post,
            out,
            room_id,
            player,
            player_chain_id,
            player_name,
            own_chain_id,
        ),
    ensures
        unchanged(pre, post),
        out.len() == 0,
{
}

/// Submitting twice in the same round records only once: a submission by a
/// player whose result for the current round is already recorded leaves the
/// whole state, the statistics included, untouched, and emits nothing.
pub proof fn lemma_duplicate_submission_is_noop(
    mid: TypeArenaState,
    post: TypeArenaState,
    out: Seq<EnvelopeView>,
    room_id: RoomId,
    player: AccountOwner,
    wpm: u32,
    accuracy: u32,
    time_ms: u64,
    own_chain_id: ChainId,
    now: Timestamp,
    seed: u8,
)
    requires
        mid.rooms@.contains_key(room_id),
        mid.rooms@[room_id]@.has_result(player),
        submit_transition(
            mid,
            post,
            out,
            room_id,
            player,
            wpm,
            accuracy,
            time_ms,
            own_chain_id,
            now,
            seed,
        ),
    ensures
        unchanged(mid, post),
        out.len() == 0,
{
}

/// A recorded submission ends the round exactly when it makes the submission
/// count reach the member count; and an ending round finishes the game
/// exactly when it is the last configured round.
pub proof fn lemma_round_advances_exactly_when_all_submitted(
    room: GameRoomView,
    result: PlayerResultView,
)
    requires
        room.wf(),
        submission_applies(room, result.player),
    ensures
        round_complete(room.with_result(result)) <==> room.with_result(result).round_results.len()
            == room.with_result(result).players.len(),
        game_finishes(room) <==> room.current_round == room.total_rounds,
{
    lemma_with_result_wf(room, result);
    lemma_round_results_at_most_players(room.with_result(result));
}

impl TypeArenaState {
    /// End the current round of a room that has been taken out of the store:
    /// finish the game after the last round, else start the next round.
    fn end_round(
        &mut self,
        room: &mut GameRoom,
        own_chain_id: ChainId,
        now: Timestamp,
        seed: u8,
    ) -> (out: Vec<Envelope>)
        requires
            old(self).wf(),
            old(room)@.wf(),
            old(room)@.status is InProgress,
            old(room)@.players.len() >= 1,
        ensures
            final(self).wf(),
            final(room)@.wf(),
            final(room)@ == end_round_room(old(room)@, seed, now),
            final(self).rooms@ == old(self).rooms@,
            final(self).player_stats@ == end_round_stats(old(self).player_stats@, old(room)@),
            final(self).total_games == end_round_total(old(self).total_games, old(room)@),
            out.deep_view() == seq![end_round_envelope(old(room)@, own_chain_id, seed)],
    {
        let ghost room0 = room@;
        if room.current_round >= room.total_rounds {
            // The game is over.
            room.status = RoomStatus::Finished;
            proof {
                assert(room@ =~~= room0.finished());
                lemma_finished_wf(room0);
            }
            // The winner: the last maximal cumulative score in join order.
            let n = room.game_scores.len();
            let mut widx: usize = 0;
            let mut i: usize = 1;
            while i < n
                invariant
                    room@ == room0.finished(),
                    n == room.game_scores.len(),
                    1 <= i <= n || (n == 0 && i == 1),
                    widx < i,
                    n > 0 ==> widx as int == winner_index_of(room0.game_scores.take(i as int)),
                decreases n - i,
            {
                proof {
                    assert(room0.game_scores.take(i + 1).drop_last() =~= room0.game_scores.take(
                        i as int,
                    ));
                    assert(room0.game_scores.take(i + 1).last() == room0.game_scores[i as int]);
                }
                if room.game_scores[i].total_score >= room.game_scores[widx].total_score {
                    widx = i;
                }
                i = i + 1;
            }
            proof {
                assert(room0.game_scores.take(n as int) =~= room0.game_scores);
                lemma_winner_index_properties(room0.game_scores);
            }
            let winner = room.game_scores[widx].player;
            proof {
                assert(winner == room_winner(room0));
            }
            // Count the winner's win, where a record exists.
            let winner_stats_opt = self.player_stats.get(&winner);
            match winner_stats_opt {
                Some(s) => {
                    let mut s2 = *s;
                    s2.record_game_won();
                    self.player_stats.insert(winner, s2);
                },
                None => {},
            }
            proof {
                assert(self.player_stats@ =~= stats_with_win(old(self).player_stats@, winner));
            }
            // Count a played game for every member with a record.
            let ghost mid_stats = self.player_stats@;
            let m = room.players.len();
            let mut j: usize = 0;
            while j < m
                invariant
                    room@ == room0.finished(),
                    m == room.players.len(),
                    0 <= j <= m,
                    self.player_stats@ == stats_with_games_played(
                        mid_stats,
                        room0.players.take(j as int),
                    ),
                    forall|p: AccountOwner|
                        self.player_stats@.contains_key(p) ==> (
                        #[trigger] self.player_stats@[p]).wf(),
                    self.rooms@ == old(self).rooms@,
                    self.total_games == old(self).total_games,
                decreases m - j,
            {
                proof {
                    assert(room0.players.take(j + 1).drop_last() =~= room0.players.take(j as int));
                    assert(room0.players.take(j + 1).last() == room0.players[j as int]);
                }
                let member = room.players[j].owner;
                let stats_opt = self.player_stats.get(&member);
                match stats_opt {
                    Some(s) => {
                        let mut s2 = *s;
                        s2.record_game_played();
                        self.player_stats.insert(member, s2);
                    },
                    None => {},
                }
                j = j + 1;
            }
            proof {
                assert(room0.players.take(m as int) =~= room0.players);
            }
            // The global completed-games counter.
            if self.total_games < u64::MAX {
                self.total_games = self.total_games + 1;
            }
            // The final standings: every member's cumulative score.
            let mut standings: Vec<PlayerResult> = Vec::new();
            let mut k: usize = 0;
            while k < n
                invariant
                    room@ == room0.finished(),
                    n == room.game_scores.len(),
                    n == room.players.len(),
                    0 <= k <= n,
                    standings.deep_view() =~= standings_of(room0).take(k as int),
                decreases n - k,
            {
                let entry = room.game_scores[k];
                standings.push(
                    PlayerResult {
                        player: entry.player,
                        player_name: room.players[k].display_name.clone(),
                        wpm: 0,
                        accuracy: 0,
                        time_ms: 0,
                        score: entry.total_score,
                    },
                );
                proof {
                    assert(standings_of(room0).take(k + 1).drop_last() =~= standings_of(
                        room0,
                    ).take(k as int));
                    assert(standings.deep_view() =~= standings_of(room0).take(k + 1));
                }
                k = k + 1;
            }
            proof {
                assert(standings_of(room0).take(n as int) =~= standings_of(room0));
            }
            let recipients = recipients_for(&room.players, own_chain_id);
            let mut out: Vec<Envelope> = Vec::new();
            out.push(
                Envelope {
                    recipients,
                    message: Message::GameEnded {
                        room_id: room.room_id,
                        final_standings: standings,
                        winner,
                    },
                },
            );
            proof {
                assert(out.deep_view() =~= seq![end_round_envelope(room0, own_chain_id, seed)]);
            }
            out
        } else {
            // More rounds to play: carry the completed round's results into
            // the broadcast and start the next round.
            let mut results: Vec<PlayerResult> = Vec::new();
            mem::swap(&mut results, &mut room.round_results);
            room.current_round = room.current_round + 1;
            let prompt = get_random_prompt(seed);
            room.current_prompt = Some(prompt.clone());
            room.round_start_time = Some(now);
            proof {
                assert(room.round_results.deep_view() =~= Seq::<PlayerResultView>::empty());
                assert(room@ =~~= room0.advanced(prompt_for(seed), now));
                lemma_advanced_wf(room0, prompt_for(seed), now);
            }
            let recipients = recipients_for(&room.players, own_chain_id);
            let round_number = room.current_round - 1;
            let mut out: Vec<Envelope> = Vec::new();
            out.push(
                Envelope {
                    recipients,
                    message: Message::RoundEnded {
                        room_id: room.room_id,
                        round: round_number,
                        results,
                        next_prompt: Some(prompt),
                    },
                },
            );
            proof {
                assert(out.deep_view() =~= seq![end_round_envelope(room0, own_chain_id, seed)]);
            }
            out
        }
    }

    /// Record one submission on the host. Duplicate submissions, submissions
    /// from non-members, for unknown rooms, or outside a running round are
    /// silent no-ops. A submission that completes the round ends it.
    pub fn process_result(
        &mut self,
        room_id: RoomId,
        player: AccountOwner,
        wpm: u32,
        accuracy: u32,
        time_ms: u64,
        own_chain_id: ChainId,
        now: Timestamp,
        seed: u8,
    ) -> (out: Vec<Envelope>)
        requires
            old(self).wf(),
        ensures
            final(self).wf(),
            submit_transition(
                *old(self),
                *final(self),
                out.deep_view(),
                room_id,
                player,
                wpm,
                accuracy,
                time_ms,
                own_chain_id,
                now,
                seed,
            ),
    {
        let room_opt = self.rooms.remove(&room_id);
        let mut room = match room_opt {
            Some(r) => r,
            None => {
                proof {
                    assert(self.rooms@ =~= old(self).rooms@);
                }
                return Vec::new();
            },
        };
        if room.status != RoomStatus::InProgress {
            self.rooms.insert(room_id, room);
            proof {
                assert(self.rooms@ =~= old(self).rooms@);
            }
            return Vec::new();
        }
        if room.has_result(&player) {
            self.rooms.insert(room_id, room);
            proof {
                assert(self.rooms@ =~= old(self).rooms@);
            }
            return Vec::new();
        }
        // Find the member; a submission from a non-member is ignored.
        let n = room.players.len();
        let mut idx_opt: Option<usize> = None;
        let mut i: usize = 0;
        while i < n
            invariant
                n == room.players.len(),
                0 <= i <= n,
                match idx_opt {
                    Some(idx) => idx < n && room@.players[idx as int].owner == player,
                    None => forall|j: int|
                        0 <= j < i ==> (#[trigger] room@.players[j]).owner != player,
                },
            decreases n - i,
        {
            if idx_opt.is_none() && room.players[i].owner == player {
                idx_opt = Some(i);
            }
            i = i + 1;
        }
        let idx = match idx_opt {
            Some(idx) => idx,
            None => {
                proof {
                    assert(!room@.has_player(player));
                }
                self.rooms.insert(room_id, room);
                proof {
                    assert(self.rooms@ =~= old(self).rooms@);
                }
                return Vec::new();
            },
        };
        proof {
            assert(room@.player_ids()[idx as int] == player);
            assert(room@.has_player(player));
            lemma_player_index_valid(room@, player);
            assert(room@.player_ids()[room@.player_index(player)] == player);
            assert(idx as int == room@.player_index(player));
        }
        let ghost room0 = room@;
        let ghost result_view = submitted_result(room0, player, wpm, accuracy, time_ms);
        // Score the submission and record it.
        let score = PlayerResult::calculate_score(wpm, accuracy);
        let display_name = room.players[idx].display_name.clone();
        room.round_results.push(
            PlayerResult { player, player_name: display_name, wpm, accuracy, time_ms, score },
        );
        let entry = room.game_scores[idx];
        proof {
            assert(entry.player == player);
            assert(entry.rounds_completed < room0.current_round);
        }
        let new_total = if entry.total_score > u32::MAX - score {
            u32::MAX
        } else {
            entry.total_score + score
        };
        room.game_scores.set(
            idx,
            PlayerScore {
                player: entry.player,
                total_score: new_total,
                rounds_completed: entry.rounds_completed + 1,
            },
        );
        proof {
            assert(room.round_results.deep_view() =~= room0.round_results.push(result_view));
            assert(room.game_scores.deep_view() =~= room0.game_scores.update(
                idx as int,
                PlayerScore {
                    player: entry.player,
                    total_score: crate::score::sat_add_u32(entry.total_score, score),
                    rounds_completed: (entry.rounds_completed + 1) as u8,
                },
            ));
            assert(room@ =~~= room0.with_result(result_view));
            lemma_with_result_wf(room0, result_view);
        }
        // The submitter's global statistics grow exactly once.
        let stats_opt = self.player_stats.get(&player);
        let current = match stats_opt {
            Some(s) => *s,
            None => PlayerStats::default(),
        };
        if current.rounds_played < u32::MAX {
            let mut updated = current;
            updated.update_with_result(wpm, accuracy);
            self.player_stats.insert(player, updated);
        }
        proof {
            assert(self.player_stats@ =~= stats_after_submission(
                old(self).player_stats@,
                player,
                wpm,
                accuracy,
            ));
            assert forall|p: AccountOwner| self.player_stats@.contains_key(p) implies (
            #[trigger] self.player_stats@[p]).wf() by {
                if p != player {
                    assert(old(self).player_stats@.contains_key(p));
                }
            }
        }
        // Does this submission complete the round?
        let complete = room.round_results.len() >= room.players.len();
        let ghost room1 = room@;
        let ghost stats1 = self.player_stats@;
        let out: Vec<Envelope>;
        if complete {
            out = self.end_round(&mut room, own_chain_id, now, seed);
        } else {
            out = Vec::new();
        }
        let ghost room_val = room;
        self.rooms.insert(room_id, room);
        proof {
            assert(self.rooms@ =~= old(self).rooms@.insert(room_id, room_val));
            assert forall|k: RoomId| self.rooms@.contains_key(k) implies (
            #[trigger] self.rooms@[k])@.wf() && self.rooms@[k]@.room_id == k by {
                if k != room_id {
                    assert(old(self).rooms@.contains_key(k));
                }
            }
        }
        out
    }
}

/// Full effect of a leave request on the host's state. For a known room the
/// member's entries are removed from the member list, the cumulative scores
/// and the current round's submissions, and a snapshot broadcast goes out to
/// the remaining members. If the remaining members have all submitted, the
/// round ends at once as a side effect of the leave. An unknown room is a
/// silent no-op; a non-member's leave only re-broadcasts the snapshot.
pub open spec fn left_transition(
    pre: TypeArenaState,
    post: TypeArenaState,
    out: Seq<EnvelopeView>,
    room_id: RoomId,
    player: AccountOwner,
    own_chain_id: ChainId,
    now: Timestamp,
    seed: u8,
) -> bool {
    if pre.rooms@.contains_key(room_id) {
        let room0 = pre.rooms@[room_id]@;
        let room1 = room0.without_player(player);
        if room0.has_player(player) && room1.status is InProgress && room1.players.len() > 0
            && round_complete(room1) {
            &&& (exists|r: GameRoom|
                r@ == end_round_room(room1, seed, now) && post.rooms@ == pre.rooms@.insert(
                    room_id,
                    r,
                ))
            &&& post.player_stats@ == end_round_stats(pre.player_stats@, room1)
            &&& post.total_games == end_round_total(pre.total_games, room1)
            &&& out == seq![
                sync_envelope(room1, own_chain_id),
                end_round_envelope(room1, own_chain_id, seed),
            ]
        } else {
            &&& (exists|r: GameRoom| r@ == room1 && post.rooms@ == pre.rooms@.insert(room_id, r))
            &&& post.player_stats@ == pre.player_stats@
            &&& post.total_games == pre.total_games
            &&& out == seq![sync_envelope(room1, own_chain_id)]
        }
    } else {
        &&& unchanged(pre, post)
        &&& out.len() == 0
    }
}

/// Leaving mid-round with every remaining member already submitted ends the
/// round immediately, as a side effect of the leave: the room moves on (or
/// finishes) and the round-end broadcast follows the snapshot broadcast.
pub proof fn lemma_leave_can_end_the_round(
    pre: TypeArenaState,
    post: TypeArenaState,
    out: Seq<EnvelopeView>,
    room_id: RoomId,
    player: AccountOwner,
    own_chain_id: ChainId,
    now: Timestamp,
    seed: u8,
)
    requires
        pre.rooms@.contains_key(room_id),
        pre.rooms@[room_id]@.has_player(player),
        pre.rooms@[room_id]@.without_player(player).status is InProgress,
        pre.rooms@[room_id]@.without_player(player).players.len() > 0,
        round_complete(pre.rooms@[room_id]@.without_player(player)),
        left_transition(pre, post, out, room_id, player, own_chain_id, now, seed),
    ensures
        exists|r: GameRoom|
            r@ == end_round_room(pre.rooms@[room_id]@.without_player(player), seed, now)
                && post.rooms@ == pre.rooms@.insert(room_id, r),
        out.len() == 2,
        out == seq![
            sync_envelope(pre.rooms@[room_id]@.without_player(player), own_chain_id),
            end_round_envelope(pre.rooms@[room_id]@.without_player(player), own_chain_id, seed),
        ],
{
}

impl TypeArenaState {
    /// Apply a leave request on the host: remove the member's entries,
    /// re-synchronize the remaining replicas, and end the round if the leave
    /// retroactively satisfied the completion threshold.
    pub fn handle_player_left(
        &mut self,
        room_id: RoomId,
        player: AccountOwner,
        own_chain_id: ChainId,
        now: Timestamp,
        seed: u8,
    ) -> (out: Vec<Envelope>)
        requires
            old(self).wf(),
        ensures
            final(self).wf(),
            left_transition(
                *old(self),
                *final(self),
                out.deep_view(),
                room_id,
                player,
                own_chain_id,
                now,
                seed,
            ),
    {
        let room_opt = self.rooms.remove(&room_id);
        let mut room = match room_opt {
            Some(r) => r,
            None => {
                proof {
                    assert(self.rooms@ =~= old(self).rooms@);
                }
                return Vec::new();
            },
        };
        let ghost room0 = room@;
        // Find the member, if present.
        let n = room.players.len();
        let mut idx_opt: Option<usize> = None;
        let mut i: usize = 0;
        while i < n
            invariant
                n == room.players.len(),
                0 <= i <= n,
                match idx_opt {
                    Some(idx) => idx < n && room@.players[idx as int].owner == player,
                    None => forall|j: int|
                        0 <= j < i ==> (#[trigger] room@.players[j]).owner != player,
                },
            decreases n - i,
        {
            if idx_opt.is_none() && room.players[i].owner == player {
                idx_opt = Some(i);
            }
            i = i + 1;
        }
        let was_member: bool;
        match idx_opt {
            Some(idx) => {
                was_member = true;
                proof {
                    assert(room@.player_ids()[idx as int] == player);
                    assert(room@.has_player(player));
                    lemma_player_index_valid(room0, player);
                    assert(room0.player_ids()[room0.player_index(player)] == player);
                    assert(idx as int == room0.player_index(player));
                }
                let ghost players_exec = room.players@;
                let ghost scores_exec = room.game_scores@;
                room.players.remove(idx);
                room.game_scores.remove(idx);
                proof {
                    players_exec.remove_ensures(idx as int);
                    scores_exec.remove_ensures(idx as int);
                    room0.players.remove_ensures(idx as int);
                    room0.game_scores.remove_ensures(idx as int);
                    assert(room.players.deep_view() =~= room0.players.remove(idx as int));
                    assert(room.game_scores.deep_view() =~= room0.game_scores.remove(idx as int));
                }
                // Drop the member's submission for the running round, if any.
                let m = room.round_results.len();
                let mut jdx_opt: Option<usize> = None;
                let mut j: usize = 0;
                while j < m
                    invariant
                        m == room.round_results.len(),
                        0 <= j <= m,
                        match jdx_opt {
                            Some(jdx) => jdx < m && room@.round_results[jdx as int].player
                                == player,
                            None => forall|l: int|
                                0 <= l < j ==> (#[trigger] room@.round_results[l]).player
                                    != player,
                        },
                    decreases m - j,
                {
                    if jdx_opt.is_none() && room.round_results[j].player == player {
                        jdx_opt = Some(j);
                    }
                    j = j + 1;
                }
                match jdx_opt {
                    Some(jdx) => {
                        proof {
                            assert(room0.result_ids()[jdx as int] == player);
                            assert(room0.has_result(player));
                            lemma_result_index_valid(room0, player);
                            assert(room0.result_ids()[room0.result_index(player)] == player);
                            assert(jdx as int == room0.result_index(player));
                        }
                        let ghost results_exec = room.round_results@;
                        room.round_results.remove(jdx);
                        proof {
                            results_exec.remove_ensures(jdx as int);
                            room0.round_results.remove_ensures(jdx as int);
                            assert(room.round_results.deep_view() =~= room0.round_results.remove(
                                jdx as int,
                            ));
                            assert(room@ =~~= room0.without_player(player));
                        }
                    },
                    None => {
                        proof {
                            assert forall|l: int|
                                0 <= l < room0.result_ids().len() implies room0.result_ids()[l]
                                != player by {
                                assert(room@.round_results[l].player != player);
                                assert(room@.round_results[l] == room0.round_results[l]);
                            }
                            assert(!room0.has_result(player));
                            assert(room@ =~~= room0.without_player(player));
                        }
                    },
                }
                proof {
                    lemma_without_player_wf(room0, player);
                }
            },
            None => {
                was_member = false;
                proof {
                    assert(!room0.has_player(player));
                    assert(room@ == room0.without_player(player));
                }
            },
        }
        let ghost room1 = room@;
        let env = broadcast_state_sync(&room, own_chain_id);
        let mut out: Vec<Envelope> = Vec::new();
        out.push(env);
        // A removal can retroactively satisfy "all submitted".
        let advance = was_member && room.status == RoomStatus::InProgress && room.players.len()
            > 0 && room.round_results.len() >= room.players.len();
        if advance {
            proof {
                assert(old(self).rooms@.remove(room_id).submap_of(old(self).rooms@));
                assert forall|k: RoomId| self.rooms@.contains_key(k) implies (
                #[trigger] self.rooms@[k])@.wf() && self.rooms@[k]@.room_id == k by {
                    assert(old(self).rooms@.contains_key(k));
                }
            }
            let mut more = self.end_round(&mut room, own_chain_id, now, seed);
            let ghost more_view = more.deep_view();
            let ghost more_exec = more@;
            let ghost out_before = out@;
            out.append(&mut more);
            proof {
                assert(more_view =~= seq![end_round_envelope(room1, own_chain_id, seed)]);
                assert(out@ == out_before + more_exec);
                assert(out@[1].deep_view() == more_view[0]);
            }
        }
        let ghost room_val = room;
        self.rooms.insert(room_id, room);
        proof {
            assert(self.rooms@ =~= old(self).rooms@.insert(room_id, room_val));
            assert forall|k: RoomId| self.rooms@.contains_key(k) implies (
            #[trigger] self.rooms@[k])@.wf() && self.rooms@[k]@.room_id == k by {
                if k != room_id {
                    assert(old(self).rooms@.contains_key(k));
                }
            }
            if advance {
                assert(out.deep_view() =~= seq![
                    sync_envelope(room1, own_chain_id),
                    end_round_envelope(room1, own_chain_id, seed),
                ]);
            } else {
                assert(out.deep_view() =~= seq![sync_envelope(room1, own_chain_id)]);
            }
        }
        out
    }
}

/// The request a joiner's location sends to the host location.
pub open spec fn join_request_envelope(
    room_id: RoomId,
    player: AccountOwner,
    own_chain_id: ChainId,
    player_name: Seq<char>,
    host_chain_id: ChainId,
) -> EnvelopeView {
    EnvelopeView {
        recipients: seq![host_chain_id],
        message: MessageView::PlayerJoined {
            room_id,
            player,
            player_chain_id: own_chain_id,
            player_name,
        },
    }
}

/// The request a submitter's location sends to the host location.
pub open spec fn submit_request_envelope(
    room_id: RoomId,
    player: AccountOwner,
    wpm: u32,
    accuracy: u32,
    time_ms: u64,
    host_chain_id: ChainId,
) -> EnvelopeView {
    EnvelopeView {
        recipients: seq![host_chain_id],
        message: MessageView::ResultSubmitted { room_id, player, wpm, accuracy, time_ms },
    }
}

/// The request a leaving member's location sends to the host location.
pub open spec fn leave_request_envelope(
    room_id: RoomId,
    player: AccountOwner,
    host_chain_id: ChainId,
) -> EnvelopeView {
    EnvelopeView {
        recipients: seq![host_chain_id],
        message: MessageView::PlayerLeft { room_id, player },
    }
}

impl TypeArenaState {
    /// A participant's join. Applied directly when this location already
    /// hosts the room; otherwise forwarded to the host location.
    pub fn join_room(
        &mut self,
        room_id: RoomId,
        host_chain_id: ChainId,
        player: AccountOwner,
        own_chain_id: ChainId,
        player_name: String,
    ) -> (out: Vec<Envelope>)
        requires
            old(self).wf(),
        ensures
            final(self).wf(),
            own_chain_id == host_chain_id ==> joined_transition(
                *old(self),
                *final(self),
                out.deep_view(),
                room_id,
                player,
                own_chain_id,
                player_name@,
                own_chain_id,
            ),
            own_chain_id != host_chain_id ==> unchanged(*old(self), *final(self))
                && out.deep_view() == seq![
                join_request_envelope(room_id, player, own_chain_id, player_name@, host_chain_id),
            ],
    {
        if own_chain_id == host_chain_id {
            self.handle_player_joined(room_id, player, own_chain_id, player_name, own_chain_id)
        } else {
            let mut recipients: Vec<ChainId> = Vec::new();
            recipients.push(host_chain_id);
            let mut out: Vec<Envelope> = Vec::new();
            out.push(
                Envelope {
                    recipients,
                    message: Message::PlayerJoined {
                        room_id,
                        player,
                        player_chain_id: own_chain_id,
                        player_name,
                    },
                },
            );
            proof {
                assert(out.deep_view() =~= seq![
                    join_request_envelope(
                        room_id,
                        player,
                        own_chain_id,
                        player_name@,
                        host_chain_id,
                    ),
                ]);
            }
            out
        }
    }

    /// A participant's submission. Processed directly when this location
    /// already hosts the room; otherwise forwarded to the host location.
    pub fn submit_result(
        &mut self,
        room_id: RoomId,
        host_chain_id: ChainId,
        wpm: u32,
        accuracy: u32,
        time_ms: u64,
        player: AccountOwner,
        own_chain_id: ChainId,
        now: Timestamp,
        seed: u8,
    ) -> (out: Vec<Envelope>)
        requires
            old(self).wf(),
        ensures
            final(self).wf(),
            own_chain_id == host_chain_id ==> submit_transition(
                *old(self),
                *final(self),
                out.deep_view(),
                room_id,
                player,
                wpm,
                accuracy,
                time_ms,
                own_chain_id,
                now,
                seed,
            ),
            own_chain_id != host_chain_id ==> unchanged(*old(self), *final(self))
                && out.deep_view() == seq![
                submit_request_envelope(room_id, player, wpm, accuracy, time_ms, host_chain_id),
            ],
    {
        if own_chain_id == host_chain_id {
            self.process_result(room_id, player, wpm, accuracy, time_ms, own_chain_id, now, seed)
        } else {
            let mut recipients: Vec<ChainId> = Vec::new();
            recipients.push(host_chain_id);
            let mut out: Vec<Envelope> = Vec::new();
            out.push(
                Envelope {
                    recipients,
                    message: Message::ResultSubmitted { room_id, player, wpm, accuracy, time_ms },
                },
            );
            proof {
                assert(out.deep_view() =~= seq![
                    submit_request_envelope(
                        room_id,
                        player,
                        wpm,
                        accuracy,
                        time_ms,
                        host_chain_id,
                    ),
                ]);
            }
            out
        }
    }

    /// A participant's leave. Applied directly when this location already
    /// hosts the room; otherwise forwarded to the host location.
    pub fn leave_room(
        &mut self,
        room_id: RoomId,
        host_chain_id: ChainId,
        player: AccountOwner,
        own_chain_id: ChainId,
        now: Timestamp,
        seed: u8,
    ) -> (out: Vec<Envelope>)
        requires
            old(self).wf(),
        ensures
            final(self).wf(),
            own_chain_id == host_chain_id ==> left_transition(
                *old(self),
                *final(self),
                out.deep_view(),
                room_id,
                player,
                own_chain_id,
                now,
                seed,
            ),
            own_chain_id != host_chain_id ==> unchanged(*old(self), *final(self))
                && out.deep_view() == seq![
                leave_request_envelope(room_id, player, host_chain_id),
            ],
    {
        if own_chain_id == host_chain_id {
            self.handle_player_left(room_id, player, own_chain_id, now, seed)
        } else {
            let mut recipients: Vec<ChainId> = Vec::new();
            recipients.push(host_chain_id);
            let mut out: Vec<Envelope> = Vec::new();
            out.push(
                Envelope { recipients, message: Message::PlayerLeft { room_id, player } },
            );
            proof {
                assert(out.deep_view() =~= seq![
                    leave_request_envelope(room_id, player, host_chain_id),
                ]);
            }
            out
        }
    }
}

} // verus!
