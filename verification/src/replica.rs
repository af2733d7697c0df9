//! The non-authoritative room replica.
//!
//! Every member location other than the host holds a mirror of the room,
//! kept consistent only by the host's broadcasts. Each handler applies one
//! notice idempotently and tolerates races: a notice for a room this
//! location does not know, or one that does not fit the local copy, is a
//! silent no-op, never an error.

use vstd::prelude::*;

use crate::machine::{unchanged, TypeArenaState};
use crate::room::{
    lemma_advanced_wf, lemma_finished_wf, GameRoom, GameRoomView, PlayerResult, PlayerResultView,
    RoomStatus,
};
use crate::{AccountOwner, RoomId, Timestamp};

verus! {

broadcast use vstd::std_specs::hash::group_hash_axioms;

/// Whether a game-started notice fits the local copy: the room has not
/// finished (the lifecycle never moves backwards), and the announced round
/// lies within the configured rounds and ahead of every member's completed
/// count, so the resulting copy is a well-formed room.
pub open spec fn game_started_applies(room: GameRoomView, round: u8) -> bool {
    &&& !(room.status is Finished)
    &&& 1 <= round && round <= room.total_rounds
    &&& (forall|i: int|
        0 <= i < room.game_scores.len() ==> (#[trigger] room.game_scores[i]).rounds_completed
            < round)
}

/// The local copy after a game-started notice: mid-game at the announced
/// round, with the broadcast prompt and start time, and no submissions.
pub open spec fn game_started_room(
    room: GameRoomView,
    prompt: Seq<char>,
    round: u8,
    start_time: Timestamp,
) -> GameRoomView {
    GameRoomView {
        status: RoomStatus::InProgress,
        current_round: round,
        current_prompt: Some(prompt),
        round_start_time: Some(start_time),
        round_results: Seq::empty(),
        ..room
    }
}

/// Effect of a game-started notice: the local copy is rewritten to the
/// announced round when the room is known and the notice fits it; anything
/// else is a silent no-op.
pub open spec fn game_started_transition(
    pre: TypeArenaState,
    post: TypeArenaState,
    room_id: RoomId,
    prompt: Seq<char>,
    round: u8,
    start_time: Timestamp,
) -> bool {
    if pre.rooms@.contains_key(room_id) && game_started_applies(pre.rooms@[room_id]@, round) {
        &&& (exists|r: GameRoom|
            r@ == game_started_room(pre.rooms@[room_id]@, prompt, round, start_time)
                && post.rooms@ == pre.rooms@.insert(room_id, r))
        &&& post.player_stats@ == pre.player_stats@
        &&& post.total_games == pre.total_games
    } else {
        unchanged(pre, post)
    }
}

/// Effect of a round-ended notice: the local copy moves into the next round
/// with the broadcast prompt when the room is known, mid-game, not yet past
/// its last round, and a next prompt was announced; else a silent no-op.
pub open spec fn round_ended_transition(
    pre: TypeArenaState,
    post: TypeArenaState,
    room_id: RoomId,
    next_prompt: Option<Seq<char>>,
    now: Timestamp,
) -> bool {
    if pre.rooms@.contains_key(room_id) && pre.rooms@[room_id]@.status is InProgress
        && pre.rooms@[room_id]@.current_round < pre.rooms@[room_id]@.total_rounds
        && next_prompt is Some {
        &&& (exists|r: GameRoom|
            r@ == pre.rooms@[room_id]@.advanced(next_prompt->0, now) && post.rooms@
                == pre.rooms@.insert(room_id, r))
        &&& post.player_stats@ == pre.player_stats@
        &&& post.total_games == pre.total_games
    } else {
        unchanged(pre, post)
    }
}

/// Effect of a game-ended notice: the local copy is marked finished when the
/// room is known and mid-game at its last round; else a silent no-op.
pub open spec fn game_ended_transition(
    pre: TypeArenaState,
    post: TypeArenaState,
    room_id: RoomId,
) -> bool {
    if pre.rooms@.contains_key(room_id) && pre.rooms@[room_id]@.status is InProgress
        && pre.rooms@[room_id]@.current_round == pre.rooms@[room_id]@.total_rounds {
        &&& (exists|r: GameRoom|
            r@ == pre.rooms@[room_id]@.finished() && post.rooms@ == pre.rooms@.insert(room_id, r))
        &&& post.player_stats@ == pre.player_stats@
        &&& post.total_games == pre.total_games
    } else {
        unchanged(pre, post)
    }
}

/// Effect of a snapshot: the local copy is replaced wholesale, whatever it
/// held before, provided the snapshot is a well-formed room filed under the
/// message's key. A snapshot that does not decode to such a room is
/// swallowed as a no-op.
pub open spec fn sync_transition(
    pre: TypeArenaState,
    post: TypeArenaState,
    room_id: RoomId,
    room: GameRoom,
) -> bool {
    if room@.wf() && room@.room_id == room_id {
        &&& post.rooms@ == pre.rooms@.insert(room_id, room)
        &&& post.player_stats@ == pre.player_stats@
        &&& post.total_games == pre.total_games
    } else {
        unchanged(pre, post)
    }
}

impl TypeArenaState {
    /// Apply a game-started notice to the local copy of the room.
    pub fn handle_game_started(
        &mut self,
        room_id: RoomId,
        prompt: String,
        round: u8,
        start_time: Timestamp,
    )
        requires
            old(self).wf(),
        ensures
            final(self).wf(),
            game_started_transition(
                *old(self),
                *final(self),
                room_id,
                prompt@,
                round,
                start_time,
            ),
    {
        let room_opt = self.rooms.remove(&room_id);
        let mut room = match room_opt {
            Some(r) => r,
            None => {
                proof {
                    assert(self.rooms@ =~= old(self).rooms@);
                }
                return ;
            },
        };
        let ghost room0 = room@;
        if room.status == RoomStatus::Finished {
            self.rooms.insert(room_id, room);
            proof {
                assert(self.rooms@ =~= old(self).rooms@);
            }
            return ;
        }
        if round < 1 || round > room.total_rounds {
            self.rooms.insert(room_id, room);
            proof {
                assert(self.rooms@ =~= old(self).rooms@);
            }
            return ;
        }
        // The notice must lie ahead of every member's completed count.
        let n = room.game_scores.len();
        let mut i: usize = 0;
        while i < n
            invariant
                n == room.game_scores.len(),
                0 <= i <= n,
                room@ == room0,
                old(self).wf(),
                old(self).rooms@.contains_key(room_id),
                old(self).rooms@[room_id] == room,
                self.rooms@ == old(self).rooms@.remove(room_id),
                self.player_stats@ == old(self).player_stats@,
                self.total_games == old(self).total_games,
                forall|j: int|
                    0 <= j < i ==> (#[trigger] room0.game_scores[j]).rounds_completed < round,
            decreases n - i,
        {
            if room.game_scores[i].rounds_completed >= round {
                proof {
                    assert(room0.game_scores[i as int].rounds_completed >= round);
                }
                self.rooms.insert(room_id, room);
                proof {
                    assert(self.rooms@ =~= old(self).rooms@);
                }
                return ;
            }
            i = i + 1;
        }
        room.status = RoomStatus::InProgress;
        room.current_round = round;
        room.current_prompt = Some(prompt);
        room.round_start_time = Some(start_time);
        room.round_results.clear();
        proof {
            assert(room.round_results.deep_view() =~= Seq::<PlayerResultView>::empty());
            assert(room@ =~~= game_started_room(room0, prompt@, round, start_time));
            let post_room = room@;
            assert(post_room.player_ids() =~= room0.player_ids());
            assert(post_room.result_ids() =~= Seq::<AccountOwner>::empty());
            assert(post_room.wf());
        }
        let ghost room_val = room;
        self.rooms.insert(room_id, room);
        proof {
            assert(self.rooms@ =~= old(self).rooms@.insert(room_id, room_val));
            assert forall|k: RoomId| self.rooms@.contains_key(k) implies (
            #[trigger] self.rooms@[k])@.wf() && self.rooms@[k]@.room_id == k by {
                if k != room_id {
                    assert(old(self).rooms@.contains_key(k));
                }
            }
        }
    }

    /// Apply a round-ended notice to the local copy of the room. The results
    /// payload is the host's record of the completed round and is not
    /// re-validated locally.
    pub fn handle_round_ended(
        &mut self,
        room_id: RoomId,
        _round: u8,
        _results: Vec<PlayerResult>,
        next_prompt: Option<String>,
        now: Timestamp,
    )
        requires
            old(self).wf(),
        ensures
            final(self).wf(),
            round_ended_transition(
                *old(self),
                *final(self),
                room_id,
                next_prompt.deep_view(),
                now,
            ),
    {
        let room_opt = self.rooms.remove(&room_id);
        let mut room = match room_opt {
            Some(r) => r,
            None => {
                proof {
                    assert(self.rooms@ =~= old(self).rooms@);
                }
                return ;
            },
        };
        let ghost room0 = room@;
        if room.status != RoomStatus::InProgress || room.current_round >= room.total_rounds {
            self.rooms.insert(room_id, room);
            proof {
                assert(self.rooms@ =~= old(self).rooms@);
            }
            return ;
        }
        let prompt = match next_prompt {
            Some(p) => p,
            None => {
                self.rooms.insert(room_id, room);
                proof {
                    assert(self.rooms@ =~= old(self).rooms@);
                }
                return ;
            },
        };
        room.current_round = room.current_round + 1;
        room.round_results.clear();
        room.current_prompt = Some(prompt);
        room.round_start_time = Some(now);
        proof {
            assert(room.round_results.deep_view() =~= Seq::<PlayerResultView>::empty());
            assert(room@ =~~= room0.advanced(prompt@, now));
            lemma_advanced_wf(room0, prompt@, now);
        }
        let ghost room_val = room;
        self.rooms.insert(room_id, room);
        proof {
            assert(self.rooms@ =~= old(self).rooms@.insert(room_id, room_val));
            assert forall|k: RoomId| self.rooms@.contains_key(k) implies (
            #[trigger] self.rooms@[k])@.wf() && self.rooms@[k]@.room_id == k by {
                if k != room_id {
                    assert(old(self).rooms@.contains_key(k));
                }
            }
        }
    }

    /// Apply a game-ended notice to the local copy of the room. The final
    /// standings and winner are the host's record and are not re-validated.
    pub fn handle_game_ended(
        &mut self,
        room_id: RoomId,
        _final_standings: Vec<PlayerResult>,
        _winner: AccountOwner,
    )
        requires
            old(self).wf(),
        ensures
            final(self).wf(),
            game_ended_transition(*old(self), *final(self), room_id),
    {
        let room_opt = self.rooms.remove(&room_id);
        let mut room = match room_opt {
            Some(r) => r,
            None => {
                proof {
                    assert(self.rooms@ =~= old(self).rooms@);
                }
                return ;
            },
        };
        let ghost room0 = room@;
        if room.status != RoomStatus::InProgress || room.current_round != room.total_rounds {
            self.rooms.insert(room_id, room);
            proof {
                assert(self.rooms@ =~= old(self).rooms@);
            }
            return ;
        }
        room.status = RoomStatus::Finished;
        proof {
            assert(room@ =~~= room0.finished());
            lemma_finished_wf(room0);
        }
        let ghost room_val = room;
        self.rooms.insert(room_id, room);
        proof {
            assert(self.rooms@ =~= old(self).rooms@.insert(room_id, room_val));
            assert forall|k: RoomId| self.rooms@.contains_key(k) implies (
            #[trigger] self.rooms@[k])@.wf() && self.rooms@[k]@.room_id == k by {
                if k != room_id {
                    assert(old(self).rooms@.contains_key(k));
                }
            }
        }
    }

    /// Apply a full snapshot: replace the local copy wholesale. The snapshot
    /// arrived as untrusted bytes, so it is held to the room invariant and
    /// to its own key first; a snapshot that does not fit is swallowed.
    pub fn handle_sync_state(&mut self, room_id: RoomId, room: GameRoom)
        requires
            old(self).wf(),
        ensures
            final(self).wf(),
            sync_transition(*old(self), *final(self), room_id, room),
    {
        if room.room_id != room_id {
            return ;
        }
        if !room.is_well_formed() {
            return ;
        }
        self.rooms.insert(room_id, room);
        proof {
            assert forall|k: RoomId| self.rooms@.contains_key(k) implies (
            #[trigger] self.rooms@[k])@.wf() && self.rooms@[k]@.room_id == k by {
                if k != room_id {
                    assert(old(self).rooms@.contains_key(k));
                }
            }
        }
    }
}

} // verus!
