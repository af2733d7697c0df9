//! The room data model shared by the authoritative machine and its replicas.

use vstd::prelude::*;

use crate::score::sat_add_u32;
use crate::{AccountOwner, ChainId, RoomId, Timestamp};

verus! {

/// Lifecycle phase of a room. Transitions are monotonic:
/// `Lobby` to `InProgress` to `Finished`, never backwards.
#[derive(Clone, Copy, Debug, PartialEq, Eq, Structural)]
pub enum RoomStatus {
    Lobby,
    InProgress,
    Finished,
}

/// The position of a phase in the room lifecycle.
pub open spec fn status_rank(status: RoomStatus) -> int {
    match status {
        RoomStatus::Lobby => 0,
        RoomStatus::InProgress => 1,
        RoomStatus::Finished => 2,
    }
}

/// One player's submission for a round, or one line of the final standings.
#[derive(Debug)]
pub struct PlayerResult {
    pub player: AccountOwner,
    pub player_name: String,
    pub wpm: u32,
    pub accuracy: u32,
    pub time_ms: u64,
    pub score: u32,
}

/// Mathematical model of a [`PlayerResult`].
#[verifier::ext_equal]
pub ghost struct PlayerResultView {
    pub player: AccountOwner,
    pub player_name: Seq<char>,
    pub wpm: u32,
    pub accuracy: u32,
    pub time_ms: u64,
    pub score: u32,
}

impl DeepView for PlayerResult {
    type V = PlayerResultView;

    open spec fn deep_view(&self) -> PlayerResultView {
        PlayerResultView {
            player: self.player,
            player_name: self.player_name@,
            wpm: self.wpm,
            accuracy: self.accuracy,
            time_ms: self.time_ms,
            score: self.score,
        }
    }
}

/// One member of a room, in join order.
#[derive(Debug)]
pub struct PlayerInfo {
    pub owner: AccountOwner,
    pub chain_id: ChainId,
    pub display_name: String,
    pub is_ready: bool,
}

/// Mathematical model of a [`PlayerInfo`].
#[verifier::ext_equal]
pub ghost struct PlayerInfoView {
    pub owner: AccountOwner,
    pub chain_id: ChainId,
    pub display_name: Seq<char>,
    pub is_ready: bool,
}

impl DeepView for PlayerInfo {
    type V = PlayerInfoView;

    open spec fn deep_view(&self) -> PlayerInfoView {
        PlayerInfoView {
            owner: self.owner,
            chain_id: self.chain_id,
            display_name: self.display_name@,
            is_ready: self.is_ready,
        }
    }
}

/// One player's cumulative standing inside a single room.
#[derive(Clone, Copy, Debug, PartialEq, Eq, Structural)]
pub struct PlayerScore {
    pub player: AccountOwner,
    pub total_score: u32,
    pub rounds_completed: u8,
}

impl DeepView for PlayerScore {
    type V = PlayerScore;

    open spec fn deep_view(&self) -> PlayerScore {
        *self
    }
}

/// A game room. The authoritative copy lives on the host's location; every
/// other member's location holds a replica overwritten by snapshots.
#[derive(Debug)]
pub struct GameRoom {
    pub room_id: RoomId,
    pub host: AccountOwner,
    pub host_chain_id: ChainId,
    pub players: Vec<PlayerInfo>,
    pub status: RoomStatus,
    pub max_players: u8,
    pub total_rounds: u8,
    pub current_round: u8,
    pub current_prompt: Option<String>,
    pub round_start_time: Option<Timestamp>,
    pub round_results: Vec<PlayerResult>,
    pub game_scores: Vec<PlayerScore>,
    pub created_at: Timestamp,
}

/// Mathematical model of a [`GameRoom`].
#[verifier::ext_equal]
pub ghost struct GameRoomView {
    pub room_id: RoomId,
    pub host: AccountOwner,
    pub host_chain_id: ChainId,
    pub players: Seq<PlayerInfoView>,
    pub status: RoomStatus,
    pub max_players: u8,
    pub total_rounds: u8,
    pub current_round: u8,
    pub current_prompt: Option<Seq<char>>,
    pub round_start_time: Option<Timestamp>,
    pub round_results: Seq<PlayerResultView>,
    pub game_scores: Seq<PlayerScore>,
    pub created_at: Timestamp,
}

impl View for GameRoom {
    type V = GameRoomView;

    open spec fn view(&self) -> GameRoomView {
        GameRoomView {
            room_id: self.room_id,
            host: self.host,
            host_chain_id: self.host_chain_id,
            players: self.players.deep_view(),
            status: self.status,
            max_players: self.max_players,
            total_rounds: self.total_rounds,
            current_round: self.current_round,
            current_prompt: self.current_prompt.deep_view(),
            round_start_time: self.round_start_time,
            round_results: self.round_results.deep_view(),
            game_scores: self.game_scores.deep_view(),
            created_at: self.created_at,
        }
    }
}

impl GameRoomView {
    /// The members' identities, in join order.
    pub open spec fn player_ids(self) -> Seq<AccountOwner> {
        self.players.map_values(|p: PlayerInfoView| p.owner)
    }

    /// The identities that have submitted for the current round.
    pub open spec fn result_ids(self) -> Seq<AccountOwner> {
        self.round_results.map_values(|r: PlayerResultView| r.player)
    }

    pub open spec fn has_player(self, owner: AccountOwner) -> bool {
        self.player_ids().contains(owner)
    }

    pub open spec fn has_result(self, owner: AccountOwner) -> bool {
        self.result_ids().contains(owner)
    }

    pub open spec fn is_full(self) -> bool {
        self.players.len() >= self.max_players as int
    }

    /// The index of a member in the join-order list. Well defined whenever
    /// the room is well formed and the member is present.
    pub open spec fn player_index(self, owner: AccountOwner) -> int {
        choose|i: int| 0 <= i < self.players.len() && self.players[i].owner == owner
    }

    /// Room integrity: what every operation of the machine preserves and
    /// every snapshot carries.
    ///
    /// Membership is bounded by the configured size and free of duplicates;
    /// the cumulative scores mirror the member list one to one; submissions
    /// for the current round come from members, one each; the round counter
    /// stays within the configured number of rounds; and each lifecycle phase
    /// pins the fields it owns (a lobby has no round running, a running round
    /// has a prompt and a start time, a finished game has played all rounds).
    pub open spec fn wf(self) -> bool {
        &&& 2 <= self.max_players && self.max_players <= 8
        &&& 1 <= self.total_rounds && self.total_rounds <= 10
        &&& self.current_round <= self.total_rounds
        &&& self.players.len() <= self.max_players as int
        &&& self.player_ids().no_duplicates()
        &&& self.game_scores.len() == self.players.len()
        &&& (forall|i: int|
            0 <= i < self.players.len() ==> (#[trigger] self.game_scores[i]).player
                == self.players[i].owner)
        &&& (forall|i: int|
            0 <= i < self.game_scores.len() ==> (#[trigger] self.game_scores[i]).rounds_completed
                <= self.current_round)
        &&& self.result_ids().no_duplicates()
        &&& (forall|i: int|
            0 <= i < self.round_results.len() ==> self.player_ids().contains(
                (#[trigger] self.round_results[i]).player,
            ))
        &&& (self.status is Lobby ==> self.current_round == 0
            && self.round_results.len() == 0)
        &&& (self.status is InProgress ==> {
            &&& 1 <= self.current_round
            &&& self.current_prompt is Some
            &&& self.round_start_time is Some
            &&& (forall|i: int|
                0 <= i < self.game_scores.len() && !self.result_ids().contains(
                    (#[trigger] self.game_scores[i]).player,
                ) ==> self.game_scores[i].rounds_completed < self.current_round)
        })
        &&& (self.status is Finished ==> self.current_round == self.total_rounds)
    }
}

impl GameRoomView {
    /// The index of a member's submission in the current round's results.
    /// Well defined whenever the room is well formed and the member has
    /// submitted.
    pub open spec fn result_index(self, owner: AccountOwner) -> int {
        choose|j: int| 0 <= j < self.round_results.len() && self.round_results[j].player == owner
    }

    /// The room after a new member joined the lobby: appended to the member
    /// list with a zeroed score entry.
    pub open spec fn with_player(self, p: PlayerInfoView) -> GameRoomView {
        GameRoomView {
            players: self.players.push(p),
            game_scores: self.game_scores.push(
                PlayerScore { player: p.owner, total_score: 0, rounds_completed: 0 },
            ),
            ..self
        }
    }

    /// The room after the host started the game: the first round is running
    /// with a fresh prompt and no submissions yet.
    pub open spec fn started(self, prompt: Seq<char>, start_time: Timestamp) -> GameRoomView {
        GameRoomView {
            status: RoomStatus::InProgress,
            current_round: 1,
            round_results: Seq::empty(),
            current_prompt: Some(prompt),
            round_start_time: Some(start_time),
            ..self
        }
    }

    /// The room after one member's submission was recorded: the result is
    /// appended and the member's cumulative entry grows by the submission's
    /// score and one completed round.
    pub open spec fn with_result(self, result: PlayerResultView) -> GameRoomView {
        let i = self.player_index(result.player);
        let entry = self.game_scores[i];
        GameRoomView {
            round_results: self.round_results.push(result),
            game_scores: self.game_scores.update(
                i,
                PlayerScore {
                    player: entry.player,
                    total_score: sat_add_u32(entry.total_score, result.score),
                    rounds_completed: (entry.rounds_completed + 1) as u8,
                },
            ),
            ..self
        }
    }

    /// The room after a round ended with more rounds to play: the next round
    /// is running with a fresh prompt and the submissions cleared.
    pub open spec fn advanced(self, prompt: Seq<char>, start_time: Timestamp) -> GameRoomView {
        GameRoomView {
            current_round: (self.current_round + 1) as u8,
            round_results: Seq::empty(),
            current_prompt: Some(prompt),
            round_start_time: Some(start_time),
            ..self
        }
    }

    /// The room after its last round ended. The final round's submissions
    /// stay in place as a record.
    pub open spec fn finished(self) -> GameRoomView {
        GameRoomView { status: RoomStatus::Finished, ..self }
    }

    /// The room after a member left: removed from the member list, from the
    /// cumulative scores, and from the current round's submissions. A leave
    /// of a non-member changes nothing.
    pub open spec fn without_player(self, owner: AccountOwner) -> GameRoomView {
        if self.has_player(owner) {
            let i = self.player_index(owner);
            let trimmed = GameRoomView {
                players: self.players.remove(i),
                game_scores: self.game_scores.remove(i),
                ..self
            };
            if self.has_result(owner) {
                GameRoomView {
                    round_results: self.round_results.remove(self.result_index(owner)),
                    ..trimmed
                }
            } else {
                trimmed
            }
        } else {
            self
        }
    }
}

/// A member's index is in range and holds the member.
pub proof fn lemma_player_index_valid(room: GameRoomView, owner: AccountOwner)
    requires
        room.has_player(owner),
    ensures
        0 <= room.player_index(owner) < room.players.len(),
        room.players[room.player_index(owner)].owner == owner,
{
    let ids = room.player_ids();
    let w = choose|i: int| 0 <= i < ids.len() && ids[i] == owner;
    assert(room.players[w].owner == owner);
}

/// A submitted member's result index is in range and holds that submission.
pub proof fn lemma_result_index_valid(room: GameRoomView, owner: AccountOwner)
    requires
        room.has_result(owner),
    ensures
        0 <= room.result_index(owner) < room.round_results.len(),
        room.round_results[room.result_index(owner)].player == owner,
{
    let ids = room.result_ids();
    let w = choose|i: int| 0 <= i < ids.len() && ids[i] == owner;
    assert(room.round_results[w].player == owner);
}

/// In a well-formed room no round can hold more submissions than there are
/// members: each submission comes from a distinct member.
pub proof fn lemma_round_results_at_most_players(room: GameRoomView)
    requires
        room.wf(),
    ensures
        room.round_results.len() <= room.players.len(),
{
    lemma_unique_subset_len(room.result_ids(), room.player_ids());
}

/// Joining a lobby that has space keeps the room well formed.
pub proof fn lemma_with_player_wf(room: GameRoomView, p: PlayerInfoView)
    requires
        room.wf(),
        room.status is Lobby,
        !room.is_full(),
        !room.has_player(p.owner),
    ensures
        room.with_player(p).wf(),
        room.with_player(p).player_ids() == room.player_ids().push(p.owner),
{
    let post = room.with_player(p);
    assert(post.player_ids() =~= room.player_ids().push(p.owner));
    assert(post.result_ids() =~= room.result_ids());
    let ids = room.player_ids();
    assert forall|i: int, j: int|
        0 <= i < post.player_ids().len() && 0 <= j < post.player_ids().len() && i
            != j implies post.player_ids()[i] != post.player_ids()[j] by {
        if i < ids.len() && j < ids.len() {
        } else if j == ids.len() {
            assert(ids[i] != p.owner);
        } else {
            assert(ids[j] != p.owner);
        }
    }
}

/// Starting the game from a lobby keeps the room well formed.
pub proof fn lemma_started_wf(room: GameRoomView, prompt: Seq<char>, start_time: Timestamp)
    requires
        room.wf(),
        room.status is Lobby,
    ensures
        room.started(prompt, start_time).wf(),
{
    let post = room.started(prompt, start_time);
    assert(post.player_ids() =~= room.player_ids());
    assert(post.result_ids() =~= Seq::<AccountOwner>::empty());
}

/// Recording a fresh submission from a member keeps the room well formed,
/// and extends the submissions by exactly that member.
pub proof fn lemma_with_result_wf(room: GameRoomView, result: PlayerResultView)
    requires
        room.wf(),
        room.status is InProgress,
        room.has_player(result.player),
        !room.has_result(result.player),
    ensures
        room.with_result(result).wf(),
        room.with_result(result).result_ids() == room.result_ids().push(result.player),
        room.with_result(result).player_ids() == room.player_ids(),
{
    let post = room.with_result(result);
    let idx = room.player_index(result.player);
    lemma_player_index_valid(room, result.player);
    assert(post.player_ids() =~= room.player_ids());
    assert(post.result_ids() =~= room.result_ids().push(result.player));
    let rids = room.result_ids();
    assert forall|i: int, j: int|
        0 <= i < post.result_ids().len() && 0 <= j < post.result_ids().len() && i
            != j implies post.result_ids()[i] != post.result_ids()[j] by {
        if i < rids.len() && j < rids.len() {
        } else if j == rids.len() {
            assert(rids[i] != result.player);
        } else {
            assert(rids[j] != result.player);
        }
    }
    assert(room.game_scores[idx].rounds_completed < room.current_round);
    assert forall|i: int|
        0 <= i < post.game_scores.len() && !post.result_ids().contains(
            (#[trigger] post.game_scores[i]).player,
        ) implies post.game_scores[i].rounds_completed < post.current_round by {
        assert(post.result_ids()[rids.len() as int] == result.player);
        assert(post.result_ids().contains(result.player));
        assert(post.game_scores[i] == room.game_scores[i]);
        assert(!room.result_ids().contains(room.game_scores[i].player)) by {
            if room.result_ids().contains(room.game_scores[i].player) {
                let w = choose|k: int|
                    0 <= k < rids.len() && rids[k] == room.game_scores[i].player;
                assert(post.result_ids()[w] == room.game_scores[i].player);
            }
        }
    }
}

/// Moving to the next round keeps the room well formed.
pub proof fn lemma_advanced_wf(room: GameRoomView, prompt: Seq<char>, start_time: Timestamp)
    requires
        room.wf(),
        room.status is InProgress,
        room.current_round < room.total_rounds,
    ensures
        room.advanced(prompt, start_time).wf(),
{
    let post = room.advanced(prompt, start_time);
    assert(post.player_ids() =~= room.player_ids());
    assert(post.result_ids() =~= Seq::<AccountOwner>::empty());
}

/// Finishing the game after its last round keeps the room well formed.
pub proof fn lemma_finished_wf(room: GameRoomView)
    requires
        room.wf(),
        room.status is InProgress,
        room.current_round >= room.total_rounds,
    ensures
        room.finished().wf(),
{
    let post = room.finished();
    assert(post.player_ids() =~= room.player_ids());
    assert(post.result_ids() =~= room.result_ids());
}

/// A leave keeps the room well formed: a member's entries go together from
/// the member list, the cumulative scores and the current round's
/// submissions; a non-member's leave changes nothing.
pub proof fn lemma_without_player_wf(room: GameRoomView, owner: AccountOwner)
    requires
        room.wf(),
    ensures
        room.without_player(owner).wf(),
        !room.without_player(owner).has_player(owner),
{
    let post = room.without_player(owner);
    if room.has_player(owner) {
        let i = room.player_index(owner);
        lemma_player_index_valid(room, owner);
        let ids = room.player_ids();
        room.players.remove_ensures(i);
        room.game_scores.remove_ensures(i);
        ids.remove_ensures(i);
        let pids = post.player_ids();
        assert(pids =~= ids.remove(i));
        assert forall|a: int, b: int|
            0 <= a < pids.len() && 0 <= b < pids.len() && a != b implies pids[a] != pids[b] by {
            let a0: int = if a < i {
                a
            } else {
                a + 1
            };
            let b0: int = if b < i {
                b
            } else {
                b + 1
            };
            assert(pids[a] == ids[a0]);
            assert(pids[b] == ids[b0]);
        }
        assert forall|a: int| 0 <= a < pids.len() implies pids[a] != owner by {
            let a0: int = if a < i {
                a
            } else {
                a + 1
            };
            assert(pids[a] == ids[a0]);
            assert(ids[i] == owner);
        }
        assert forall|a: int|
            0 <= a < post.players.len() implies (#[trigger] post.game_scores[a]).player
            == post.players[a].owner by {
            let a0: int = if a < i {
                a
            } else {
                a + 1
            };
            assert(post.game_scores[a] == room.game_scores[a0]);
            assert(post.players[a] == room.players[a0]);
        }
        assert forall|a: int|
            0 <= a < post.game_scores.len() implies (#[trigger] post.game_scores[a]).rounds_completed
            <= post.current_round by {
            let a0: int = if a < i {
                a
            } else {
                a + 1
            };
            assert(post.game_scores[a] == room.game_scores[a0]);
        }
        if room.has_result(owner) {
            let j = room.result_index(owner);
            lemma_result_index_valid(room, owner);
            let rids = room.result_ids();
            room.round_results.remove_ensures(j);
            rids.remove_ensures(j);
            let prids = post.result_ids();
            assert(prids =~= rids.remove(j));
            assert forall|a: int, b: int|
                0 <= a < prids.len() && 0 <= b < prids.len() && a != b implies prids[a]
                != prids[b] by {
                let a0: int = if a < j {
                    a
                } else {
                    a + 1
                };
                let b0: int = if b < j {
                    b
                } else {
                    b + 1
                };
                assert(prids[a] == rids[a0]);
                assert(prids[b] == rids[b0]);
            }
            assert forall|a: int|
                0 <= a < post.round_results.len() implies pids.contains(
                (#[trigger] post.round_results[a]).player,
            ) by {
                let a0: int = if a < j {
                    a
                } else {
                    a + 1
                };
                assert(post.round_results[a] == room.round_results[a0]);
                let p = room.round_results[a0].player;
                assert(rids[a0] == p);
                assert(rids[j] == owner);
                assert(p != owner);
                assert(ids.contains(p));
                let m = choose|m: int| 0 <= m < ids.len() && ids[m] == p;
                assert(m != i);
                let m1: int = if m < i {
                    m
                } else {
                    m - 1
                };
                assert(pids[m1] == ids[m]);
                assert(pids.contains(p));
            }
            if room.status is InProgress {
                assert forall|a: int|
                    0 <= a < post.game_scores.len() && !prids.contains(
                        (#[trigger] post.game_scores[a]).player,
                    ) implies post.game_scores[a].rounds_completed < post.current_round by {
                    let a0: int = if a < i {
                        a
                    } else {
                        a + 1
                    };
                    assert(post.game_scores[a] == room.game_scores[a0]);
                    let p = room.game_scores[a0].player;
                    if rids.contains(p) {
                        let k = choose|k: int| 0 <= k < rids.len() && rids[k] == p;
                        assert(p == room.players[a0].owner);
                        assert(ids[a0] == p);
                        assert(ids[i] == owner);
                        assert(a0 != i);
                        assert(p != owner);
                        assert(k != j);
                        let k1: int = if k < j {
                            k
                        } else {
                            k - 1
                        };
                        assert(prids[k1] == rids[k]);
                        assert(prids.contains(p));
                    }
                }
            }
        } else {
            assert(post.round_results == room.round_results);
            let rids = room.result_ids();
            let prids = post.result_ids();
            assert(prids == rids);
            assert forall|a: int|
                0 <= a < post.round_results.len() implies pids.contains(
                (#[trigger] post.round_results[a]).player,
            ) by {
                let p = room.round_results[a].player;
                assert(rids[a] == p);
                assert(p != owner) by {
                    if p == owner {
                        assert(rids.contains(owner));
                    }
                }
                assert(ids.contains(p));
                let m = choose|m: int| 0 <= m < ids.len() && ids[m] == p;
                assert(m != i);
                let m1: int = if m < i {
                    m
                } else {
                    m - 1
                };
                assert(pids[m1] == ids[m]);
                assert(pids.contains(p));
            }
            if room.status is InProgress {
                assert forall|a: int|
                    0 <= a < post.game_scores.len() && !prids.contains(
                        (#[trigger] post.game_scores[a]).player,
                    ) implies post.game_scores[a].rounds_completed < post.current_round by {
                    let a0: int = if a < i {
                        a
                    } else {
                        a + 1
                    };
                    assert(post.game_scores[a] == room.game_scores[a0]);
                }
            }
        }
    }
}

/// The index of the winning entry: the maximum cumulative score, ties broken
/// towards the later entry in join order.
pub open spec fn winner_index_of(scores: Seq<PlayerScore>) -> int
    decreases scores.len(),
{
    if scores.len() <= 1 {
        0
    } else {
        let rest = winner_index_of(scores.drop_last());
        if scores.last().total_score >= scores[rest].total_score {
            scores.len() - 1
        } else {
            rest
        }
    }
}

/// The winning entry holds the maximum cumulative score, and every entry
/// after it scores strictly less: ties resolve to the last maximal entry.
pub proof fn lemma_winner_index_properties(scores: Seq<PlayerScore>)
    requires
        scores.len() >= 1,
    ensures
        0 <= winner_index_of(scores) < scores.len(),
        forall|i: int|
            0 <= i < scores.len() ==> (#[trigger] scores[i]).total_score <= scores[winner_index_of(
                scores,
            )].total_score,
        forall|i: int|
            winner_index_of(scores) < i < scores.len() ==> (#[trigger] scores[i]).total_score
                < scores[winner_index_of(scores)].total_score,
    decreases scores.len(),
{
    if scores.len() > 1 {
        lemma_winner_index_properties(scores.drop_last());
        assert(forall|i: int|
            0 <= i < scores.len() - 1 ==> #[trigger] scores[i] == scores.drop_last()[i]);
    }
}

/// One line of the final standings: a member's cumulative score, with the
/// per-round fields zeroed.
pub open spec fn standings_entry(room: GameRoomView, i: int) -> PlayerResultView {
    PlayerResultView {
        player: room.game_scores[i].player,
        player_name: room.players[i].display_name,
        wpm: 0,
        accuracy: 0,
        time_ms: 0,
        score: room.game_scores[i].total_score,
    }
}

/// The final standings: every member's cumulative score, in join order.
pub open spec fn standings_of(room: GameRoomView) -> Seq<PlayerResultView> {
    Seq::new(room.game_scores.len(), |i: int| standings_entry(room, i))
}

/// A duplicate-free sequence that lives inside another duplicate-free
/// sequence is no longer than it.
pub proof fn lemma_unique_subset_len(a: Seq<AccountOwner>, b: Seq<AccountOwner>)
    requires
        a.no_duplicates(),
        b.no_duplicates(),
        forall|i: int| 0 <= i < a.len() ==> b.contains(#[trigger] a[i]),
    ensures
        a.len() <= b.len(),
{
    broadcast use vstd::seq_lib::seq_to_set_is_finite;

    a.unique_seq_to_set();
    b.unique_seq_to_set();
    assert forall|x: AccountOwner| a.to_set().contains(x) implies b.to_set().contains(x) by {
        let i = choose|i: int| 0 <= i < a.len() && a[i] == x;
        assert(b.contains(a[i]));
    }
    vstd::set_lib::lemma_len_subset(a.to_set(), b.to_set());
}

/// The model of a freshly created room: a lobby whose sole member is its
/// host, marked ready, with a zeroed score entry.
pub open spec fn fresh_room(
    room_id: RoomId,
    host: AccountOwner,
    host_chain_id: ChainId,
    host_name: Seq<char>,
    max_players: u8,
    rounds: u8,
    created_at: Timestamp,
) -> GameRoomView {
    GameRoomView {
        room_id,
        host,
        host_chain_id,
        players: seq![
            PlayerInfoView { owner: host, chain_id: host_chain_id, display_name: host_name, is_ready: true },
        ],
        status: RoomStatus::Lobby,
        max_players,
        total_rounds: rounds,
        current_round: 0,
        current_prompt: None,
        round_start_time: None,
        round_results: Seq::empty(),
        game_scores: seq![PlayerScore { player: host, total_score: 0, rounds_completed: 0 }],
        created_at,
    }
}

impl GameRoom {
    /// Create a room in its lobby, with the host as sole, ready member.
    pub fn new(
        room_id: RoomId,
        host: AccountOwner,
        host_chain_id: ChainId,
        host_name: String,
        max_players: u8,
        rounds: u8,
        created_at: Timestamp,
    ) -> (room: GameRoom)
        requires
            2 <= max_players <= 8,
            1 <= rounds <= 10,
        ensures
            room@ == fresh_room(
                room_id,
                host,
                host_chain_id,
                host_name@,
                max_players,
                rounds,
                created_at,
            ),
            room@.wf(),
    {
        let host_info = PlayerInfo {
            owner: host,
            chain_id: host_chain_id,
            display_name: host_name,
            is_ready: true,
        };
        let mut players: Vec<PlayerInfo> = Vec::new();
        players.push(host_info);
        let mut game_scores: Vec<PlayerScore> = Vec::new();
        game_scores.push(PlayerScore { player: host, total_score: 0, rounds_completed: 0 });
        let room = GameRoom {
            room_id,
            host,
            host_chain_id,
            players,
            status: RoomStatus::Lobby,
            max_players,
            total_rounds: rounds,
            current_round: 0,
            current_prompt: None,
            round_start_time: None,
            round_results: Vec::new(),
            game_scores,
            created_at,
        };
        proof {
            let target = fresh_room(
                room_id,
                host,
                host_chain_id,
                host_name@,
                max_players,
                rounds,
                created_at,
            );
            assert(room@ =~~= target);
            assert(target.player_ids() =~= seq![host]);
            assert(target.result_ids() =~= Seq::<AccountOwner>::empty());
        }
        room
    }

    /// Whether the lobby has reached its configured size.
    pub fn is_full(&self) -> (full: bool)
        ensures
            full == self@.is_full(),
    {
        self.players.len() >= self.max_players as usize
    }

    /// Whether a newcomer could join: still a lobby, with space left.
    pub fn is_joinable(&self) -> (joinable: bool)
        ensures
            joinable == (self@.status is Lobby && !self@.is_full()),
    {
        self.status == RoomStatus::Lobby && !self.is_full()
    }

    /// Whether the given identity is a member of this room.
    pub fn has_player(&self, owner: &AccountOwner) -> (found: bool)
        ensures
            found == self@.has_player(*owner),
    {
        let ghost ids = self@.player_ids();
        let n = self.players.len();
        let mut i: usize = 0;
        while i < n
            invariant
                n == self.players.len(),
                0 <= i <= n,
                ids == self@.player_ids(),
                forall|j: int| 0 <= j < i ==> ids[j] != *owner,
            decreases n - i,
        {
            if self.players[i].owner == *owner {
                assert(ids[i as int] == *owner);
                return true;
            }
            i = i + 1;
        }
        assert(!ids.contains(*owner));
        false
    }

    /// Whether the given identity has already submitted for the current round.
    pub fn has_result(&self, owner: &AccountOwner) -> (found: bool)
        ensures
            found == self@.has_result(*owner),
    {
        let ghost ids = self@.result_ids();
        let n = self.round_results.len();
        let mut i: usize = 0;
        while i < n
            invariant
                n == self.round_results.len(),
                0 <= i <= n,
                ids == self@.result_ids(),
                forall|j: int| 0 <= j < i ==> ids[j] != *owner,
            decreases n - i,
        {
            if self.round_results[i].player == *owner {
                assert(ids[i as int] == *owner);
                return true;
            }
            i = i + 1;
        }
        assert(!ids.contains(*owner));
        false
    }

    /// The home location of a member, if present.
    pub fn get_player_chain(&self, owner: &AccountOwner) -> (chain: Option<ChainId>)
        ensures
            match chain {
                Some(c) => self@.has_player(*owner) && exists|i: int|
                    0 <= i < self@.players.len() && (#[trigger] self@.players[i]).owner == *owner
                        && self@.players[i].chain_id == c,
                None => !self@.has_player(*owner),
            },
    {
        let ghost ids = self@.player_ids();
        let n = self.players.len();
        let mut i: usize = 0;
        while i < n
            invariant
                n == self.players.len(),
                0 <= i <= n,
                ids == self@.player_ids(),
                forall|j: int| 0 <= j < i ==> ids[j] != *owner,
            decreases n - i,
        {
            if self.players[i].owner == *owner {
                assert(ids[i as int] == *owner);
                return Some(self.players[i].chain_id);
            }
            i = i + 1;
        }
        assert(!ids.contains(*owner));
        None
    }

    /// Whether every currently known member has submitted for this round.
    pub fn all_results_submitted(&self) -> (done: bool)
        ensures
            done == (self@.round_results.len() >= self@.players.len()),
    {
        self.round_results.len() >= self.players.len()
    }

    /// A deep copy of the room, used as the payload of a snapshot broadcast.
    pub fn snapshot(&self) -> (copy: GameRoom)
        ensures
            copy@ == self@,
    {
        let mut players: Vec<PlayerInfo> = Vec::new();
        let mut i: usize = 0;
        while i < self.players.len()
            invariant
                0 <= i <= self.players.len(),
                players.deep_view() =~= self.players.deep_view().take(i as int),
            decreases self.players.len() - i,
        {
            let p = &self.players[i];
            players.push(
                PlayerInfo {
                    owner: p.owner,
                    chain_id: p.chain_id,
                    display_name: p.display_name.clone(),
                    is_ready: p.is_ready,
                },
            );
            proof {
                assert(self.players.deep_view().take(i + 1) =~= self.players.deep_view().take(
                    i as int,
                ).push(self.players[i as int].deep_view()));
                assert(players.deep_view() =~= self.players.deep_view().take(i + 1));
            }
            i = i + 1;
        }
        let mut round_results: Vec<PlayerResult> = Vec::new();
        let mut i: usize = 0;
        while i < self.round_results.len()
            invariant
                0 <= i <= self.round_results.len(),
                round_results.deep_view() =~= self.round_results.deep_view().take(i as int),
            decreases self.round_results.len() - i,
        {
            let r = &self.round_results[i];
            round_results.push(
                PlayerResult {
                    player: r.player,
                    player_name: r.player_name.clone(),
                    wpm: r.wpm,
                    accuracy: r.accuracy,
                    time_ms: r.time_ms,
                    score: r.score,
                },
            );
            proof {
                assert(self.round_results.deep_view().take(i + 1)
                    =~= self.round_results.deep_view().take(i as int).push(
                    self.round_results[i as int].deep_view(),
                ));
                assert(round_results.deep_view() =~= self.round_results.deep_view().take(i + 1));
            }
            i = i + 1;
        }
        let mut game_scores: Vec<PlayerScore> = Vec::new();
        let mut i: usize = 0;
        while i < self.game_scores.len()
            invariant
                0 <= i <= self.game_scores.len(),
                game_scores.deep_view() =~= self.game_scores.deep_view().take(i as int),
            decreases self.game_scores.len() - i,
        {
            game_scores.push(self.game_scores[i]);
            proof {
                assert(self.game_scores.deep_view().take(i + 1)
                    =~= self.game_scores.deep_view().take(i as int).push(
                    self.game_scores[i as int].deep_view(),
                ));
                assert(game_scores.deep_view() =~= self.game_scores.deep_view().take(i + 1));
            }
            i = i + 1;
        }
        let current_prompt: Option<String> = match &self.current_prompt {
            Some(prompt) => Some(prompt.clone()),
            None => None,
        };
        let copy = GameRoom {
            room_id: self.room_id,
            host: self.host,
            host_chain_id: self.host_chain_id,
            players,
            status: self.status,
            max_players: self.max_players,
            total_rounds: self.total_rounds,
            current_round: self.current_round,
            current_prompt,
            round_start_time: self.round_start_time,
            round_results,
            game_scores,
            created_at: self.created_at,
        };
        proof {
            assert(copy.players.deep_view() =~= self.players.deep_view());
            assert(copy.round_results.deep_view() =~= self.round_results.deep_view());
            assert(copy.game_scores.deep_view() =~= self.game_scores.deep_view());
            assert(copy@ =~~= self@);
        }
        copy
    }
}

/// Whether the members' identities are pairwise distinct.
fn owners_unique(players: &Vec<PlayerInfo>) -> (unique: bool)
    ensures
        unique == players.deep_view().map_values(|p: PlayerInfoView| p.owner).no_duplicates(),
{
    let ghost ids = players.deep_view().map_values(|p: PlayerInfoView| p.owner);
    let n = players.len();
    let mut i: usize = 0;
    while i < n
        invariant
            n == players.len(),
            0 <= i <= n,
            ids == players.deep_view().map_values(|p: PlayerInfoView| p.owner),
            forall|x: int, y: int| 0 <= x < y < n && x < i ==> ids[x] != ids[y],
        decreases n - i,
    {
        let mut j: usize = i + 1;
        while j < n
            invariant
                n == players.len(),
                0 <= i < j <= n,
                ids == players.deep_view().map_values(|p: PlayerInfoView| p.owner),
                forall|y: int| i < y < j ==> ids[i as int] != ids[y],
            decreases n - j,
        {
            if players[i].owner == players[j].owner {
                assert(ids[i as int] == ids[j as int]);
                return false;
            }
            j = j + 1;
        }
        i = i + 1;
    }
    assert forall|x: int, y: int| 0 <= x < n && 0 <= y < n && x != y implies ids[x] != ids[y] by {
        if x < y {
        } else {
            assert(ids[y] != ids[x]);
        }
    }
    true
}

/// Whether the submitting identities are pairwise distinct.
fn result_owners_unique(results: &Vec<PlayerResult>) -> (unique: bool)
    ensures
        unique == results.deep_view().map_values(|r: PlayerResultView| r.player).no_duplicates(),
{
    let ghost ids = results.deep_view().map_values(|r: PlayerResultView| r.player);
    let n = results.len();
    let mut i: usize = 0;
    while i < n
        invariant
            n == results.len(),
            0 <= i <= n,
            ids == results.deep_view().map_values(|r: PlayerResultView| r.player),
            forall|x: int, y: int| 0 <= x < y < n && x < i ==> ids[x] != ids[y],
        decreases n - i,
    {
        let mut j: usize = i + 1;
        while j < n
            invariant
                n == results.len(),
                0 <= i < j <= n,
                ids == results.deep_view().map_values(|r: PlayerResultView| r.player),
                forall|y: int| i < y < j ==> ids[i as int] != ids[y],
            decreases n - j,
        {
            if results[i].player == results[j].player {
                assert(ids[i as int] == ids[j as int]);
                return false;
            }
            j = j + 1;
        }
        i = i + 1;
    }
    assert forall|x: int, y: int| 0 <= x < n && 0 <= y < n && x != y implies ids[x] != ids[y] by {
        if x < y {
        } else {
            assert(ids[y] != ids[x]);
        }
    }
    true
}

impl GameRoom {
    /// Runtime check of the room invariant. A replica holds an inbound
    /// snapshot, which arrives as untrusted bytes, to this before applying
    /// it.
    pub fn is_well_formed(&self) -> (ok: bool)
        ensures
            ok == self@.wf(),
    {
        if self.max_players < 2 || self.max_players > 8 {
            return false;
        }
        if self.total_rounds < 1 || self.total_rounds > 10 {
            return false;
        }
        if self.current_round > self.total_rounds {
            return false;
        }
        if self.players.len() > self.max_players as usize {
            return false;
        }
        if !owners_unique(&self.players) {
            return false;
        }
        if self.game_scores.len() != self.players.len() {
            return false;
        }
        let n = self.players.len();
        let mut i: usize = 0;
        while i < n
            invariant
                n == self.players.len(),
                n == self.game_scores.len(),
                0 <= i <= n,
                forall|j: int|
                    0 <= j < i ==> (#[trigger] self@.game_scores[j]).player
                        == self@.players[j].owner,
                forall|j: int|
                    0 <= j < i ==> (#[trigger] self@.game_scores[j]).rounds_completed
                        <= self@.current_round,
            decreases n - i,
        {
            if self.game_scores[i].player != self.players[i].owner {
                proof {
                    assert(self@.game_scores[i as int].player != self@.players[i as int].owner);
                }
                return false;
            }
            if self.game_scores[i].rounds_completed > self.current_round {
                proof {
                    assert(self@.game_scores[i as int].rounds_completed > self@.current_round);
                }
                return false;
            }
            proof {
                assert(self@.game_scores[i as int].player == self@.players[i as int].owner);
                assert(self@.game_scores[i as int].rounds_completed <= self@.current_round);
            }
            i = i + 1;
        }
        if !result_owners_unique(&self.round_results) {
            return false;
        }
        let m = self.round_results.len();
        let mut i: usize = 0;
        while i < m
            invariant
                m == self.round_results.len(),
                0 <= i <= m,
                forall|j: int|
                    0 <= j < i ==> self@.player_ids().contains(
                        (#[trigger] self@.round_results[j]).player,
                    ),
            decreases m - i,
        {
            let submitter = self.round_results[i].player;
            proof {
                assert(self@.round_results[i as int].player == submitter);
            }
            if !self.has_player(&submitter) {
                return false;
            }
            i = i + 1;
        }
        match self.status {
            RoomStatus::Lobby => {
                if self.current_round != 0 || self.round_results.len() != 0 {
                    return false;
                }
            },
            RoomStatus::InProgress => {
                if self.current_round < 1 {
                    return false;
                }
                if self.current_prompt.is_none() {
                    return false;
                }
                if self.round_start_time.is_none() {
                    return false;
                }
                let mut i: usize = 0;
                while i < n
                    invariant
                        n == self.players.len(),
                        n == self.game_scores.len(),
                        0 <= i <= n,
                        self@.status is InProgress,
                        1 <= self@.current_round,
                        forall|j: int|
                            0 <= j < i && !self@.result_ids().contains(
                                (#[trigger] self@.game_scores[j]).player,
                            ) ==> self@.game_scores[j].rounds_completed < self@.current_round,
                    decreases n - i,
                {
                    let entry_owner = self.game_scores[i].player;
                    proof {
                        assert(self@.game_scores[i as int].player == entry_owner);
                    }
                    if !self.has_result(&entry_owner) && self.game_scores[i].rounds_completed
                        >= self.current_round {
                        proof {
                            let v = self@;
                            assert(v.status is InProgress);
                            assert((i as int) < v.game_scores.len());
                            assert(!v.result_ids().contains(v.game_scores[i as int].player));
                            assert(v.game_scores[i as int].rounds_completed >= v.current_round);
                            assert(!v.wf());
                        }
                        return false;
                    }
                    i = i + 1;
                }
            },
            RoomStatus::Finished => {
                if self.current_round != self.total_rounds {
                    return false;
                }
            },
        }
        true
    }
}

} // verus!
