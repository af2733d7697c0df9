//! Persistent per-player performance counters, independent of any single room.

use vstd::prelude::*;

use vstd::arithmetic::div_mod::{lemma_div_is_ordered, lemma_div_multiples_vanish};

verus! {

/// Cross-room, persistent statistics of one player, keyed by identity in the
/// global stats store. Created with all counters zero on a player's first
/// submission, updated on every valid submission and on game completion,
/// never deleted.
#[derive(Clone, Copy, Debug, PartialEq, Eq, Structural)]
pub struct PlayerStats {
    pub games_played: u32,
    pub games_won: u32,
    pub total_wpm: u64,
    pub total_accuracy: u64,
    pub rounds_played: u32,
    pub best_wpm: u32,
    pub best_accuracy: u32,
}

/// A counter bump that stops at the largest representable value instead of
/// overflowing.
pub open spec fn bump_u32(x: u32) -> u32 {
    if x < u32::MAX {
        (x + 1) as u32
    } else {
        x
    }
}

impl PlayerStats {
    /// The accumulated totals never outgrow what `rounds_played` submissions,
    /// each bounded by `u32::MAX`, can contribute.
    pub open spec fn wf(self) -> bool {
        &&& self.total_wpm as int <= self.rounds_played as int * u32::MAX as int
        &&& self.total_accuracy as int <= self.rounds_played as int * u32::MAX as int
    }

    /// The record with every counter zero.
    pub open spec fn zero() -> PlayerStats {
        PlayerStats {
            games_played: 0,
            games_won: 0,
            total_wpm: 0,
            total_accuracy: 0,
            rounds_played: 0,
            best_wpm: 0,
            best_accuracy: 0,
        }
    }

    /// The record after one more submission: one more round, totals grown by
    /// the submission, maxima updated, game counters untouched.
    pub open spec fn updated_with(self, wpm: u32, accuracy: u32) -> PlayerStats {
        PlayerStats {
            rounds_played: (self.rounds_played + 1) as u32,
            total_wpm: (self.total_wpm + wpm) as u64,
            total_accuracy: (self.total_accuracy + accuracy) as u64,
            best_wpm: if wpm > self.best_wpm {
                wpm
            } else {
                self.best_wpm
            },
            best_accuracy: if accuracy > self.best_accuracy {
                accuracy
            } else {
                self.best_accuracy
            },
            ..self
        }
    }

    /// Mean speed over all recorded rounds: zero while nothing is recorded,
    /// otherwise the integer division of the accumulated total.
    pub open spec fn average_wpm_value(self) -> int {
        if self.rounds_played == 0 {
            0
        } else {
            self.total_wpm as int / self.rounds_played as int
        }
    }

    /// Mean accuracy over all recorded rounds: zero while nothing is
    /// recorded, otherwise the integer division of the accumulated total.
    pub open spec fn average_accuracy_value(self) -> int {
        if self.rounds_played == 0 {
            0
        } else {
            self.total_accuracy as int / self.rounds_played as int
        }
    }

    pub fn average_wpm(&self) -> (avg: u32)
        requires
            self.wf(),
        ensures
            avg as int == self.average_wpm_value(),
    {
        if self.rounds_played == 0 {
            0
        } else {
            proof {
                lemma_average_fits_u32(self.total_wpm, self.rounds_played);
            }
            (self.total_wpm / (self.rounds_played as u64)) as u32
        }
    }

    pub fn average_accuracy(&self) -> (avg: u32)
        requires
            self.wf(),
        ensures
            avg as int == self.average_accuracy_value(),
    {
        if self.rounds_played == 0 {
            0
        } else {
            proof {
                lemma_average_fits_u32(self.total_accuracy, self.rounds_played);
            }
            (self.total_accuracy / (self.rounds_played as u64)) as u32
        }
    }

    /// Record one submission. The caller keeps the round counter below the
    /// machine word's end, where one more round could not be counted.
    pub fn update_with_result(&mut self, wpm: u32, accuracy: u32)
        requires
            old(self).wf(),
            old(self).rounds_played < u32::MAX,
        ensures
            *final(self) == old(self).updated_with(wpm, accuracy),
            final(self).wf(),
    {
        proof {
            lemma_updated_totals_fit(*self, wpm, accuracy);
        }
        self.rounds_played = self.rounds_played + 1;
        self.total_wpm = self.total_wpm + wpm as u64;
        self.total_accuracy = self.total_accuracy + accuracy as u64;
        if wpm > self.best_wpm {
            self.best_wpm = wpm;
        }
        if accuracy > self.best_accuracy {
            self.best_accuracy = accuracy;
        }
    }

    /// Count one finished game for this player.
    pub fn record_game_played(&mut self)
        ensures
            *final(self) == (PlayerStats {
                games_played: bump_u32(old(self).games_played),
                ..*old(self)
            }),
    {
        if self.games_played < u32::MAX {
            self.games_played = self.games_played + 1;
        }
    }

    /// Count one won game for this player.
    pub fn record_game_won(&mut self)
        ensures
            *final(self) == (PlayerStats {
                games_won: bump_u32(old(self).games_won),
                ..*old(self)
            }),
    {
        if self.games_won < u32::MAX {
            self.games_won = self.games_won + 1;
        }
    }
}

impl Default for PlayerStats {
    /// A fresh record: every counter zero.
    fn default() -> (stats: PlayerStats)
        ensures
            stats == PlayerStats::zero(),
            stats.wf(),
    {
        PlayerStats {
            games_played: 0,
            games_won: 0,
            total_wpm: 0,
            total_accuracy: 0,
            rounds_played: 0,
            best_wpm: 0,
            best_accuracy: 0,
        }
    }
}

/// With totals bounded by `rounds * u32::MAX`, the average of a non-empty
/// record fits in 32 bits.
proof fn lemma_average_fits_u32(total: u64, rounds: u32)
    requires
        0 < rounds,
        total as int <= rounds as int * u32::MAX as int,
    ensures
        total as int / rounds as int <= u32::MAX as int,
{
    lemma_div_is_ordered(total as int, rounds as int * u32::MAX as int, rounds as int);
    lemma_div_multiples_vanish(u32::MAX as int, rounds as int);
}

/// One more bounded submission keeps the totals inside 64 bits and inside
/// the well-formedness bound.
proof fn lemma_updated_totals_fit(stats: PlayerStats, wpm: u32, accuracy: u32)
    requires
        stats.wf(),
        stats.rounds_played < u32::MAX,
    ensures
        stats.total_wpm + wpm <= (stats.rounds_played + 1) * (u32::MAX as int),
        stats.total_accuracy + accuracy <= (stats.rounds_played + 1) * (u32::MAX as int),
        (stats.rounds_played + 1) * (u32::MAX as int) <= u64::MAX as int,
{
    let r = stats.rounds_played as int;
    let m = u32::MAX as int;
    assert(r * m + m == (r + 1) * m) by (nonlinear_arith);
    assert((r + 1) * m <= m * m) by (nonlinear_arith)
        requires
            r + 1 <= m,
            0 <= m,
    ;
}

} // verus!
