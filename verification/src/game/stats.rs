//! Lifetime statistics: the player's results against A*, and the bloodhound
//! survival mode.

use vstd::prelude::*;

verus! {

/// Lifetime record of bloodhound runs.
#[derive(Clone, Debug)]
pub struct BloodhoundStats {
    pub runs: u32,
    pub deaths: u32,
    pub best_level: u32,
    pub total_screams: u32,
}

impl Default for BloodhoundStats {
    fn default() -> (r: Self)
        ensures
            r.runs == 0,
            r.deaths == 0,
            r.best_level == 0,
            r.total_screams == 0,
    {
        Self { runs: 0, deaths: 0, best_level: 0, total_screams: 0 }
    }
}

impl BloodhoundStats {
    /// Records the outcome of one full run: one more run, one more death if
    /// the player was caught, the best level so far, and the screams added up.
    pub fn record_run(&mut self, levels_cleared: u32, screams: u32, caught: bool)
        requires
            old(self).runs < u32::MAX,
            caught ==> old(self).deaths < u32::MAX,
            old(self).total_screams + screams <= u32::MAX,
        ensures
            final(self).runs == old(self).runs + 1,
            final(self).deaths == old(self).deaths + (if caught { 1int } else { 0int }),
            final(self).best_level == (if levels_cleared > old(self).best_level { levels_cleared } else { old(self).best_level }),
            final(self).total_screams == old(self).total_screams + screams,
    {
        self.runs = self.runs + 1;
        if caught {
            self.deaths = self.deaths + 1;
        }
        if levels_cleared > self.best_level {
            self.best_level = levels_cleared;
        }
        self.total_screams = self.total_screams + screams;
    }
}

/// Lifetime tally of the player's levels against A*: a win takes fewer moves
/// than the optimal walk, a tie as many, a loss more.
#[derive(Clone, Copy, Debug)]
pub struct CompetitiveTally {
    pub total_games: u32,
    pub wins: u32,
    pub ties: u32,
    pub losses: u32,
}

impl CompetitiveTally {
    /// Counts one level: one more game, and one more win, tie or loss by
    /// comparing the player's moves with the optimal number.
    pub fn record(&mut self, player_moves: usize, optimal_moves: usize)
        requires
            old(self).total_games < u32::MAX,
            player_moves < optimal_moves ==> old(self).wins < u32::MAX,
            player_moves == optimal_moves ==> old(self).ties < u32::MAX,
            player_moves > optimal_moves ==> old(self).losses < u32::MAX,
        ensures
            final(self).total_games == old(self).total_games + 1,
            final(self).wins == old(self).wins + (if player_moves < optimal_moves { 1int } else { 0int }),
            final(self).ties == old(self).ties + (if player_moves == optimal_moves { 1int } else { 0int }),
            final(self).losses == old(self).losses + (if player_moves > optimal_moves { 1int } else { 0int }),
    {
        self.total_games = self.total_games + 1;
        if player_moves < optimal_moves {
            self.wins = self.wins + 1;
        } else if player_moves == optimal_moves {
            self.ties = self.ties + 1;
        } else {
            self.losses = self.losses + 1;
        }
    }
}

} // verus!
