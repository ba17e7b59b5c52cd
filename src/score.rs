//! The score of the current game and the best score of the session.
use vstd::prelude::*;

verus! {

pub open spec fn capped_sum(a: u64, b: u64) -> u64 {
    if a + b > u64::MAX {
        u64::MAX
    } else {
        (a + b) as u64
    }
}

/// Current score and high score; the high score never falls below the
/// current score.
pub struct ScoreTracker {
    pub score: u64,
    pub high_score: u64,
}

impl ScoreTracker {
    pub open spec fn wf(&self) -> bool {
        self.score <= self.high_score
    }

    pub fn new() -> (r: ScoreTracker)
        ensures
            r.wf(),
            r.score == 0,
            r.high_score == 0,
    {
        ScoreTracker { score: 0, high_score: 0 }
    }

    /// Adds points to the score (stopping at the largest `u64`) and raises
    /// the high score to it.
    pub fn add(&mut self, gain: u64)
        requires
            old(self).wf(),
        ensures
            final(self).wf(),
            final(self).score == capped_sum(old(self).score, gain),
            final(self).high_score == if final(self).score > old(self).high_score {
                final(self).score
            } else {
                old(self).high_score
            },
            final(self).high_score >= old(self).high_score,
    {
        self.score = self.score.saturating_add(gain);
        if self.score > self.high_score {
            self.high_score = self.score;
        }
    }

    /// Starts a new game: the score goes back to 0, the high score stays.
    pub fn reset(&mut self)
        requires
            old(self).wf(),
        ensures
            final(self).wf(),
            final(self).score == 0,
            final(self).high_score == old(self).high_score,
    {
        self.score = 0;
    }
}

} // verus!
