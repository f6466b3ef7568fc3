//! The game session: one grid plus a cumulative score, advanced one turn
//! at a time.

use vstd::prelude::*;
use crate::Direction;
use crate::{SCORE_CAP, SUM_CAP};
use crate::grid::GameState;
use crate::model::{
    grid_sum, grid_wf, has_empty, lemma_slide_delta_bound, occupied_count, slide_delta, slide_grid,
    spawn_rel,
};

verus! {

/// A session of the game: one grid and the score accumulated so far. The
/// score never decreases while the session lives.
pub struct Game {
    state: GameState,
    score: usize,
}

impl Game {
    /// The session's grid, as the model sees it.
    pub closed spec fn spec_grid(self) -> Seq<usize> {
        self.state@
    }

    /// The cumulative score.
    pub closed spec fn spec_score(self) -> usize {
        self.score
    }

    /// The session's invariant: its grid is well formed.
    pub open spec fn wf(self) -> bool {
        grid_wf(self.spec_grid())
    }

    /// A fresh session: an all-empty grid into which two tiles are
    /// spawned, and a score of zero.
    pub fn new() -> (r: Game)
        ensures
            r.wf(),
            r.spec_score() == 0,
            occupied_count(r.spec_grid()) == 2,
            grid_sum(r.spec_grid()) <= 8,
    {
        let mut state = GameState::new();
        state.add_random_tile();
        proof {
            assert(has_empty(state@));
        }
        state.add_random_tile();
        Game { state, score: 0 }
    }

    /// One turn: slide in the given direction, add the slide's score to
    /// the session's, then spawn one tile — one slide, one score update,
    /// one spawn, in that order, even when the slide moved nothing. The
    /// two cap bounds are machine limits that keep both sums exact.
    pub fn step(&mut self, direction: Direction)
        requires
            old(self).wf(),
            grid_sum(old(self).spec_grid()) + 4 <= SUM_CAP,
            old(self).spec_score() <= SCORE_CAP,
        ensures
            final(self).wf(),
            final(self).spec_score() == old(self).spec_score() + slide_delta(
                old(self).spec_grid(),
                direction,
            ),
            old(self).spec_score() <= final(self).spec_score(),
            spawn_rel(
                slide_grid(old(self).spec_grid(), direction),
                final(self).spec_grid(),
            ),
            grid_sum(final(self).spec_grid()) <= grid_sum(old(self).spec_grid()) + 4,
    {
        proof {
            lemma_slide_delta_bound(self.spec_grid(), direction);
        }
        let delta = self.state.slide(direction);
        self.score = self.score + delta;
        self.state.add_random_tile();
    }

    /// The cumulative score so far.
    pub fn score(&self) -> (r: usize)
        ensures
            r == self.spec_score(),
    {
        self.score
    }

    /// True exactly when every cell of the grid is occupied.
    pub fn is_over(&self) -> (r: bool)
        requires
            self.wf(),
        ensures
            r == !has_empty(self.spec_grid()),
    {
        self.state.is_over()
    }

    /// A row-major snapshot of the 16 cells, for display and for the
    /// decision source.
    pub fn cells(&self) -> (r: Vec<usize>)
        requires
            self.wf(),
        ensures
            r@ == self.spec_grid(),
    {
        let mut out: Vec<usize> = Vec::new();
        let mut i: usize = 0;
        while i < 16
            invariant
                i <= 16,
                out@.len() == i,
                self.spec_grid().len() == 16,
                forall|j: int| 0 <= j < i ==> out@[j] == self.spec_grid()[j],
            decreases 16 - i,
        {
            let c = self.state.get(i);
            out.push(c);
            i = i + 1;
        }
        proof {
            assert(out@ =~= self.spec_grid());
        }
        out
    }
}

} // verus!
