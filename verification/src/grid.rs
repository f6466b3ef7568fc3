//! The grid engine: the 4x4 tile grid with its slides, its spawner and its
//! terminal check.

use vstd::prelude::*;
use crate::Direction;
use crate::SUM_CAP;
use crate::model::{
    grid_sum, grid_wf, has_empty, is_pow2, lemma_cell_index_bijective,
    lemma_fob_from_scan, lemma_grid_line_sums, lemma_slide_line_props, lemma_step_props, line_delta,
    line_delta_upto, line_of, line_of_cell, line_sum, occupied_count, pos_of_cell, slide_delta,
    slide_delta_upto, slide_grid, slide_line, slide_line_upto, spawn_rel, spec_cell_index,
    step_result, step_score, valid_cell,
};
use crate::rng::{nine_in_ten, pick_index};

verus! {

/// A 4x4 grid of tiles, row-major; 0 means empty. Its view is the
/// sequence of its 16 cells.
pub struct GameState {
    cells: Vec<usize>,
}

impl View for GameState {
    type V = Seq<usize>;

    closed spec fn view(&self) -> Seq<usize> {
        self.cells@
    }
}

impl GameState {
    /// The grid's invariant: see `grid_wf`.
    pub open spec fn wf(self) -> bool {
        grid_wf(self@)
    }

    /// An all-empty grid.
    pub fn new() -> (r: Self)
        ensures
            r.wf(),
            r@.len() == 16,
            forall|i: int| 0 <= i < 16 ==> r@[i] == 0,
            grid_sum(r@) == 0,
    {
        let cells: Vec<usize> = vec![0, 0, 0, 0, 0, 0, 0, 0, 0, 0, 0, 0, 0, 0, 0, 0];
        GameState { cells }
    }

    /// The value of the cell at row-major index `i`.
    pub fn get(&self, i: usize) -> (r: usize)
        requires
            i < self@.len(),
        ensures
            r == self@[i as int],
    {
        self.cells[i]
    }

    /// Builds a grid from 16 row-major cell values; refused unless the
    /// values make a well-formed grid.
    pub fn from_cells(cells: Vec<usize>) -> (r: Option<GameState>)
        ensures
            match r {
                Some(g) => g@ == cells@ && g.wf(),
                None => !grid_wf(cells@),
            },
    {
        if cells.len() != 16 {
            return None;
        }
        let mut total: usize = 0;
        let mut i: usize = 0;
        while i < 16
            invariant
                i <= 16,
                cells@.len() == 16,
                forall|j: int| 0 <= j < i ==> valid_cell(#[trigger] cells@[j]),
                total == partial_sum(cells@, i as int),
                total <= SUM_CAP,
            decreases 16 - i,
        {
            let v = cells[i];
            if v != 0 && (v < 2 || !is_pow2_exec(v)) {
                assert(!valid_cell(cells@[i as int]));
                return None;
            }
            if v > SUM_CAP || total > SUM_CAP - v {
                proof {
                    lemma_grid_sum_is_partial(cells@);
                    lemma_partial_sum_mono(cells@, i as int + 1, 16);
                }
                return None;
            }
            total = total + v;
            i = i + 1;
        }
        proof {
            lemma_grid_sum_is_partial(cells@);
        }
        Some(GameState { cells })
    }

    /// Slides the whole grid in the given direction, compacting and
    /// merging every line toward its destination edge, and returns the
    /// score this slide earned: the sum of all newly merged values.
    pub fn slide(&mut self, direction: Direction) -> (delta: usize)
        requires
            old(self).wf(),
        ensures
            final(self).wf(),
            final(self)@ == slide_grid(old(self)@, direction),
            delta == slide_delta(old(self)@, direction),
            grid_sum(final(self)@) == grid_sum(old(self)@),
    {
        match direction {
            Direction::Up => self.slide_up(),
            Direction::Down => self.slide_down(),
            Direction::Left => self.slide_left(),
            Direction::Right => self.slide_right(),
        }
    }

    /// Slides every column toward the top row.
    pub fn slide_up(&mut self) -> (delta: usize)
        requires
            old(self).wf(),
        ensures
            final(self).wf(),
            final(self)@ == slide_grid(old(self)@, Direction::Up),
            delta == slide_delta(old(self)@, Direction::Up),
            grid_sum(final(self)@) == grid_sum(old(self)@),
    {
        self.do_slide(Direction::Up)
    }

    /// Slides every column toward the bottom row.
    pub fn slide_down(&mut self) -> (delta: usize)
        requires
            old(self).wf(),
        ensures
            final(self).wf(),
            final(self)@ == slide_grid(old(self)@, Direction::Down),
            delta == slide_delta(old(self)@, Direction::Down),
            grid_sum(final(self)@) == grid_sum(old(self)@),
    {
        self.do_slide(Direction::Down)
    }

    /// Slides every row toward its leftmost column.
    pub fn slide_left(&mut self) -> (delta: usize)
        requires
            old(self).wf(),
        ensures
            final(self).wf(),
            final(self)@ == slide_grid(old(self)@, Direction::Left),
            delta == slide_delta(old(self)@, Direction::Left),
            grid_sum(final(self)@) == grid_sum(old(self)@),
    {
        self.do_slide(Direction::Left)
    }

    /// Slides every row toward its rightmost column.
    pub fn slide_right(&mut self) -> (delta: usize)
        requires
            old(self).wf(),
        ensures
            final(self).wf(),
            final(self)@ == slide_grid(old(self)@, Direction::Right),
            delta == slide_delta(old(self)@, Direction::Right),
            grid_sum(final(self)@) == grid_sum(old(self)@),
    {
        self.do_slide(Direction::Right)
    }

    /// The one slide routine all four directions share: lines and scan
    /// order differ only through the index mapping.
    #[verifier::rlimit(100)]
    fn do_slide(&mut self, d: Direction) -> (delta: usize)
        requires
            old(self).wf(),
        ensures
            final(self).wf(),
            final(self)@ == slide_grid(old(self)@, d),
            delta == slide_delta(old(self)@, d),
            grid_sum(final(self)@) == grid_sum(old(self)@),
    {
        let ghost g0 = self@;
        let mut delta: usize = 0;
        let mut l: usize = 0;
        while l < 4
            invariant
                l <= 4,
                self@.len() == 16,
                grid_wf(g0),
                forall|i: int| 0 <= i < 16 ==> valid_cell(#[trigger] self@[i]),
                grid_sum(self@) == grid_sum(g0),
                forall|la: int|
                    0 <= la < l ==> line_of(self@, d, la) == slide_line(
                        #[trigger] line_of(g0, d, la),
                    ),
                forall|la: int| l <= la < 4 ==> #[trigger] line_of(self@, d, la) == line_of(
                    g0,
                    d,
                    la,
                ),
                delta == slide_delta_upto(g0, d, l as int),
                delta <= l * 4 * SUM_CAP,
            decreases 4 - l,
        {
            proof {
                lemma_cell_index_bijective(d);
            }
            let ghost pre = self@;
            // copy line l out, in scan order
            let mut line: Vec<usize> = Vec::new();
            let mut p: usize = 0;
            while p < 4
                invariant
                    p <= 4,
                    l < 4,
                    self@.len() == 16,
                    line@.len() == p,
                    forall|q: int|
                        0 <= q < p ==> #[trigger] line@[q] == self@[spec_cell_index(
                            d,
                            l as int,
                            q,
                        )],
                    forall|la: int, q: int|
                        0 <= la < 4 && 0 <= q < 4 ==> 0 <= #[trigger] spec_cell_index(d, la, q)
                            < 16,
                decreases 4 - p,
            {
                let i = cell_index(d, l, p);
                let c = self.cells[i];
                line.push(c);
                p = p + 1;
            }
            proof {
                assert(line@ =~= line_of(self@, d, l as int));
                lemma_grid_line_sums(self@, d);
                assert(line_sum(line_of(self@, d, l as int)) <= SUM_CAP);
            }
            let dl = slide_line_exec(&mut line);
            // write the slid line back
            let mut p: usize = 0;
            while p < 4
                invariant
                    p <= 4,
                    l < 4,
                    self@.len() == 16,
                    line@.len() == 4,
                    forall|i: int|
                        0 <= i < 16 && !(line_of_cell(d, i) == l && pos_of_cell(d, i) < p)
                            ==> self@[i] == pre[i],
                    forall|q: int|
                        0 <= q < p ==> self@[spec_cell_index(d, l as int, q)] == #[trigger] line@[q],
                decreases 4 - p,
            {
                proof {
                    lemma_cell_index_bijective(d);
                }
                let i = cell_index(d, l, p);
                let c = line[p];
                self.cells.set(i, c);
                p = p + 1;
            }
            proof {
                lemma_cell_index_bijective(d);
                assert(line_of(self@, d, l as int) =~= line@);
                assert forall|la: int| 0 <= la < 4 && la != l implies line_of(self@, d, la)
                    == line_of(pre, d, la) by {
                    assert(line_of(self@, d, la) =~= line_of(pre, d, la));
                }
                lemma_grid_line_sums(self@, d);
                lemma_grid_line_sums(pre, d);
                lemma_slide_line_props(line_of(pre, d, l as int), 4);
                assert forall|i: int| 0 <= i < 16 implies valid_cell(#[trigger] self@[i]) by {
                    let la = line_of_cell(d, i);
                    let q = pos_of_cell(d, i);
                    assert(self@[i] == line_of(self@, d, la)[q]);
                }
            }
            delta = delta + dl;
            l = l + 1;
        }
        proof {
            lemma_cell_index_bijective(d);
            assert forall|la: int| 0 <= la < 4 implies line_sum(
                #[trigger] line_of(g0, d, la),
            ) <= SUM_CAP by {
                lemma_grid_line_sums(g0, d);
            }
            assert(self@ =~= slide_grid(g0, d));
        }
        delta
    }

    /// The row-major indices of the empty cells.
    fn empty_cells(&self) -> (r: Vec<usize>)
        requires
            self@.len() == 16,
        ensures
            forall|k: int| 0 <= k < r@.len() ==> #[trigger] r@[k] < 16 && self@[r@[k] as int] == 0,
            r@.len() == 0 ==> !has_empty(self@),
    {
        let mut empties: Vec<usize> = Vec::new();
        let mut i: usize = 0;
        while i < 16
            invariant
                i <= 16,
                self@.len() == 16,
                forall|k: int|
                    0 <= k < empties@.len() ==> #[trigger] empties@[k] < 16 && self@[empties@[k] as int]
                        == 0,
                empties@.len() == 0 ==> forall|c: int| 0 <= c < i ==> self@[c] != 0,
            decreases 16 - i,
        {
            if self.cells[i] == 0 {
                empties.push(i);
            }
            i = i + 1;
        }
        empties
    }

    /// Spawns one tile: picks an empty cell uniformly at random and sets
    /// it to 2 (with probability 9/10) or 4; on a full grid this is a
    /// no-op. The headroom of 4 under the cap is a machine limit: it is
    /// what keeps a spawn inside a well-formed grid.
    #[verifier::rlimit(100)]
    pub fn add_random_tile(&mut self)
        requires
            old(self).wf(),
            grid_sum(old(self)@) + 4 <= SUM_CAP,
        ensures
            final(self).wf(),
            spawn_rel(old(self)@, final(self)@),
            grid_sum(old(self)@) <= grid_sum(final(self)@) <= grid_sum(old(self)@) + 4,
            has_empty(old(self)@) ==> occupied_count(final(self)@) == occupied_count(old(self)@)
                + 1,
            !has_empty(old(self)@) ==> final(self)@ == old(self)@,
    {
        let empties = self.empty_cells();
        if empties.len() == 0 {
            return ;
        }
        let k = pick_index(empties.len());
        let idx = empties[k];
        let value: usize = if nine_in_ten() {
            2
        } else {
            4
        };
        self.cells.set(idx, value);
        proof {
            lemma_spawn_update(old(self)@, self@, idx as int, value);
        }
    }

    /// True exactly when every one of the 16 cells is occupied; merge
    /// possibilities play no part in this check.
    pub fn is_over(&self) -> (r: bool)
        requires
            self@.len() == 16,
        ensures
            r == !has_empty(self@),
            r <==> (forall|i: int| 0 <= i < 16 ==> self@[i] != 0),
    {
        let mut i: usize = 0;
        while i < 16
            invariant
                i <= 16,
                self@.len() == 16,
                forall|j: int| 0 <= j < i ==> self@[j] != 0,
            decreases 16 - i,
        {
            if self.cells[i] == 0 {
                return false;
            }
            i = i + 1;
        }
        true
    }
}

/// Row-major index of the cell of `l` at scan position `p`: the
/// executable mirror of `spec_cell_index`.
fn cell_index(d: Direction, l: usize, p: usize) -> (r: usize)
    requires
        l < 4,
        p < 4,
    ensures
        r == spec_cell_index(d, l as int, p as int),
        r < 16,
{
    match d {
        Direction::Up => p * 4 + l,
        Direction::Down => (3 - p) * 4 + l,
        Direction::Left => l * 4 + p,
        Direction::Right => l * 4 + (3 - p),
    }
}

/// Compacts and merges one line toward scan position 0 and returns the
/// score it earned. Each origin in turn, from the edge inward, walks past
/// empty cells, merges once with an equal first-occupied cell, or lands on
/// the last empty cell before a blocker.
fn slide_line_exec(line: &mut Vec<usize>) -> (delta: usize)
    requires
        old(line)@.len() == 4,
        line_sum(old(line)@) <= SUM_CAP,
    ensures
        final(line)@ == slide_line(old(line)@),
        final(line)@.len() == 4,
        delta == line_delta(old(line)@),
        line_sum(final(line)@) == line_sum(old(line)@),
        delta <= 4 * SUM_CAP,
        (forall|k: int| 0 <= k < 4 ==> valid_cell(#[trigger] old(line)@[k])) ==> (forall|k: int|
            0 <= k < 4 ==> valid_cell(#[trigger] final(line)@[k])),
{
    let ghost orig = line@;
    let mut delta: usize = 0;
    let mut p: usize = 0;
    while p < 4
        invariant
            p <= 4,
            orig.len() == 4,
            line_sum(orig) <= SUM_CAP,
            line@ == slide_line_upto(orig, p as int),
            line@.len() == 4,
            line_sum(line@) == line_sum(orig),
            delta == line_delta_upto(orig, p as int),
            delta <= p * line_sum(orig),
        decreases 4 - p,
    {
        proof {
            lemma_slide_line_props(orig, p as int);
        }
        let ghost cur = line@;
        let v = line[p];
        let mut j: usize = p;
        while j > 0 && line[j - 1] == 0
            invariant
                j <= p,
                p < 4,
                line@ == cur,
                line@.len() == 4,
                forall|k: int| j <= k < p ==> line@[k] == 0,
            decreases j,
        {
            j = j - 1;
        }
        proof {
            lemma_fob_from_scan(cur, p as int, j as int);
            lemma_step_props(cur, p as int);
        }
        if j > 0 && line[j - 1] == v {
            // merge with the first occupied cell toward the edge
            assert(v + v == step_score(cur, p as int));
            let nv = v + v;
            line.set(j - 1, nv);
            line.set(p, 0);
            proof {
                assert(nv <= line_sum(orig));
                assert(p as int * line_sum(orig) + line_sum(orig) <= 4 * SUM_CAP)
                    by (nonlinear_arith)
                    requires
                        p < 4,
                        0 <= line_sum(orig) <= SUM_CAP,
                ;
            }
            delta = delta + nv;
        } else if j < p {
            // land on the last empty cell before the blocker
            line.set(j, v);
            line.set(p, 0);
        }
        proof {
            assert(line@ =~= step_result(cur, p as int));
            assert((p + 1) * line_sum(orig) == p * line_sum(orig) + line_sum(orig))
                by (nonlinear_arith);
        }
        p = p + 1;
    }
    proof {
        lemma_slide_line_props(orig, 4);
    }
    delta
}

/// Sum of the first `n` cells, used to check the cap cell by cell.
pub open spec fn partial_sum(g: Seq<usize>, n: int) -> int
    recommends
        0 <= n <= g.len(),
    decreases n,
{
    if n <= 0 {
        0
    } else {
        partial_sum(g, n - 1) + g[n - 1]
    }
}

/// What setting one empty cell to a freshly spawned 2 or 4 does to a
/// well-formed grid.
#[verifier::rlimit(100)]
proof fn lemma_spawn_update(pre: Seq<usize>, post: Seq<usize>, ii: int, value: usize)
    requires
        pre.len() == 16,
        0 <= ii < 16,
        pre[ii] == 0,
        value == 2 || value == 4,
        post == pre.update(ii, value),
        forall|c: int| 0 <= c < 16 ==> valid_cell(#[trigger] pre[c]),
        grid_sum(pre) + 4 <= SUM_CAP,
    ensures
        grid_wf(post),
        grid_sum(pre) <= grid_sum(post) <= grid_sum(pre) + 4,
        occupied_count(post) == occupied_count(pre) + 1,
        spawn_rel(pre, post),
{
    lemma_small_pow2();
    lemma_occ_update(pre, post, ii, value);
    assert forall|c: int| 0 <= c < 16 implies valid_cell(#[trigger] post[c]) by {
        if c != ii {
            assert(post[c] == pre[c]);
        }
    }
    assert(has_empty(pre));
    assert(pre[ii] == 0 && (post[ii] == 2 || post[ii] == 4) && post == pre.update(ii, post[ii]));
    assert(spawn_rel(pre, post));
}

/// Setting one empty cell to a nonzero value raises the occupied count
/// by one and the grid sum by that value.
proof fn lemma_occ_update(pre: Seq<usize>, post: Seq<usize>, ii: int, value: usize)
    requires
        pre.len() == 16,
        0 <= ii < 16,
        pre[ii] == 0,
        value != 0,
        post == pre.update(ii, value),
    ensures
        occupied_count(post) == occupied_count(pre) + 1,
        grid_sum(post) == grid_sum(pre) + value,
{
    lemma_grid_sum_is_partial(pre);
    lemma_grid_sum_is_partial(post);
    lemma_occ_is_partial(pre);
    lemma_occ_is_partial(post);
    lemma_partials_update(pre, post, ii, value, 16);
}

/// Cell-by-cell effect of one update on the two partial counts.
proof fn lemma_partials_update(pre: Seq<usize>, post: Seq<usize>, ii: int, value: usize, n: int)
    requires
        pre.len() == 16,
        0 <= ii < 16,
        0 <= n <= 16,
        pre[ii] == 0,
        value != 0,
        post == pre.update(ii, value),
    ensures
        partial_sum(post, n) == partial_sum(pre, n) + if ii < n {
            value as int
        } else {
            0
        },
        occ_partial(post, n) == occ_partial(pre, n) + if ii < n {
            1int
        } else {
            0
        },
    decreases n,
{
    if n > 0 {
        lemma_partials_update(pre, post, ii, value, n - 1);
    }
}

/// On a full grid the partial occupied count over all 16 cells is the
/// occupied count.
proof fn lemma_occ_is_partial(g: Seq<usize>)
    requires
        g.len() == 16,
    ensures
        occupied_count(g) == occ_partial(g, 16),
{
    reveal_with_fuel(occ_partial, 17);
}

/// Occupied cells among the first `n`.
spec fn occ_partial(g: Seq<usize>, n: int) -> int
    recommends
        0 <= n <= g.len(),
    decreases n,
{
    if n <= 0 {
        0
    } else {
        occ_partial(g, n - 1) + crate::model::occ(g[n - 1])
    }
}

/// The two spawn values are powers of two.
proof fn lemma_small_pow2()
    ensures
        is_pow2(2nat),
        is_pow2(4nat),
{
    reveal_with_fuel(is_pow2, 4);
}

/// On a full grid the partial sum over all 16 cells is the grid sum.
proof fn lemma_grid_sum_is_partial(g: Seq<usize>)
    requires
        g.len() == 16,
    ensures
        grid_sum(g) == partial_sum(g, 16),
{
    reveal_with_fuel(partial_sum, 17);
}

/// Partial sums of nonnegative cells grow with their length.
proof fn lemma_partial_sum_mono(g: Seq<usize>, i: int, j: int)
    requires
        0 <= i <= j <= g.len(),
    ensures
        partial_sum(g, i) <= partial_sum(g, j),
    decreases j - i,
{
    if i < j {
        lemma_partial_sum_mono(g, i, j - 1);
    }
}

/// Executable mirror of `is_pow2`.
fn is_pow2_exec(v: usize) -> (r: bool)
    ensures
        r == is_pow2(v as nat),
    decreases v,
{
    if v <= 1 {
        v == 1
    } else if v % 2 != 0 {
        false
    } else {
        is_pow2_exec(v / 2)
    }
}

} // verus!
