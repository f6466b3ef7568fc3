//! Mathematical model of the grid and of the compact-and-merge slide.
//!
//! A grid is a row-major sequence of 16 cells; 0 means empty, any other
//! value is a power of two. Each slide direction decomposes the grid into
//! four independent lines, read in *scan order*: position 0 is the cell at
//! the destination edge, position 3 the cell farthest from it. One slide
//! processes the origins of each line from the edge inward; an origin walks
//! toward the edge past empty cells, merges with the first occupied cell if
//! it holds an equal value (scoring the doubled value and stopping there),
//! and otherwise lands on the last empty cell before the blocker.

use vstd::prelude::*;
use crate::Direction;
use crate::SUM_CAP;

verus! {

/// True of 1, 2, 4, 8, ...: the nonzero values a cell may hold, and 1,
/// which `valid_cell` rules out separately.
pub open spec fn is_pow2(v: nat) -> bool
    decreases v,
{
    if v <= 1 {
        v == 1
    } else {
        v % 2 == 0 && is_pow2(v / 2)
    }
}

/// A cell is empty or holds a power of two worth at least 2.
pub open spec fn valid_cell(v: usize) -> bool {
    v == 0 || (2 <= v && is_pow2(v as nat))
}

/// Total value on the grid, the quantity every slide conserves.
pub open spec fn grid_sum(g: Seq<usize>) -> int
    recommends
        g.len() == 16,
{
    g[0] + g[1] + g[2] + g[3] + g[4] + g[5] + g[6] + g[7] + g[8] + g[9] + g[10] + g[11] + g[12]
        + g[13] + g[14] + g[15]
}

/// 1 if the cell is occupied, else 0.
pub open spec fn occ(v: usize) -> int {
    if v == 0 {
        0
    } else {
        1
    }
}

/// How many of the 16 cells are occupied.
pub open spec fn occupied_count(g: Seq<usize>) -> int
    recommends
        g.len() == 16,
{
    occ(g[0]) + occ(g[1]) + occ(g[2]) + occ(g[3]) + occ(g[4]) + occ(g[5]) + occ(g[6]) + occ(g[7])
        + occ(g[8]) + occ(g[9]) + occ(g[10]) + occ(g[11]) + occ(g[12]) + occ(g[13]) + occ(g[14])
        + occ(g[15])
}

/// A well-formed grid: 16 cells, each empty or a power of two, with a
/// total value below the cap that keeps every slide's arithmetic exact.
pub open spec fn grid_wf(g: Seq<usize>) -> bool {
    &&& g.len() == 16
    &&& forall|i: int| 0 <= i < 16 ==> valid_cell(#[trigger] g[i])
    &&& grid_sum(g) <= SUM_CAP
}

/// Some cell is empty.
pub open spec fn has_empty(g: Seq<usize>) -> bool {
    exists|i: int| 0 <= i < 16 && g[i] == 0
}

/// Row-major index of the cell of `line` at scan position `pos` for a
/// direction: position 0 is at the destination edge.
pub open spec fn spec_cell_index(d: Direction, line: int, pos: int) -> int {
    match d {
        Direction::Up => pos * 4 + line,
        Direction::Down => (3 - pos) * 4 + line,
        Direction::Left => line * 4 + pos,
        Direction::Right => line * 4 + (3 - pos),
    }
}

/// Which line the cell at row-major index `i` belongs to, for a direction.
pub open spec fn line_of_cell(d: Direction, i: int) -> int {
    match d {
        Direction::Up => i % 4,
        Direction::Down => i % 4,
        Direction::Left => i / 4,
        Direction::Right => i / 4,
    }
}

/// Scan position of the cell at row-major index `i`, for a direction.
pub open spec fn pos_of_cell(d: Direction, i: int) -> int {
    match d {
        Direction::Up => i / 4,
        Direction::Down => 3 - i / 4,
        Direction::Left => i % 4,
        Direction::Right => 3 - i % 4,
    }
}

/// The four cells of a line in scan order.
pub open spec fn line_of(g: Seq<usize>, d: Direction, l: int) -> Seq<usize> {
    Seq::new(4, |p: int| g[spec_cell_index(d, l, p)])
}

/// The scan positions of a line and the grid cells they map to agree in
/// both directions, so distinct positions name distinct cells.
pub proof fn lemma_cell_index_bijective(d: Direction)
    ensures
        forall|l: int, p: int|
            0 <= l < 4 && 0 <= p < 4 ==> {
                let i = #[trigger] spec_cell_index(d, l, p);
                0 <= i < 16 && line_of_cell(d, i) == l && pos_of_cell(d, i) == p
            },
        forall|i: int|
            0 <= i < 16 ==> {
                &&& 0 <= #[trigger] line_of_cell(d, i) < 4
                &&& 0 <= pos_of_cell(d, i) < 4
                &&& spec_cell_index(d, line_of_cell(d, i), pos_of_cell(d, i)) == i
            },
{
}

/// Total value on one line.
pub open spec fn line_sum(s: Seq<usize>) -> int
    recommends
        s.len() == 4,
{
    s[0] + s[1] + s[2] + s[3]
}

/// How many cells of one line are occupied.
pub open spec fn line_occ(s: Seq<usize>) -> int
    recommends
        s.len() == 4,
{
    occ(s[0]) + occ(s[1]) + occ(s[2]) + occ(s[3])
}

/// Largest scan position below `p` holding a nonzero cell, or -1 if the
/// cells below `p` are all empty.
pub open spec fn first_occupied_below(s: Seq<usize>, p: int) -> int
    recommends
        0 <= p <= s.len(),
    decreases p,
{
    if p <= 0 {
        -1
    } else if s[p - 1] != 0 {
        p - 1
    } else {
        first_occupied_below(s, p - 1)
    }
}

/// One origin's turn in a line slide: the value at scan position `p`
/// merges with the first occupied cell toward the edge when the values are
/// equal, lands on the last empty cell before a blocking unequal value, or
/// stays put when its inward neighbour blocks it.
pub open spec fn step_result(s: Seq<usize>, p: int) -> Seq<usize>
    recommends
        s.len() == 4,
        0 <= p < 4,
{
    let v = s[p];
    let m = first_occupied_below(s, p);
    if m >= 0 && s[m] == v {
        s.update(m, (v + v) as usize).update(p, 0)
    } else if m == p - 1 {
        s
    } else {
        s.update(m + 1, v).update(p, 0)
    }
}

/// Score one origin's turn earns: the doubled value on a merge, else 0.
pub open spec fn step_score(s: Seq<usize>, p: int) -> int
    recommends
        s.len() == 4,
        0 <= p < 4,
{
    let v = s[p];
    let m = first_occupied_below(s, p);
    if m >= 0 && s[m] == v {
        v + v
    } else {
        0
    }
}

/// The line after the origins at scan positions 0 .. n took their turns
/// in order.
pub open spec fn slide_line_upto(s: Seq<usize>, n: int) -> Seq<usize>
    recommends
        s.len() == 4,
        0 <= n <= 4,
    decreases n,
{
    if n <= 0 {
        s
    } else {
        step_result(slide_line_upto(s, n - 1), n - 1)
    }
}

/// Score earned by the origins at scan positions 0 .. n.
pub open spec fn line_delta_upto(s: Seq<usize>, n: int) -> int
    recommends
        s.len() == 4,
        0 <= n <= 4,
    decreases n,
{
    if n <= 0 {
        0
    } else {
        line_delta_upto(s, n - 1) + step_score(slide_line_upto(s, n - 1), n - 1)
    }
}

/// A whole line compacted and merged toward scan position 0.
pub open spec fn slide_line(s: Seq<usize>) -> Seq<usize>
    recommends
        s.len() == 4,
{
    slide_line_upto(s, 4)
}

/// Score one line earns in a slide.
pub open spec fn line_delta(s: Seq<usize>) -> int
    recommends
        s.len() == 4,
{
    line_delta_upto(s, 4)
}

/// The grid after sliding in direction `d`: every line slides
/// independently toward its destination edge.
pub open spec fn slide_grid(g: Seq<usize>, d: Direction) -> Seq<usize>
    recommends
        g.len() == 16,
{
    Seq::new(
        16,
        |i: int| slide_line(line_of(g, d, line_of_cell(d, i)))[pos_of_cell(d, i)],
    )
}

/// Score the first `n` lines earn in a slide.
pub open spec fn slide_delta_upto(g: Seq<usize>, d: Direction, n: int) -> int
    recommends
        g.len() == 16,
        0 <= n <= 4,
    decreases n,
{
    if n <= 0 {
        0
    } else {
        slide_delta_upto(g, d, n - 1) + line_delta(line_of(g, d, n - 1))
    }
}

/// Score a whole slide earns: the sum over the four lines.
pub open spec fn slide_delta(g: Seq<usize>, d: Direction) -> int
    recommends
        g.len() == 16,
{
    slide_delta_upto(g, d, 4)
}

/// Where the first occupied position below `p` lies: below `p`, nonzero
/// where it exists, with only empty cells between it and `p`.
pub proof fn lemma_fob_props(s: Seq<usize>, p: int)
    requires
        0 <= p <= s.len(),
    ensures
        -1 <= first_occupied_below(s, p) < p,
        first_occupied_below(s, p) >= 0 ==> s[first_occupied_below(s, p)] != 0,
        forall|k: int| first_occupied_below(s, p) < k < p ==> s[k] == 0,
    decreases p,
{
    if p > 0 && s[p - 1] == 0 {
        lemma_fob_props(s, p - 1);
    }
}

/// A downward scan that stopped at `j` with only empty cells above it
/// has found the first occupied position, `j - 1`.
pub proof fn lemma_fob_from_scan(s: Seq<usize>, p: int, j: int)
    requires
        0 <= j <= p <= s.len(),
        forall|k: int| j <= k < p ==> s[k] == 0,
        j > 0 ==> s[j - 1] != 0,
    ensures
        first_occupied_below(s, p) == j - 1,
    decreases p - j,
{
    if p > j {
        lemma_fob_from_scan(s, p - 1, j);
    }
}

/// One origin's turn keeps the line's total value, earns at most that
/// total, never occupies a new cell, and keeps every cell a valid tile.
pub proof fn lemma_step_props(s: Seq<usize>, p: int)
    requires
        s.len() == 4,
        0 <= p < 4,
        line_sum(s) <= SUM_CAP,
    ensures
        step_result(s, p).len() == 4,
        line_sum(step_result(s, p)) == line_sum(s),
        0 <= step_score(s, p) <= line_sum(s),
        line_occ(step_result(s, p)) <= line_occ(s),
        (forall|k: int| 0 <= k < 4 ==> valid_cell(#[trigger] s[k])) ==> (forall|k: int|
            0 <= k < 4 ==> valid_cell(#[trigger] step_result(s, p)[k])),
{
    lemma_fob_props(s, p);
    let v = s[p];
    let m = first_occupied_below(s, p);
    if m >= 0 && s[m] == v {
        assert(v + v <= line_sum(s));
        if forall|k: int| 0 <= k < 4 ==> valid_cell(#[trigger] s[k]) {
            assert(valid_cell(s[m]));
            assert(is_pow2(((v + v) as usize) as nat));
            assert(forall|k: int|
                0 <= k < 4 ==> valid_cell(#[trigger] step_result(s, p)[k]));
        }
    }
}

/// The turns of the first `n` origins keep the line's total value, earn
/// at most `n` times that total, never occupy a new cell, and keep every
/// cell a valid tile.
pub proof fn lemma_slide_line_props(s: Seq<usize>, n: int)
    requires
        s.len() == 4,
        0 <= n <= 4,
        line_sum(s) <= SUM_CAP,
    ensures
        slide_line_upto(s, n).len() == 4,
        line_sum(slide_line_upto(s, n)) == line_sum(s),
        0 <= line_delta_upto(s, n) <= n * line_sum(s),
        line_occ(slide_line_upto(s, n)) <= line_occ(s),
        (forall|k: int| 0 <= k < 4 ==> valid_cell(#[trigger] s[k])) ==> (forall|k: int|
            0 <= k < 4 ==> valid_cell(#[trigger] slide_line_upto(s, n)[k])),
    decreases n,
{
    if n > 0 {
        lemma_slide_line_props(s, n - 1);
        lemma_step_props(slide_line_upto(s, n - 1), n - 1);
        assert((n - 1) * line_sum(s) + line_sum(s) == n * line_sum(s)) by (nonlinear_arith);
    }
}

/// A line's total value never exceeds the whole grid's.
pub proof fn lemma_grid_line_sums(g: Seq<usize>, d: Direction)
    requires
        g.len() == 16,
    ensures
        grid_sum(g) == line_sum(line_of(g, d, 0)) + line_sum(line_of(g, d, 1)) + line_sum(
            line_of(g, d, 2),
        ) + line_sum(line_of(g, d, 3)),
        occupied_count(g) == line_occ(line_of(g, d, 0)) + line_occ(line_of(g, d, 1)) + line_occ(
            line_of(g, d, 2),
        ) + line_occ(line_of(g, d, 3)),
{
    assert(forall|l: int, p: int|
        0 <= l < 4 && 0 <= p < 4 ==> #[trigger] line_of(g, d, l)[p] == g[spec_cell_index(
            d,
            l,
            p,
        )]);
    match d {
        Direction::Up => {
        },
        Direction::Down => {
        },
        Direction::Left => {
        },
        Direction::Right => {
        },
    }
}

/// The lines of a slid grid are the slid lines of the grid.
#[verifier::rlimit(50)]
pub proof fn lemma_slide_grid_lines(g: Seq<usize>, d: Direction)
    requires
        g.len() == 16,
        grid_sum(g) <= SUM_CAP,
    ensures
        forall|l: int|
            0 <= l < 4 ==> line_of(slide_grid(g, d), d, l) == slide_line(
                #[trigger] line_of(g, d, l),
            ),
        slide_grid(g, d).len() == 16,
{
    lemma_cell_index_bijective(d);
    lemma_grid_line_sums(g, d);
    assert forall|l: int| 0 <= l < 4 implies line_of(slide_grid(g, d), d, l) == slide_line(
        #[trigger] line_of(g, d, l),
    ) by {
        lemma_slide_line_props(line_of(g, d, l), 4);
        assert(line_of(slide_grid(g, d), d, l) =~= slide_line(line_of(g, d, l)));
    }
}

/// A slide's score is nonnegative and at most four times the total value
/// on the grid.
pub proof fn lemma_slide_delta_bound(g: Seq<usize>, d: Direction)
    requires
        g.len() == 16,
        grid_sum(g) <= SUM_CAP,
    ensures
        0 <= slide_delta(g, d) <= 4 * grid_sum(g),
{
    lemma_grid_line_sums(g, d);
    lemma_slide_line_props(line_of(g, d, 0), 4);
    lemma_slide_line_props(line_of(g, d, 1), 4);
    lemma_slide_line_props(line_of(g, d, 2), 4);
    lemma_slide_line_props(line_of(g, d, 3), 4);
    assert(slide_delta(g, d) == line_delta(line_of(g, d, 0)) + line_delta(line_of(g, d, 1))
        + line_delta(line_of(g, d, 2)) + line_delta(line_of(g, d, 3))) by {
        reveal_with_fuel(slide_delta_upto, 5);
    }
}

/// How spawning relates the grid before to the grid after: with an empty
/// cell present, exactly one empty cell becomes 2 or 4 and every other
/// cell keeps its value; on a full grid nothing changes.
pub open spec fn spawn_rel(pre: Seq<usize>, post: Seq<usize>) -> bool
    recommends
        pre.len() == 16,
{
    if has_empty(pre) {
        exists|i: int|
            0 <= i < 16 && #[trigger] pre[i] == 0 && (post[i] == 2 || post[i] == 4) && post
                == pre.update(i, post[i])
    } else {
        post == pre
    }
}

} // verus!
