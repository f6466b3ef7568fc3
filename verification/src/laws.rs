//! The general laws of the slide: conservation, idempotence of a slide
//! that cannot move anything, the single merge among three equal tiles,
//! and directionality of compaction.

use vstd::prelude::*;
use vstd::multiset::Multiset;
use vstd::seq_lib::{to_multiset_remove, to_multiset_update};
use crate::Direction;
use crate::SUM_CAP;
use crate::model::{
    first_occupied_below, grid_sum, lemma_cell_index_bijective, lemma_fob_props,
    lemma_grid_line_sums, lemma_slide_grid_lines, lemma_slide_line_props, line_delta,
    line_delta_upto, line_occ, line_of, line_sum, occupied_count, slide_delta, slide_delta_upto,
    slide_grid, slide_line, slide_line_upto, step_result, step_score,
};

verus! {

/// One merge as the full multiset of a line's cells shows it, empties
/// included: two equal tiles become one doubled tile and one empty cell.
pub open spec fn collapse_pair(m: Multiset<usize>, v: usize) -> Multiset<usize> {
    m.remove(v).remove(v).insert((v + v) as usize).insert(0)
}

/// `b` arises from `a` by `n` merges of pairs of equal tiles.
pub open spec fn collapses(a: Multiset<usize>, b: Multiset<usize>, n: nat) -> bool
    decreases n,
{
    if n == 0 {
        a == b
    } else {
        exists|v: usize|
            v != 0 && #[trigger] a.count(v) >= 2 && collapses(collapse_pair(a, v), b, (n - 1) as nat)
    }
}

/// Merge chains concatenate.
proof fn lemma_collapses_concat(a: Multiset<usize>, b: Multiset<usize>, c: Multiset<usize>, n: nat, m: nat)
    requires
        collapses(a, b, n),
        collapses(b, c, m),
    ensures
        collapses(a, c, n + m),
    decreases n,
{
    if n > 0 {
        let v = choose|v: usize|
            v != 0 && #[trigger] a.count(v) >= 2 && collapses(
                collapse_pair(a, v),
                b,
                (n - 1) as nat,
            );
        lemma_collapses_concat(collapse_pair(a, v), b, c, (n - 1) as nat, m);
    }
}

/// One origin's turn leaves the multiset of the line's cells unchanged,
/// or, exactly when it scores, performs one merge on it.
proof fn lemma_step_multiset(s: Seq<usize>, p: int)
    requires
        s.len() == 4,
        0 <= p < 4,
        line_sum(s) <= SUM_CAP,
    ensures
        step_score(s, p) == 0 ==> step_result(s, p).to_multiset() == s.to_multiset(),
        step_score(s, p) != 0 ==> s[p] != 0 && s.to_multiset().count(s[p]) >= 2 && step_result(
            s,
            p,
        ).to_multiset() == collapse_pair(s.to_multiset(), s[p]),
{
    broadcast use vstd::multiset::group_multiset_axioms;
    broadcast use vstd::seq_lib::group_to_multiset_ensures;

    lemma_fob_props(s, p);
    let v = s[p];
    let m = first_occupied_below(s, p);
    if m >= 0 && s[m] == v {
        // a merge: both cells hold v, so the multiset counts v twice
        let nv = (v + v) as usize;
        assert(v + v <= line_sum(s));
        to_multiset_remove(s, m);
        assert(s.remove(m)[p - 1] == v);
        assert(s.remove(m).to_multiset().count(v) > 0);
        assert(s.to_multiset().count(v) >= 2);
        let t1 = s.update(m, nv);
        to_multiset_update(s, m, nv);
        to_multiset_update(t1, p, 0);
        assert(t1[p] == v);
        assert(step_result(s, p).to_multiset() =~= collapse_pair(s.to_multiset(), v));
    } else if m == p - 1 {
        // blocked: nothing changes
    } else {
        // a move onto the empty cell just past the first occupied one
        assert(s[m + 1] == 0);
        let t1 = s.update(m + 1, v);
        to_multiset_update(s, m + 1, v);
        to_multiset_update(t1, p, 0);
        assert(t1[p] == v);
        assert(s.to_multiset().count(0usize) > 0);
        assert(step_result(s, p).to_multiset() =~= s.to_multiset());
    }
}

/// The first `n` turns of a line slide amount to at most `n` merges on
/// the multiset of the line's cells.
proof fn lemma_line_collapses(s: Seq<usize>, n: int)
    requires
        s.len() == 4,
        0 <= n <= 4,
        line_sum(s) <= SUM_CAP,
    ensures
        exists|k: nat|
            k <= n && #[trigger] collapses(s.to_multiset(), slide_line_upto(s, n).to_multiset(), k),
    decreases n,
{
    if n == 0 {
        assert(collapses(s.to_multiset(), slide_line_upto(s, 0).to_multiset(), 0));
    } else {
        lemma_line_collapses(s, n - 1);
        let cur = slide_line_upto(s, n - 1);
        lemma_slide_line_props(s, n - 1);
        lemma_step_multiset(cur, n - 1);
        let k = choose|k: nat|
            k <= n - 1 && #[trigger] collapses(s.to_multiset(), cur.to_multiset(), k);
        if step_score(cur, n - 1) == 0 {
            assert(collapses(s.to_multiset(), slide_line_upto(s, n).to_multiset(), k));
        } else {
            let v = cur[n - 1];
            assert(collapses(
                collapse_pair(cur.to_multiset(), v),
                step_result(cur, n - 1).to_multiset(),
                0,
            ));
            assert(collapses(cur.to_multiset(), step_result(cur, n - 1).to_multiset(), 1));
            lemma_collapses_concat(
                s.to_multiset(),
                cur.to_multiset(),
                step_result(cur, n - 1).to_multiset(),
                k,
                1,
            );
            assert(collapses(s.to_multiset(), slide_line_upto(s, n).to_multiset(), (k + 1) as nat));
        }
    }
}

/// Conservation: a slide keeps the total value on the grid, never
/// increases the number of occupied cells, and changes the multiset of
/// each line's cells only by collapsing pairs of equal tiles into one
/// doubled tile, freeing one cell per merge.
pub proof fn lemma_slide_conservation(g: Seq<usize>, d: Direction)
    requires
        g.len() == 16,
        grid_sum(g) <= SUM_CAP,
    ensures
        grid_sum(slide_grid(g, d)) == grid_sum(g),
        occupied_count(slide_grid(g, d)) <= occupied_count(g),
        forall|l: int|
            #![trigger line_of(g, d, l)]
            0 <= l < 4 ==> exists|k: nat|
                k <= 4 && #[trigger] collapses(
                    line_of(g, d, l).to_multiset(),
                    line_of(slide_grid(g, d), d, l).to_multiset(),
                    k,
                ),
{
    lemma_slide_grid_lines(g, d);
    lemma_grid_line_sums(g, d);
    lemma_grid_line_sums(slide_grid(g, d), d);
    assert forall|l: int| 0 <= l < 4 implies line_sum(#[trigger] line_of(g, d, l)) <= SUM_CAP
        && line_sum(slide_line(line_of(g, d, l))) == line_sum(line_of(g, d, l)) && line_occ(
        slide_line(line_of(g, d, l)),
    ) <= line_occ(line_of(g, d, l)) by {
        lemma_slide_line_props(line_of(g, d, l), 4);
    }
    assert forall|l: int| #![trigger line_of(g, d, l)] 0 <= l < 4 implies exists|k: nat|
        k <= 4 && #[trigger] collapses(
            line_of(g, d, l).to_multiset(),
            line_of(slide_grid(g, d), d, l).to_multiset(),
            k,
        ) by {
        lemma_line_collapses(line_of(g, d, l), 4);
    }
}

/// A line in which nothing can move or merge: every occupied cell has an
/// occupied inward neighbour holding a different value.
pub open spec fn line_settled(s: Seq<usize>) -> bool {
    forall|p: int| 1 <= p < 4 ==> (#[trigger] s[p] != 0 ==> s[p - 1] != 0 && s[p - 1] != s[p])
}

/// In a settled line every origin's turn is a no-op that scores nothing.
proof fn lemma_settled_line_upto(s: Seq<usize>, n: int)
    requires
        s.len() == 4,
        0 <= n <= 4,
        line_settled(s),
    ensures
        slide_line_upto(s, n) == s,
        line_delta_upto(s, n) == 0,
    decreases n,
{
    if n > 0 {
        lemma_settled_line_upto(s, n - 1);
        let p = n - 1;
        lemma_fob_props(s, p);
        let v = s[p];
        let m = first_occupied_below(s, p);
        if p == 0 {
            assert(step_result(s, p) == s);
        } else if v != 0 {
            assert(s[p] != 0);
            assert(s[p - 1] != 0 && s[p - 1] != s[p]);
            assert(m == p - 1);
            assert(step_result(s, p) == s);
        } else {
            if m >= 0 && s[m] == v {
                assert(false);
            } else if m == p - 1 {
                assert(step_result(s, p) == s);
            } else {
                assert(s[m + 1] == 0);
                assert(step_result(s, p) =~= s);
            }
        }
        assert(step_score(s, p) == 0);
    }
}

/// Idempotence under a no-op: a slide in a direction where no line can
/// move or merge returns score zero and leaves the grid unchanged.
pub proof fn lemma_no_move_slide(g: Seq<usize>, d: Direction)
    requires
        g.len() == 16,
        forall|l: int| 0 <= l < 4 ==> line_settled(#[trigger] line_of(g, d, l)),
    ensures
        slide_grid(g, d) == g,
        slide_delta(g, d) == 0,
{
    lemma_cell_index_bijective(d);
    assert forall|l: int| 0 <= l < 4 implies slide_line(#[trigger] line_of(g, d, l)) == line_of(
        g,
        d,
        l,
    ) && line_delta(line_of(g, d, l)) == 0 by {
        lemma_settled_line_upto(line_of(g, d, l), 4);
    }
    assert(slide_grid(g, d) =~= g);
    assert(slide_delta(g, d) == 0) by {
        reveal_with_fuel(slide_delta_upto, 5);
    }
}

/// Single merge among three equal tiles: the pair nearest the destination
/// edge collapses once; the third tile follows intact, unmerged.
pub proof fn lemma_triple_single_merge(v: usize)
    requires
        0 < v,
        v + v <= SUM_CAP,
    ensures
        slide_line(seq![v, v, v, 0]) == seq![(v + v) as usize, v, 0, 0],
        line_delta(seq![v, v, v, 0]) == v + v,
{
    reveal_with_fuel(first_occupied_below, 5);
    let s0 = seq![v, v, v, 0usize];
    let nv = (v + v) as usize;
    assert(step_result(s0, 0) == s0 && step_score(s0, 0) == 0);
    assert(first_occupied_below(s0, 1) == 0);
    let s1 = step_result(s0, 1);
    assert(s1 =~= seq![nv, 0, v, 0usize]);
    assert(step_score(s0, 1) == v + v);
    assert(first_occupied_below(s1, 2) == 0);
    assert(nv != v);
    let s2 = step_result(s1, 2);
    assert(s2 =~= seq![nv, v, 0, 0usize]);
    assert(step_score(s1, 2) == 0);
    assert(first_occupied_below(s2, 3) == 1);
    let s3 = step_result(s2, 3);
    assert(s3 =~= s2);
    assert(step_score(s2, 3) == 0);
    assert(slide_line_upto(s0, 4) == s3 && line_delta_upto(s0, 4) == v + v) by {
        reveal_with_fuel(slide_line_upto, 5);
        reveal_with_fuel(line_delta_upto, 5);
    }
}

/// A lone tile compacts all the way to the destination edge, and nothing
/// is scored.
pub proof fn lemma_lone_tile_line(s: Seq<usize>, k: int)
    requires
        s.len() == 4,
        0 <= k < 4,
        forall|j: int| 0 <= j < 4 && j != k ==> s[j] == 0,
    ensures
        slide_line(s) == seq![s[k], 0, 0, 0],
        line_delta(s) == 0,
{
    reveal_with_fuel(slide_line_upto, 5);
    reveal_with_fuel(line_delta_upto, 5);
    reveal_with_fuel(first_occupied_below, 5);
    let v = s[k];
    if v == 0 {
        assert(slide_line_upto(s, 4) =~= seq![s[k], 0, 0, 0usize]);
    } else if k == 0 {
        assert(slide_line_upto(s, 4) =~= seq![s[k], 0, 0, 0usize]);
    } else if k == 1 {
        let s1 = step_result(s, 1);
        assert(s1 =~= seq![v, 0, 0, 0usize]);
        assert(slide_line_upto(s, 4) =~= seq![s[k], 0, 0, 0usize]);
    } else if k == 2 {
        let s2 = step_result(s, 2);
        assert(s2 =~= seq![v, 0, 0, 0usize]);
        assert(slide_line_upto(s, 4) =~= seq![s[k], 0, 0, 0usize]);
    } else {
        let s3 = step_result(s, 3);
        assert(s3 =~= seq![v, 0, 0, 0usize]);
        assert(slide_line_upto(s, 4) =~= seq![s[k], 0, 0, 0usize]);
    }
}

/// Directionality: sliding left and then right carries a row's lone tile
/// to the column at the right edge, whatever column it started in.
pub proof fn lemma_left_then_right_lone_tile(g: Seq<usize>, r: int, k: int)
    requires
        g.len() == 16,
        0 <= r < 4,
        0 <= k < 4,
        g[4 * r + k] != 0,
        forall|i: int| 4 * r <= i < 4 * r + 4 && i != 4 * r + k ==> #[trigger] g[i] == 0,
    ensures
        slide_grid(slide_grid(g, Direction::Left), Direction::Right)[4 * r + 3] == g[4 * r + k],
        forall|i: int|
            4 * r <= i < 4 * r + 3 ==> #[trigger] slide_grid(
                slide_grid(g, Direction::Left),
                Direction::Right,
            )[i] == 0,
{
    lemma_cell_index_bijective(Direction::Left);
    lemma_cell_index_bijective(Direction::Right);
    let v = g[4 * r + k];
    let g1 = slide_grid(g, Direction::Left);
    let row = line_of(g, Direction::Left, r);
    assert(row[0] == g[4 * r + 0] && row[1] == g[4 * r + 1] && row[2] == g[4 * r + 2] && row[3]
        == g[4 * r + 3]);
    assert(forall|j: int| 0 <= j < 4 && j != k ==> #[trigger] row[j] == 0);
    lemma_lone_tile_line(row, k);
    assert(g1[4 * r + 0] == slide_line(row)[0] && g1[4 * r + 1] == slide_line(row)[1] && g1[4 * r
        + 2] == slide_line(row)[2] && g1[4 * r + 3] == slide_line(row)[3]);
    let row2 = line_of(g1, Direction::Right, r);
    assert(row2[0] == g1[4 * r + 3] && row2[1] == g1[4 * r + 2] && row2[2] == g1[4 * r + 1]
        && row2[3] == g1[4 * r + 0]);
    assert(row2[3] == v && row2[0] == 0 && row2[1] == 0 && row2[2] == 0);
    lemma_lone_tile_line(row2, 3);
    let g2 = slide_grid(g1, Direction::Right);
    assert(g2[4 * r + 3] == slide_line(row2)[0] && g2[4 * r + 2] == slide_line(row2)[1] && g2[4
        * r + 1] == slide_line(row2)[2] && g2[4 * r + 0] == slide_line(row2)[3]);
    assert(g2[4 * r + 3] == v && g2[4 * r + 0] == 0 && g2[4 * r + 1] == 0 && g2[4 * r + 2] == 0);
}

} // verus!
