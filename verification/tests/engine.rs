//! Scenario tests for the grid engine: slides, merges, scoring, spawning
//! and the terminal check.

use twenty48::GameState;
use twenty48::Direction;

fn grid(cells: [usize; 16]) -> GameState {
    let mut v: Vec<usize> = Vec::new();
    for c in cells.iter() {
        v.push(*c);
    }
    GameState::from_cells(v).expect("well-formed grid")
}

fn row0(g: &GameState) -> [usize; 4] {
    [g.get(0), g.get(1), g.get(2), g.get(3)]
}

#[test]
fn slide_left_pair_at_right_edge() {
    // row [0,0,2,2] sliding left becomes [4,0,0,0] and scores 4
    let mut g = grid([0, 0, 2, 2, 0, 0, 0, 0, 0, 0, 0, 0, 0, 0, 0, 0]);
    let delta = g.slide_left();
    assert_eq!(row0(&g), [4, 0, 0, 0]);
    assert_eq!(delta, 4);
}

#[test]
fn slide_left_split_pair() {
    // row [2,0,0,2] sliding left becomes [4,0,0,0] and scores 4
    let mut g = grid([2, 0, 0, 2, 0, 0, 0, 0, 0, 0, 0, 0, 0, 0, 0, 0]);
    let delta = g.slide_left();
    assert_eq!(row0(&g), [4, 0, 0, 0]);
    assert_eq!(delta, 4);
}

#[test]
fn slide_left_two_pairs() {
    // row [2,2,2,2] sliding left becomes [4,4,0,0] and scores 8
    let mut g = grid([2, 2, 2, 2, 0, 0, 0, 0, 0, 0, 0, 0, 0, 0, 0, 0]);
    let delta = g.slide_left();
    assert_eq!(row0(&g), [4, 4, 0, 0]);
    assert_eq!(delta, 8);
}

#[test]
fn slide_left_triple_merges_once() {
    // three equal tiles merge exactly once: [2,2,2,0] -> [4,2,0,0], delta 4
    let mut g = grid([2, 2, 2, 0, 0, 0, 0, 0, 0, 0, 0, 0, 0, 0, 0, 0]);
    let delta = g.slide_left();
    assert_eq!(row0(&g), [4, 2, 0, 0]);
    assert_eq!(delta, 4);
}

#[test]
fn slide_right_triple_merges_once() {
    // the mirrored scan: [2,2,2,0] toward the zero gives one merge
    let mut g = grid([2, 2, 2, 0, 0, 0, 0, 0, 0, 0, 0, 0, 0, 0, 0, 0]);
    let delta = g.slide_right();
    assert_eq!(row0(&g), [0, 0, 2, 4]);
    assert_eq!(delta, 4);
}

#[test]
fn slide_up_and_down_work_on_columns() {
    let mut g = grid([2, 0, 0, 0, 2, 0, 0, 0, 8, 0, 0, 0, 0, 0, 0, 0]);
    let delta = g.slide_up();
    assert_eq!(g.get(0), 4);
    assert_eq!(g.get(4), 8);
    assert_eq!(g.get(8), 0);
    assert_eq!(delta, 4);
    let delta2 = g.slide_down();
    assert_eq!(g.get(0), 0);
    assert_eq!(g.get(4), 0);
    assert_eq!(g.get(8), 4);
    assert_eq!(g.get(12), 8);
    assert_eq!(delta2, 0);
}

#[test]
fn merged_tile_can_merge_again_with_a_later_origin() {
    // the stop-after-merge rule binds one origin's scan; a tile formed by
    // an earlier origin may still absorb a later equal tile
    let mut g = grid([2, 2, 4, 0, 0, 0, 0, 0, 0, 0, 0, 0, 0, 0, 0, 0]);
    let delta = g.slide_left();
    assert_eq!(row0(&g), [8, 0, 0, 0]);
    assert_eq!(delta, 12);
}

#[test]
fn slide_dispatches_by_direction() {
    let mut a = grid([0, 0, 2, 2, 0, 0, 0, 0, 0, 0, 0, 0, 0, 0, 0, 0]);
    let mut b = grid([0, 0, 2, 2, 0, 0, 0, 0, 0, 0, 0, 0, 0, 0, 0, 0]);
    let da = a.slide(Direction::Left);
    let db = b.slide_left();
    assert_eq!(da, db);
    for i in 0..16 {
        assert_eq!(a.get(i), b.get(i));
    }
}

#[test]
fn settled_slide_changes_nothing_and_scores_zero() {
    // no empty cell ahead and no equal neighbours: a no-op slide
    let cells = [2, 4, 8, 16, 32, 64, 128, 256, 512, 1024, 2048, 4096, 8192, 16384, 32768, 65536];
    let mut g = grid(cells);
    let delta = g.slide_left();
    assert_eq!(delta, 0);
    for i in 0..16 {
        assert_eq!(g.get(i), cells[i]);
    }
}

#[test]
fn lone_tile_compacts_left_then_right() {
    // directionality: left puts the tile by the left edge, right by the right
    let mut g = grid([0, 2, 0, 0, 0, 0, 0, 0, 0, 0, 0, 0, 0, 0, 0, 0]);
    let d1 = g.slide_left();
    assert_eq!(row0(&g), [2, 0, 0, 0]);
    let d2 = g.slide_right();
    assert_eq!(row0(&g), [0, 0, 0, 2]);
    assert_eq!(d1 + d2, 0);
}

#[test]
fn conservation_of_total_value() {
    // the cell sum survives any slide
    let cells = [2, 2, 4, 0, 8, 8, 0, 2, 0, 4, 4, 4, 2, 0, 2, 16];
    let total: usize = cells.iter().sum();
    for d in [Direction::Up, Direction::Down, Direction::Left, Direction::Right] {
        let mut g = grid(cells);
        g.slide(d);
        let mut after: usize = 0;
        let mut occupied = 0;
        for i in 0..16 {
            after += g.get(i);
            if g.get(i) != 0 {
                occupied += 1;
            }
        }
        assert_eq!(after, total);
        let before_occupied = cells.iter().filter(|&&c| c != 0).count();
        assert!(occupied <= before_occupied);
    }
}

#[test]
fn add_random_tile_fills_exactly_one_empty_cell() {
    let cells = [2, 4, 8, 16, 32, 64, 128, 256, 512, 1024, 2048, 4096, 8192, 16384, 32768, 0];
    let mut g = grid(cells);
    g.add_random_tile();
    for i in 0..15 {
        assert_eq!(g.get(i), cells[i]);
    }
    let spawned = g.get(15);
    assert!(spawned == 2 || spawned == 4);
}

#[test]
fn add_random_tile_on_full_grid_is_a_no_op() {
    let cells = [2, 4, 8, 16, 32, 64, 128, 256, 512, 1024, 2048, 4096, 8192, 16384, 32768, 65536];
    let mut g = grid(cells);
    g.add_random_tile();
    for i in 0..16 {
        assert_eq!(g.get(i), cells[i]);
    }
}

#[test]
fn is_over_iff_every_cell_occupied() {
    // a full grid is terminal even where a merge would still be possible
    let full_mergeable = [2, 2, 8, 16, 32, 64, 128, 256, 512, 1024, 2048, 4096, 8192, 16384,
        32768, 65536];
    let g = grid(full_mergeable);
    assert!(g.is_over());
    // one empty cell reports not-over, whatever the rest holds
    let mut one_hole = full_mergeable;
    one_hole[7] = 0;
    let g2 = grid(one_hole);
    assert!(!g2.is_over());
}

#[test]
fn from_cells_refuses_ill_formed_grids() {
    // wrong length
    assert!(GameState::from_cells(vec![0, 2, 4]).is_none());
    // 3 is not a power of two
    let mut bad = vec![0usize; 16];
    bad[5] = 3;
    assert!(GameState::from_cells(bad).is_none());
    // 1 is below the smallest tile
    let mut one = vec![0usize; 16];
    one[0] = 1;
    assert!(GameState::from_cells(one).is_none());
    // an empty grid is fine
    assert!(GameState::from_cells(vec![0usize; 16]).is_some());
}

#[test]
fn new_grid_is_empty() {
    let g = GameState::new();
    for i in 0..16 {
        assert_eq!(g.get(i), 0);
    }
    assert!(!g.is_over());
}
