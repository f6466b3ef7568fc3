//! Tests of the game session: creation, turns and scoring.

use twenty48::{Direction, Game};

#[test]
fn new_session_has_two_tiles_and_zero_score() {
    let game = Game::new();
    assert_eq!(game.score(), 0);
    let cells = game.cells();
    assert_eq!(cells.len(), 16);
    let mut occupied = 0;
    for c in cells.iter() {
        assert!(*c == 0 || *c == 2 || *c == 4);
        if *c != 0 {
            occupied += 1;
        }
    }
    assert_eq!(occupied, 2);
    assert!(!game.is_over());
}

#[test]
fn step_slides_scores_and_spawns() {
    let mut game = Game::new();
    let before: usize = game.cells().iter().sum();
    game.step(Direction::Left);
    let after: usize = game.cells().iter().sum();
    // the slide conserves the total; the spawn then adds 2 or 4
    assert!(after == before + 2 || after == before + 4);
}

#[test]
fn score_never_decreases_across_turns() {
    let mut game = Game::new();
    let mut last = game.score();
    let directions = [Direction::Left, Direction::Up, Direction::Right, Direction::Down];
    let mut turn = 0;
    while !game.is_over() && turn < 200 {
        game.step(directions[turn % 4]);
        let now = game.score();
        assert!(now >= last);
        last = now;
        turn += 1;
    }
}

#[test]
fn a_turn_that_moves_nothing_still_spawns() {
    let mut game = Game::new();
    let mut turn = 0;
    // every turn occupies at least as many cells as a spawn adds minus
    // what merges free, so the occupied count is 2 at the start and
    // positive ever after
    while !game.is_over() && turn < 200 {
        let occupied_before = game.cells().iter().filter(|&&c| c != 0).count();
        game.step(Direction::Up);
        let occupied_after = game.cells().iter().filter(|&&c| c != 0).count();
        // slide never occupies new cells; the spawn adds exactly one
        assert!(occupied_after <= occupied_before + 1);
        assert!(occupied_after >= 1);
        turn += 1;
    }
}
