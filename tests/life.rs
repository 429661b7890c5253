use life::board::{Board, LifeError};
use life::life::Life;
use life::rules::{Conway, Ruleset};

fn live_cells(b: &Board) -> Vec<(u32, u32)> {
    let mut out = Vec::new();
    for y in 0..b.height {
        for x in 0..b.width {
            if b.at(x, y) == Ok(true) {
                out.push((x, y));
            }
        }
    }
    out
}

#[test]
fn create_life_is_all_dead() {
    let life = Life::create_life(4, 3);
    assert_eq!(life.board.width, 4);
    assert_eq!(life.board.height, 3);
    assert_eq!(life.board.data, vec![false; 12]);
}

#[test]
fn dead_board_stays_dead() {
    let life = Life::create_life(3, 3);
    let next = life.next().unwrap();
    assert_eq!(next.width, 3);
    assert_eq!(next.height, 3);
    assert_eq!(next.data, vec![false; 9]);
}

#[test]
fn conway_decision_table() {
    // On a 3 by 3 torus every other cell is a neighbour of the centre exactly once.
    let others = [(0, 0), (1, 0), (2, 0), (0, 1), (2, 1), (0, 2), (1, 2), (2, 2)];
    for alive in [false, true] {
        for n in 0..=8usize {
            let mut b = Life::create_life(3, 3).board;
            b.set(1, 1, alive);
            for &(x, y) in others.iter().take(n) {
                b.set(x, y, true);
            }
            assert_eq!(b.count_neighbors(1, 1, true), n as i32);
            let expected = (alive && n == 2) || n == 3;
            assert_eq!(Conway::conway_rules(1, 1, &b), Ok(expected), "alive {} n {}", alive, n);
            assert_eq!(Conway.next(&b, 1, 1), Ok(expected));
        }
    }
}

#[test]
fn conway_rejects_off_board_cell() {
    let mut life = Life::create_life(3, 3);
    life.create_blinker(1, 0);
    let before = life.board.data.clone();
    assert_eq!(Conway::conway_rules(3, 1, &life.board), Err(LifeError::OutOfRange));
    assert_eq!(Conway.next(&life.board, 0, 7), Err(LifeError::OutOfRange));
    assert_eq!(Conway::conway_rules(0, 0, &Life::create_life(0, 0).board), Err(LifeError::OutOfRange));
    assert_eq!(life.board.data, before);
}

#[test]
fn blinker_oscillates() {
    let mut life = Life::create_life(5, 5);
    life.create_blinker(2, 1);
    assert_eq!(live_cells(&life.board), vec![(2, 1), (2, 2), (2, 3)]);
    let before = life.board.data.clone();
    let next = life.next().unwrap();
    assert_eq!(life.board.data, before);
    assert_eq!(live_cells(&next), vec![(1, 2), (2, 2), (3, 2)]);
    life.board = next;
    let again = life.next().unwrap();
    assert_eq!(live_cells(&again), vec![(2, 1), (2, 2), (2, 3)]);
}

#[test]
fn blinker_on_small_torus() {
    // On a 3 by 3 torus every cell neighbours the whole bar: the bar survives,
    // every other cell is born, and then the crowded board dies out.
    let mut life = Life::create_life(3, 3);
    life.create_blinker(0, 0);
    life.board = life.next().unwrap();
    assert_eq!(live_cells(&life.board).len(), 9);
    life.board = life.next().unwrap();
    assert_eq!(live_cells(&life.board), vec![]);
}

#[test]
fn glider_moves_one_cell_diagonally_in_four_steps() {
    let mut life = Life::create_life(8, 8);
    life.create_glider(1, 1);
    assert_eq!(live_cells(&life.board), vec![(2, 1), (3, 2), (1, 3), (2, 3), (3, 3)]);
    for _ in 0..4 {
        life.board = life.next().unwrap();
    }
    assert_eq!(live_cells(&life.board), vec![(3, 2), (4, 3), (2, 4), (3, 4), (4, 4)]);
}

#[test]
fn glider_wraps_around_the_torus() {
    let mut life = Life::create_life(6, 6);
    life.create_glider(0, 0);
    let start = live_cells(&life.board);
    // 24 generations move it 6 cells right and down: once around the board.
    for _ in 0..24 {
        life.board = life.next().unwrap();
    }
    assert_eq!(live_cells(&life.board), start);
}

#[test]
fn spaceship_cells() {
    let mut life = Life::create_life(10, 8);
    life.create_lightweight_spaceship(2, 3);
    let mut expected = vec![
        (2, 6), (3, 4), (3, 5), (3, 6), (4, 3), (4, 4), (4, 6), (5, 3), (5, 4), (5, 5), (6, 4),
        (6, 5),
    ];
    expected.sort_by_key(|&(x, y)| (y, x));
    assert_eq!(live_cells(&life.board), expected);
}

#[test]
fn patterns_keep_existing_cells() {
    let mut life = Life::create_life(6, 6);
    life.board.set(5, 5, true);
    life.create_blinker(0, 0);
    assert_eq!(live_cells(&life.board), vec![(0, 0), (0, 1), (0, 2), (5, 5)]);
}
