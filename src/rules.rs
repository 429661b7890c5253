use crate::board::{Board, LifeError};
use vstd::prelude::*;

verus! {

/// A transition rule: how each cell of a board changes from one generation
/// to the next.
pub trait Ruleset {
    /// The next state of the cell `(x, y)` of `board`, or why it has none.
    spec fn rule(&self, board: Board, x: int, y: int) -> Result<bool, LifeError>;

    /// Decides the next state of the cell `(x, y)` of `board`.
    fn next(&self, board: &Board, x: u32, y: u32) -> (r: Result<bool, LifeError>)
        requires
            board.wf(),
        ensures
            r == self.rule(*board, x as int, y as int),
    ;
}

/// Conway's decision table: a live cell with two live neighbours stays alive,
/// any cell with three is alive, and every other cell is dead.
pub open spec fn conway_next(alive: bool, neighbors: int) -> bool {
    if alive && neighbors == 2 {
        true
    } else if neighbors == 3 {
        true
    } else {
        false
    }
}

/// Conway's rule on the cell `(x, y)`, its neighbours taken on a torus.
pub open spec fn conway_rule_at(board: Board, x: int, y: int) -> Result<bool, LifeError> {
    if board.on_board(x, y) {
        Ok(conway_next(board.cell(x, y), board.neighbor_count(x, y, true)))
    } else {
        Err(LifeError::OutOfRange)
    }
}

/// For every state of a cell and every neighbour count from 0 to 8, Conway's
/// rule makes the cell alive exactly when it was alive with two live
/// neighbours, or when it has three.
pub proof fn lemma_conway_table(alive: bool, neighbors: int)
    requires
        0 <= neighbors <= 8,
    ensures
        conway_next(alive, neighbors) == ((alive && neighbors == 2) || neighbors == 3),
{
}

/// The rule of Conway's Game of Life.
pub struct Conway;

impl Conway {
    /// The next state of the cell `(x, y)`; a coordinate off the board is an error.
    pub fn conway_rules(x: u32, y: u32, board: &Board) -> (r: Result<bool, LifeError>)
        requires
            board.wf(),
        ensures
            r == conway_rule_at(*board, x as int, y as int),
    {
        let neighbors = board.count_neighbors(x, y, true);
        let alive = match board.at(x, y) {
            Ok(alive) => alive,
            Err(e) => return Err(e),
        };
        Ok(
            match (alive, neighbors) {
                (true, 2) => true,
                (_, 3) => true,
                _ => false,
            },
        )
    }
}

impl Ruleset for Conway {
    open spec fn rule(&self, board: Board, x: int, y: int) -> Result<bool, LifeError> {
        conway_rule_at(board, x, y)
    }

    fn next(&self, board: &Board, x: u32, y: u32) -> (r: Result<bool, LifeError>) {
        Conway::conway_rules(x, y, board)
    }
}

} // verus!
