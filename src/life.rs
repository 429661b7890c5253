use crate::board::{Board, LifeError};
use crate::rules::{Conway, Ruleset};
use crate::walker::{coord_at, lemma_coord_of_position, lemma_position_bounds};
use vstd::prelude::*;

verus! {

/// The cells of a blinker, relative to its top-left corner: a vertical bar of three.
pub open spec fn blinker_cell(dx: int, dy: int) -> bool {
    dx == 0 && 0 <= dy <= 2
}

/// The cells of a glider, relative to the top-left corner of its 3 by 3 box.
pub open spec fn glider_cell(dx: int, dy: int) -> bool {
    ||| (dx, dy) == (1int, 0int)
    ||| (dx, dy) == (2int, 1int)
    ||| (dx, dy) == (0int, 2int)
    ||| (dx, dy) == (1int, 2int)
    ||| (dx, dy) == (2int, 2int)
}

/// The cells of a lightweight spaceship, relative to the top-left corner of
/// its 5 by 4 box.
pub open spec fn spaceship_cell(dx: int, dy: int) -> bool {
    ||| (dx, dy) == (0int, 3int)
    ||| (dx, dy) == (1int, 1int)
    ||| (dx, dy) == (1int, 2int)
    ||| (dx, dy) == (1int, 3int)
    ||| (dx, dy) == (2int, 0int)
    ||| (dx, dy) == (2int, 1int)
    ||| (dx, dy) == (2int, 3int)
    ||| (dx, dy) == (3int, 0int)
    ||| (dx, dy) == (3int, 1int)
    ||| (dx, dy) == (3int, 2int)
    ||| (dx, dy) == (4int, 1int)
    ||| (dx, dy) == (4int, 2int)
}

/// What `rules` decides for the `i`-th cell of a row-major scan of `board`.
pub open spec fn rule_at_position<R: Ruleset>(rules: R, board: Board, i: int) -> Result<
    bool,
    LifeError,
> {
    let c = coord_at(board.width as int, i);
    rules.rule(board, c.0 as int, c.1 as int)
}

/// A simulation: the current board and the rule that moves it on.
pub struct Life<R> {
    pub board: Board,
    pub rules: R,
}

impl Life<Conway> {
    /// A simulation under Conway's rule on a `width` by `height` board of dead cells.
    pub fn create_life(width: u32, height: u32) -> (r: Life<Conway>)
        requires
            width * height <= u32::MAX,
        ensures
            r.board.wf(),
            r.board.width == width,
            r.board.height == height,
            forall|i: int| 0 <= i < width * height ==> !#[trigger] r.board.data@[i],
    {
        Life {
            board: Board { width, height, data: vec![false; (width * height) as usize] },
            rules: Conway,
        }
    }
}

impl<R: Ruleset> Life<R> {
    /// The board one generation on. Each cell's next state is decided by the
    /// rule on the current board, which is only read; the first cell, in scan
    /// order, on which the rule fails makes the step fail with its error.
    pub fn next(&self) -> (r: Result<Board, LifeError>)
        requires
            self.board.wf(),
        ensures
            r is Ok <==> forall|i: int|
                0 <= i < self.board.width * self.board.height ==> #[trigger] rule_at_position(
                    self.rules,
                    self.board,
                    i,
                ) is Ok,
            r matches Ok(b) ==> {
                &&& b.wf()
                &&& b.width == self.board.width
                &&& b.height == self.board.height
                &&& forall|x: int, y: int|
                    #![trigger b.cell(x, y)]
                    self.board.on_board(x, y) ==> self.rules.rule(self.board, x, y) == Ok::<
                        bool,
                        LifeError,
                    >(b.cell(x, y))
            },
            r matches Err(e) ==> exists|i: int|
                0 <= i < self.board.width * self.board.height && #[trigger] rule_at_position(
                    self.rules,
                    self.board,
                    i,
                ) == Err::<bool, LifeError>(e) && forall|j: int|
                    0 <= j < i ==> #[trigger] rule_at_position(self.rules, self.board, j) is Ok,
    {
        let board = &self.board;
        let ghost w = board.width as int;
        let ghost h = board.height as int;
        let mut result = Board { width: board.width, height: board.height, data: board.data.clone() };
        let mut walker = board.walk();
        loop
            invariant
                *board == self.board,
                board.wf(),
                w == board.width,
                h == board.height,
                result.wf(),
                result.width == board.width,
                result.height == board.height,
                walker.wf(),
                walker.width == board.width,
                walker.height == board.height,
                forall|k: int|
                    0 <= k < walker.pos() ==> #[trigger] rule_at_position(self.rules, *board, k)
                        == Ok::<bool, LifeError>(result.data@[k]),
            ensures
                walker.pos() == walker.total(),
            decreases walker.total() - walker.pos(),
        {
            let ghost before = walker.pos();
            match walker.next() {
                Some((x, y)) => {
                    proof {
                        lemma_position_bounds(w, h, before);
                    }
                    match self.rules.next(board, x, y) {
                        Ok(v) => result.set(x, y, v),
                        Err(e) => {
                            proof {
                                assert(rule_at_position(self.rules, *board, before) == Err::<
                                    bool,
                                    LifeError,
                                >(e));
                                assert forall|j: int| 0 <= j < before implies #[trigger] rule_at_position(
                                    self.rules,
                                    *board,
                                    j,
                                ) is Ok by {
                                    assert(rule_at_position(self.rules, *board, j) == Ok::<
                                        bool,
                                        LifeError,
                                    >(result.data@[j]));
                                }
                            }
                            return Err(e);
                        },
                    }
                },
                None => {
                    break ;
                },
            }
        }
        proof {
            assert forall|x: int, y: int| #[trigger]
                board.on_board(x, y) implies self.rules.rule(*board, x, y) == Ok::<bool, LifeError>(
                result.cell(x, y),
            ) by {
                lemma_coord_of_position(w, x, y);
                assert(0 <= y * w + x < w * h) by (nonlinear_arith)
                    requires
                        0 <= x < w,
                        0 <= y < h,
                ;
                assert(rule_at_position(self.rules, *board, y * w + x) == Ok::<bool, LifeError>(
                    result.data@[y * w + x],
                ));
            }
        }
        Ok(result)
    }
}

impl<R> Life<R> {
    /// Brings to life a blinker whose top cell is `(x, y)`.
    pub fn create_blinker(&mut self, x: u32, y: u32)
        requires
            old(self).board.wf(),
            x < old(self).board.width,
            y + 2 < old(self).board.height,
        ensures
            final(self).board.wf(),
            final(self).board.width == old(self).board.width,
            final(self).board.height == old(self).board.height,
            final(self).rules == old(self).rules,
            forall|i: int, j: int|
                #![trigger final(self).board.cell(i, j)]
                old(self).board.on_board(i, j) ==> final(self).board.cell(i, j) == (old(
                    self,
                ).board.cell(i, j) || blinker_cell(i - x, j - y)),
    {
        self.board.set(x, y, true);
        self.board.set(x, y + 1, true);
        self.board.set(x, y + 2, true);
    }

    /// Brings to life a glider in the 3 by 3 box whose top-left corner is `(x, y)`.
    pub fn create_glider(&mut self, x: u32, y: u32)
        requires
            old(self).board.wf(),
            x + 2 < old(self).board.width,
            y + 2 < old(self).board.height,
        ensures
            final(self).board.wf(),
            final(self).board.width == old(self).board.width,
            final(self).board.height == old(self).board.height,
            final(self).rules == old(self).rules,
            forall|i: int, j: int|
                #![trigger final(self).board.cell(i, j)]
                old(self).board.on_board(i, j) ==> final(self).board.cell(i, j) == (old(
                    self,
                ).board.cell(i, j) || glider_cell(i - x, j - y)),
    {
        self.board.set(x + 1, y, true);
        self.board.set(x + 2, y + 1, true);
        self.board.set(x, y + 2, true);
        self.board.set(x + 1, y + 2, true);
        self.board.set(x + 2, y + 2, true);
    }

    /// Brings to life a lightweight spaceship in the 5 by 4 box whose top-left
    /// corner is `(x, y)`.
    pub fn create_lightweight_spaceship(&mut self, x: u32, y: u32)
        requires
            old(self).board.wf(),
            x + 4 < old(self).board.width,
            y + 3 < old(self).board.height,
        ensures
            final(self).board.wf(),
            final(self).board.width == old(self).board.width,
            final(self).board.height == old(self).board.height,
            final(self).rules == old(self).rules,
            forall|i: int, j: int|
                #![trigger final(self).board.cell(i, j)]
                old(self).board.on_board(i, j) ==> final(self).board.cell(i, j) == (old(
                    self,
                ).board.cell(i, j) || spaceship_cell(i - x, j - y)),
    {
        self.board.set(x, y + 3, true);
        self.board.set(x + 1, y + 1, true);
        self.board.set(x + 1, y + 2, true);
        self.board.set(x + 1, y + 3, true);
        self.board.set(x + 2, y, true);
        self.board.set(x + 2, y + 1, true);
        self.board.set(x + 2, y + 3, true);
        self.board.set(x + 3, y, true);
        self.board.set(x + 3, y + 1, true);
        self.board.set(x + 3, y + 2, true);
        self.board.set(x + 4, y + 1, true);
        self.board.set(x + 4, y + 2, true);
    }
}

} // verus!
