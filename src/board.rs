use crate::walker::{lemma_position_bounds, walk_seq, Walker};
use vstd::arithmetic::div_mod::{
    lemma_fundamental_div_mod, lemma_fundamental_div_mod_converse, lemma_mod_multiples_vanish,
    lemma_small_mod,
};
use vstd::prelude::*;

verus! {

/// Reduces any coordinate into `[0, m)`, so that a board can be read as a
/// torus: the remainder of `v` by `m` that is never negative.
pub open spec fn wrap(v: int, m: int) -> int
    recommends
        m > 0,
{
    v % m
}

/// A wrapped coordinate always lies in `[0, m)`, and moving a coordinate by
/// whole laps around the board does not change where it lands.
pub proof fn lemma_wrap_in_range_and_periodic(v: int, m: int, k: int)
    requires
        m > 0,
    ensures
        0 <= wrap(v, m) < m,
        wrap(v + k * m, m) == wrap(v, m),
{
    lemma_fundamental_div_mod(v, m);
    lemma_mod_multiples_vanish(k, v, m);
    assert(v + k * m == m * k + v) by (nonlinear_arith);
}

/// Relies on rand::random: it returns some value of the type, with nothing
/// promised about which.
pub assume_specification<T>[ rand::random::<T> ]() -> (r: T)
    where
        rand::distributions::Standard: rand::distributions::Distribution<T>,
;

/// Why a cell could not be read.
#[derive(Debug, Clone, Copy, PartialEq, Eq, Structural)]
pub enum LifeError {
    /// The coordinate lies off the board.
    OutOfRange,
}

/// `1` for a live cell, `0` for a dead one.
pub open spec fn live(b: bool) -> int {
    if b {
        1
    } else {
        0
    }
}

/// A rectangular board of cells, each alive (`true`) or dead, stored row by row.
#[derive(Clone)]
pub struct Board {
    pub width: u32,
    pub height: u32,
    pub data: Vec<bool>,
}

/// On a `w` by `h` board the cell `(x, y)` is stored inside the board, and its
/// index gives `x` and `y` back, so distinct cells have distinct indices.
proof fn lemma_index(w: int, h: int, x: int, y: int)
    requires
        0 <= x < w,
        0 <= y < h,
    ensures
        0 <= y * w + x < w * h,
        (y * w + x) % w == x,
        (y * w + x) / w == y,
{
    lemma_fundamental_div_mod_converse(y * w + x, w, y, x);
    assert(0 <= y * w + x < w * h) by (nonlinear_arith)
        requires
            0 <= x < w,
            0 <= y < h,
    ;
}

impl Board {
    /// The cell count matches the dimensions, and every index fits in a `u32`.
    pub open spec fn wf(&self) -> bool {
        &&& self.data.len() == self.width * self.height
        &&& self.width * self.height <= u32::MAX
    }

    pub open spec fn on_board(&self, x: int, y: int) -> bool {
        0 <= x < self.width && 0 <= y < self.height
    }

    /// Where the cell `(x, y)` is stored.
    pub open spec fn index(&self, x: int, y: int) -> int {
        y * self.width + x
    }

    /// Whether the cell `(x, y)` is alive.
    pub open spec fn cell(&self, x: int, y: int) -> bool {
        self.data@[self.index(x, y)]
    }

    /// The cell `(x, y)` as a neighbour sees it: with `wrap_indexes` the board is
    /// a torus; without it every cell off the board is dead. A board without
    /// cells has no live neighbours.
    pub open spec fn cell_wrapped(&self, x: int, y: int, wrap_indexes: bool) -> bool {
        if wrap_indexes {
            self.width > 0 && self.height > 0 && self.cell(
                wrap(x, self.width as int),
                wrap(y, self.height as int),
            )
        } else {
            self.on_board(x, y) && self.cell(x, y)
        }
    }

    /// How many of the eight cells around `(x, y)` are alive.
    pub open spec fn neighbor_count(&self, x: int, y: int, wrap_indexes: bool) -> int {
        live(self.cell_wrapped(x - 1, y - 1, wrap_indexes))
            + live(self.cell_wrapped(x - 1, y, wrap_indexes))
            + live(self.cell_wrapped(x - 1, y + 1, wrap_indexes))
            + live(self.cell_wrapped(x, y - 1, wrap_indexes))
            + live(self.cell_wrapped(x, y + 1, wrap_indexes))
            + live(self.cell_wrapped(x + 1, y - 1, wrap_indexes))
            + live(self.cell_wrapped(x + 1, y, wrap_indexes))
            + live(self.cell_wrapped(x + 1, y + 1, wrap_indexes))
    }

    /// The live cells among the first `k` of the nine cells around and at
    /// `(x, y)`, taken column by column from the top left; the centre is skipped.
    pub open spec fn neighbors_upto(&self, x: int, y: int, wrap_indexes: bool, k: int) -> int
        decreases k,
    {
        if k <= 0 {
            0
        } else {
            let j = k - 1;
            self.neighbors_upto(x, y, wrap_indexes, j) + if j == 4 {
                0
            } else {
                live(self.cell_wrapped(x + j / 3 - 1, y + j % 3 - 1, wrap_indexes))
            }
        }
    }

    pub fn walk(&self) -> (r: Walker)
        ensures
            r.wf(),
            r.width == self.width,
            r.height == self.height,
            r.pos() == 0,
            r.rest() == walk_seq(self.width, self.height),
    {
        Walker::new(self.width, self.height)
    }

    /// Fills every cell with a random value.
    pub fn randomize(&mut self)
        requires
            old(self).wf(),
        ensures
            final(self).wf(),
            final(self).width == old(self).width,
            final(self).height == old(self).height,
    {
        let n = (self.width * self.height) as usize;
        let mut bits: Vec<bool> = Vec::new();
        while bits.len() < n
            invariant
                bits.len() <= n,
            decreases n - bits.len(),
        {
            bits.push(rand::random::<bool>());
        }
        self.randomize_from(&bits);
    }

    /// Sets the cells, row by row, to `bits`: the random values that another
    /// source has drawn.
    pub fn randomize_from(&mut self, bits: &Vec<bool>)
        requires
            old(self).wf(),
            bits.len() == old(self).width * old(self).height,
        ensures
            final(self).wf(),
            final(self).width == old(self).width,
            final(self).height == old(self).height,
            final(self).data@ == bits@,
    {
        let ghost w = self.width as int;
        let mut walker = self.walk();
        loop
            invariant
                self.wf(),
                self.width == w,
                self.height == old(self).height,
                bits.len() == self.width * self.height,
                walker.wf(),
                walker.width == self.width,
                walker.height == self.height,
                forall|k: int| 0 <= k < walker.pos() ==> self.data@[k] == bits@[k],
            ensures
                walker.pos() == walker.total(),
            decreases walker.total() - walker.pos(),
        {
            let ghost before = walker.pos();
            match walker.next() {
                Some((x, y)) => {
                    proof {
                        lemma_position_bounds(w, self.height as int, before);
                        lemma_index(w, self.height as int, x as int, y as int);
                    }
                    let v = bits[(y * self.width + x) as usize];
                    self.set(x, y, v);
                },
                None => {
                    break ;
                },
            }
        }
        assert(self.data@ =~= bits@);
    }

    /// Folds `value` into `[0, max_value)`. A negative value counts back from
    /// the far edge, so `-1` is the last column or row.
    pub fn wrap_coord(value: i64, max_value: u32) -> (r: u32)
        requires
            max_value > 0,
        ensures
            r == wrap(value as int, max_value as int),
    {
        let m = max_value as u64;
        if value < 0 {
            // value == -(back + 1), so it lies `back % m` steps before the last index
            let back = (-(value + 1)) as u64;
            let rem = back % m;
            proof {
                lemma_fundamental_div_mod(back as int, m as int);
                let q = back as int / m as int;
                assert(value == (-(q + 1)) * m + (m - 1 - rem)) by (nonlinear_arith)
                    requires
                        back == q * m + rem,
                        value == -(back + 1),
                ;
                lemma_fundamental_div_mod_converse(value as int, m as int, -(q + 1), m - 1 - rem);
            }
            (m - 1 - rem) as u32
        } else {
            (value as u64 % m) as u32
        }
    }

    /// How many of the eight cells around `(x, y)` are alive.
    pub fn count_neighbors(&self, x: u32, y: u32, wrap: bool) -> (r: i32)
        requires
            self.wf(),
        ensures
            r == self.neighbor_count(x as int, y as int, wrap),
    {
        let mut count: i32 = 0;
        let mut rel_x: i64 = -1;
        while rel_x <= 1
            invariant
                self.wf(),
                -1 <= rel_x <= 2,
                count == self.neighbors_upto(x as int, y as int, wrap, 3 * (rel_x + 1)),
                count <= 3 * (rel_x + 1),
            decreases 2 - rel_x,
        {
            let mut rel_y: i64 = -1;
            while rel_y <= 1
                invariant
                    self.wf(),
                    -1 <= rel_x <= 1,
                    -1 <= rel_y <= 2,
                    count == self.neighbors_upto(
                        x as int,
                        y as int,
                        wrap,
                        3 * (rel_x + 1) + rel_y + 1,
                    ),
                    count <= 3 * (rel_x + 1) + rel_y + 1,
                decreases 2 - rel_y,
            {
                let ghost k = 3 * (rel_x + 1) + rel_y + 1;
                assert(k / 3 - 1 == rel_x && k % 3 - 1 == rel_y);
                if !(rel_x == 0 && rel_y == 0) && self.at_wrap(
                    x as i64 + rel_x,
                    y as i64 + rel_y,
                    wrap,
                ) {
                    count += 1;
                }
                rel_y += 1;
            }
            rel_x += 1;
        }
        proof {
            reveal_with_fuel(Board::neighbors_upto, 10);
        }
        count
    }

    /// Sets the cell `(x, y)` to `value`.
    pub fn set(&mut self, x: u32, y: u32, value: bool)
        requires
            old(self).wf(),
            old(self).on_board(x as int, y as int),
        ensures
            final(self).wf(),
            final(self).width == old(self).width,
            final(self).height == old(self).height,
            final(self).data@ == old(self).data@.update(old(self).index(x as int, y as int), value),
            forall|i: int, j: int|
                #![trigger final(self).cell(i, j)]
                old(self).on_board(i, j) ==> final(self).cell(i, j) == if i == x && j == y {
                    value
                } else {
                    old(self).cell(i, j)
                },
    {
        proof {
            let (w, h) = (self.width as int, self.height as int);
            lemma_index(w, h, x as int, y as int);
            assert forall|i: int, j: int| #[trigger]
                self.on_board(i, j) && (i != x || j != y) implies self.index(i, j) != self.index(
                x as int,
                y as int,
            ) && 0 <= self.index(i, j) < w * h by {
                lemma_index(w, h, i, j);
            }
        }
        *self.at_mut(x, y) = value;
    }

    /// Whether the cell `(x, y)` is alive, as a neighbour sees it: see `cell_wrapped`.
    pub fn at_wrap(&self, x: i64, y: i64, wrap_indexes: bool) -> (r: bool)
        requires
            self.wf(),
        ensures
            r == self.cell_wrapped(x as int, y as int, wrap_indexes),
    {
        if !wrap_indexes && (x < 0 || y < 0 || x >= (self.width as i64) || y >= (
        self.height as i64)) {
            return false;
        }
        if self.width == 0 || self.height == 0 {
            return false;
        }
        let wx = Board::wrap_coord(x, self.width);
        let wy = Board::wrap_coord(y, self.height);
        proof {
            if !wrap_indexes {
                lemma_small_mod(x as nat, self.width as nat);
                lemma_small_mod(y as nat, self.height as nat);
            }
            lemma_index(self.width as int, self.height as int, wx as int, wy as int);
        }
        self.data[(wy * self.width + wx) as usize]
    }

    /// Whether the cell `(x, y)` is alive; a coordinate off the board is an error.
    pub fn at(&self, x: u32, y: u32) -> (r: Result<bool, LifeError>)
        requires
            self.wf(),
        ensures
            r == if self.on_board(x as int, y as int) {
                Ok(self.cell(x as int, y as int))
            } else {
                Err(LifeError::OutOfRange)
            },
    {
        if x >= self.width || y >= self.height {
            return Err(LifeError::OutOfRange);
        }
        proof {
            lemma_index(self.width as int, self.height as int, x as int, y as int);
        }
        Ok(self.data[(y * self.width + x) as usize])
    }

    /// The place of the cell `(x, y)`, to be written through.
    pub fn at_mut(&mut self, x: u32, y: u32) -> (r: &mut bool)
        requires
            old(self).wf(),
            old(self).on_board(x as int, y as int),
        ensures
            *r == old(self).cell(x as int, y as int),
            final(self).width == old(self).width,
            final(self).height == old(self).height,
            final(self).data@ == old(self).data@.update(
                old(self).index(x as int, y as int),
                *final(r),
            ),
    {
        proof {
            lemma_index(self.width as int, self.height as int, x as int, y as int);
        }
        &mut self.data[(y * self.width + x) as usize]
    }
}

} // verus!
