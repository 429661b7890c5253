use vstd::arithmetic::div_mod::{lemma_fundamental_div_mod, lemma_fundamental_div_mod_converse};
use vstd::prelude::*;

verus! {

/// The coordinate that comes `i`-th in a row-major scan of a board `w` cells wide.
pub open spec fn coord_at(w: int, i: int) -> (u32, u32) {
    ((i % w) as u32, (i / w) as u32)
}

/// Every coordinate of a `w` by `h` board, row by row, each row from left to right.
pub open spec fn walk_seq(w: u32, h: u32) -> Seq<(u32, u32)> {
    Seq::new((w * h) as nat, |i: int| coord_at(w as int, i))
}

/// `(x, y)` lies on a `w` by `h` board.
pub open spec fn in_bounds(w: int, h: int, c: (u32, u32)) -> bool {
    c.0 < w && c.1 < h
}

pub proof fn lemma_coord_of_position(w: int, x: int, y: int)
    requires
        0 <= x < w,
        0 <= y,
    ensures
        coord_at(w, y * w + x) == (x as u32, y as u32),
        (y * w + x) % w == x,
        (y * w + x) / w == y,
{
    lemma_fundamental_div_mod_converse(y * w + x, w, y, x);
}

pub proof fn lemma_position_bounds(w: int, h: int, i: int)
    requires
        0 <= w,
        0 <= h,
        0 <= i < w * h,
    ensures
        0 <= i % w < w,
        0 <= i / w < h,
        i == (i / w) * w + i % w,
{
    assert(w > 0) by (nonlinear_arith)
        requires
            0 <= w,
            0 <= i < w * h,
    ;
    lemma_fundamental_div_mod(i, w);
    let q = i / w;
    let r = i % w;
    assert(w * q == q * w) by (nonlinear_arith);
    assert(0 <= q < h) by (nonlinear_arith)
        requires
            i == w * q + r,
            0 <= r < w,
            0 <= i < w * h,
    ;
}

/// A row-major scan of a board's coordinates, one coordinate per call of `next`.
pub struct Walker {
    pub width: u32,
    pub height: u32,
    pub x: u32,
    pub y: u32,
}

impl Walker {
    /// The walker's state is a position of the scan: inside a row, or just past the last row.
    pub open spec fn wf(&self) -> bool {
        &&& self.y <= self.height
        &&& self.width == 0 ==> self.x == 0
        &&& self.width > 0 ==> self.x < self.width
        &&& self.y == self.height ==> self.x == 0
    }

    /// How many coordinates the walker has handed out so far.
    pub open spec fn pos(&self) -> int {
        if self.width == 0 {
            0
        } else {
            self.y * self.width + self.x
        }
    }

    /// How many coordinates the whole scan has.
    pub open spec fn total(&self) -> int {
        self.width * self.height
    }

    /// What is left of the scan.
    pub open spec fn rest(&self) -> Seq<(u32, u32)> {
        walk_seq(self.width, self.height).skip(self.pos())
    }

    pub fn new(width: u32, height: u32) -> (r: Walker)
        ensures
            r.wf(),
            r.width == width,
            r.height == height,
            r.pos() == 0,
            r.rest() == walk_seq(width, height),
    {
        let r = Walker { width, height, x: 0, y: 0 };
        assert(r.rest() =~= walk_seq(width, height));
        r
    }

    /// Hands out the next coordinate of the scan, or `None` once every
    /// coordinate has been handed out; it stays `None` after that.
    pub fn next(&mut self) -> (r: Option<(u32, u32)>)
        requires
            old(self).wf(),
        ensures
            final(self).wf(),
            final(self).width == old(self).width,
            final(self).height == old(self).height,
            0 <= old(self).pos() <= old(self).total(),
            old(self).pos() < old(self).total() ==> {
                &&& r == Some(walk_seq(old(self).width, old(self).height)[old(self).pos()])
                &&& final(self).pos() == old(self).pos() + 1
            },
            old(self).pos() == old(self).total() ==> r is None && *final(self) == *old(self),
    {
        proof {
            let (w, h, x, y) = (self.width as int, self.height as int, self.x as int, self.y as int);
            if w == 0 {
                assert(w * h == 0) by (nonlinear_arith)
                    requires
                        w == 0,
                ;
            } else {
                assert(0 <= y * w + x <= h * w) by (nonlinear_arith)
                    requires
                        0 <= x < w,
                        0 <= y <= h,
                        y == h ==> x == 0,
                ;
                if y < h {
                    assert(y * w + x < h * w) by (nonlinear_arith)
                        requires
                            0 <= x < w,
                            0 <= y < h,
                    ;
                }
                lemma_coord_of_position(w, x, y);
                assert((y + 1) * w == y * w + w) by (nonlinear_arith);
            }
        }
        if self.width == 0 || self.y >= self.height {
            return None;
        }
        let value = (self.x, self.y);
        self.x = self.x + 1;
        if self.x == self.width {
            self.x = 0;
            self.y = self.y + 1;
        }
        Some(value)
    }
}

/// A scan of a `w` by `h` board yields `w * h` coordinates, each on the board,
/// no two alike, and every coordinate of the board among them.
pub proof fn lemma_walk_visits_each_cell_once(w: u32, h: u32)
    requires
        w > 0,
        h > 0,
    ensures
        walk_seq(w, h).len() == w * h,
        forall|i: int| 0 <= i < w * h ==> #[trigger] in_bounds(w as int, h as int, walk_seq(w, h)[i]),
        forall|i: int, j: int|
            0 <= i < w * h && 0 <= j < w * h && i != j ==> #[trigger] walk_seq(w, h)[i]
                != #[trigger] walk_seq(w, h)[j],
        forall|x: u32, y: u32|
            x < w && y < h ==> #[trigger] walk_seq(w, h).contains((x, y)),
{
    let (wi, hi) = (w as int, h as int);
    let s = walk_seq(w, h);
    assert forall|i: int| 0 <= i < wi * hi implies #[trigger] in_bounds(wi, hi, s[i]) by {
        lemma_position_bounds(wi, hi, i);
    }
    assert forall|i: int, j: int|
        0 <= i < wi * hi && 0 <= j < wi * hi && i != j implies #[trigger] s[i] != #[trigger] s[j] by {
        lemma_position_bounds(wi, hi, i);
        lemma_position_bounds(wi, hi, j);
    }
    assert forall|x: u32, y: u32| x < w && y < h implies #[trigger] s.contains((x, y)) by {
        let i = y * wi + x;
        lemma_coord_of_position(wi, x as int, y as int);
        assert(i < wi * hi) by (nonlinear_arith)
            requires
                i == y * wi + x,
                x < wi,
                y < hi,
        ;
        assert(s[i] == (x, y));
    }
}

} // verus!
