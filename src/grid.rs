//! The mathematical model of a universe: its dimensions and one boolean per
//! cell, row by row, with the rules that act on it.

use vstd::prelude::*;

use crate::shapes::ShapeView;
use vstd::arithmetic::div_mod::{
    lemma_fundamental_div_mod, lemma_fundamental_div_mod_converse, lemma_small_mod,
};

verus! {

/// Coordinate `x` taken round an axis of `n` cells.
pub open spec fn wrap(x: int, n: nat) -> int {
    x % (n as int)
}

/// 1 for a live cell, 0 for a dead one.
pub open spec fn count_of(alive: bool) -> int {
    if alive {
        1
    } else {
        0
    }
}

/// The rule of the game: a live cell lives on with two or three live
/// neighbours and dies otherwise; a dead cell comes alive with exactly three.
pub open spec fn next_state(alive: bool, neighbors: int) -> bool {
    if alive {
        neighbors == 2 || neighbors == 3
    } else {
        neighbors == 3
    }
}

/// A toroidal grid of `width * height` cells; cell `(row, col)` is at
/// `row * width + col`.
pub struct GridView {
    pub width: nat,
    pub height: nat,
    pub cells: Seq<bool>,
}

impl GridView {
    /// Number of cells.
    pub open spec fn size(&self) -> nat {
        self.width * self.height
    }

    /// One entry per cell.
    pub open spec fn wf(&self) -> bool {
        self.cells.len() == self.size()
    }

    /// Linear index of cell `(row, col)`.
    pub open spec fn index(&self, row: int, col: int) -> int {
        row * self.width + col
    }

    /// All cells dead.
    pub open spec fn dead(width: nat, height: nat) -> GridView {
        GridView { width, height, cells: Seq::new(width * height, |i: int| false) }
    }

    /// The same grid with cell `i` set to `alive`.
    pub open spec fn with_cell(self, i: int, alive: bool) -> GridView {
        GridView { width: self.width, height: self.height, cells: self.cells.update(i, alive) }
    }

    /// The same grid with every cell whose `(row, col)` is listed alive, the
    /// others as they were.
    pub open spec fn with_alive(self, list: Seq<(u32, u32)>) -> GridView {
        GridView {
            width: self.width,
            height: self.height,
            cells: Seq::new(
                self.cells.len(),
                |i: int|
                    self.cells[i] || exists|j: int|
                        0 <= j < list.len() && self.index(list[j].0 as int, list[j].1 as int) == i,
            ),
        }
    }

    /// The same grid with cell `(row, col)` flipped.
    pub open spec fn toggled(self, row: int, col: int) -> GridView {
        let i = self.index(row, col);
        self.with_cell(i, !self.cells[i])
    }

    /// Cell `(row, col)`, each coordinate taken round the torus.
    pub open spec fn at(&self, row: int, col: int) -> bool {
        self.cells[self.index(wrap(row, self.height), wrap(col, self.width))]
    }

    /// Number of live cells among the eight that surround `(row, col)` on the
    /// torus; none on a grid without cells.
    pub open spec fn live_neighbors(&self, row: int, col: int) -> int {
        if self.width == 0 || self.height == 0 {
            0
        } else {
            count_of(self.at(row - 1, col - 1)) + count_of(self.at(row - 1, col)) + count_of(
                self.at(row - 1, col + 1),
            ) + count_of(self.at(row, col - 1)) + count_of(self.at(row, col + 1)) + count_of(
                self.at(row + 1, col - 1),
            ) + count_of(self.at(row + 1, col)) + count_of(self.at(row + 1, col + 1))
        }
    }

    /// The next generation: each cell by the rule, from its state and its live
    /// neighbours in this generation.
    pub open spec fn next(self) -> GridView {
        GridView {
            width: self.width,
            height: self.height,
            cells: Seq::new(
                self.size(),
                |i: int|
                    next_state(
                        self.cells[i],
                        self.live_neighbors(i / (self.width as int), i % (self.width as int)),
                    ),
            ),
        }
    }

    /// The grid `n` generations on.
    pub open spec fn after(self, n: nat) -> GridView
        decreases n,
    {
        if n == 0 {
            self
        } else {
            self.after((n - 1) as nat).next()
        }
    }

    /// The cell that bit `k` of `s` lands on when `s` is stamped at `(row, col)`:
    /// its place in the bitmap plus the shape's offset, wrapped on each axis.
    pub open spec fn target(&self, s: ShapeView, row: int, col: int, k: int) -> int {
        self.index(
            wrap(row + k / (s.width as int) + s.row_offset, self.height),
            wrap(col + k % (s.width as int) + s.col_offset, self.width),
        )
    }

    /// The grid after the first `k` bits of `s` have each been written, in
    /// order, over their targets.
    pub open spec fn stamp_prefix(self, s: ShapeView, row: int, col: int, k: nat) -> GridView
        decreases k,
    {
        if k == 0 {
            self
        } else {
            let g = self.stamp_prefix(s, row, col, (k - 1) as nat);
            g.with_cell(self.target(s, row, col, k - 1), s.bit(k - 1))
        }
    }

    /// `s` stamped at `(row, col)`: every bit of the bitmap, set or clear, is
    /// written over its target. A grid without cells is left as it is.
    pub open spec fn stamp(self, s: ShapeView, row: int, col: int) -> GridView {
        if self.width == 0 || self.height == 0 {
            self
        } else {
            self.stamp_prefix(s, row, col, s.size())
        }
    }
}

pub(crate) proof fn lemma_index_in_grid(row: int, col: int, width: int, height: int)
    requires
        0 <= row < height,
        0 <= col < width,
    ensures
        0 <= row * width + col < width * height,
{
    assert(0 <= row * width + col < width * height) by (nonlinear_arith)
        requires
            0 <= row < height,
            0 <= col < width,
    ;
}

/// Every wrapped coordinate pair names a cell of the grid.
proof fn lemma_wrapped_in_grid(g: GridView)
    requires
        g.width > 0,
        g.height > 0,
    ensures
        forall|r: int, c: int|
            0 <= #[trigger] g.index(wrap(r, g.height), wrap(c, g.width)) < g.size(),
{
    assert forall|r: int, c: int| 0 <= #[trigger] g.index(wrap(r, g.height), wrap(c, g.width)) < g.size() by {
        lemma_index_in_grid(wrap(r, g.height), wrap(c, g.width), g.width as int, g.height as int);
    }
}

/// Two cells of the grid with the same index have the same coordinates.
proof fn lemma_index_unique(g: GridView, r1: int, c1: int, r2: int, c2: int)
    requires
        g.width > 0,
        0 <= c1 < g.width,
        0 <= c2 < g.width,
        g.index(r1, c1) == g.index(r2, c2),
    ensures
        r1 == r2,
        c1 == c2,
{
    let x = g.index(r1, c1);
    assert(x == r1 * g.width + c1);
    assert(x == r2 * g.width + c2);
    lemma_fundamental_div_mod_converse(x, g.width as int, r1, c1);
    lemma_fundamental_div_mod_converse(x, g.width as int, r2, c2);
}

/// Two coordinates less than a turn apart stay apart round the axis.
proof fn lemma_mod_distinct(x: int, y: int, n: int)
    requires
        0 < n,
        x < y < x + n,
    ensures
        x % n != y % n,
{
    lemma_fundamental_div_mod(x, n);
    lemma_fundamental_div_mod(y, n);
    if x % n == y % n {
        let q = y / n - x / n;
        assert(y - x == n * q) by (nonlinear_arith)
            requires
                x == n * (x / n) + x % n,
                y == n * (y / n) + y % n,
                x % n == y % n,
                q == y / n - x / n,
        ;
        assert(false) by (nonlinear_arith)
            requires
                y - x == n * q,
                0 < y - x < n,
        ;
    }
}

/// The next generation of an all-dead grid is all dead.
proof fn lemma_dead_next(width: nat, height: nat)
    ensures
        GridView::dead(width, height).next() == GridView::dead(width, height),
{
    let g = GridView::dead(width, height);
    if width > 0 && height > 0 {
        lemma_wrapped_in_grid(g);
    }
    assert(g.next().cells =~= g.cells);
}

/// An all-dead grid of any size stays all dead for any number of generations.
pub proof fn lemma_empty_stays_empty(width: nat, height: nat, n: nat)
    ensures
        GridView::dead(width, height).after(n) == GridView::dead(width, height),
    decreases n,
{
    if n > 0 {
        lemma_empty_stays_empty(width, height, (n - 1) as nat);
        lemma_dead_next(width, height);
    }
}

/// Toggling a cell flips that cell and no other, and toggling it again gives
/// back the grid it started from.
pub proof fn lemma_toggle_involution(g: GridView, row: int, col: int)
    requires
        g.wf(),
        0 <= row < g.height,
        0 <= col < g.width,
    ensures
        g.toggled(row, col).toggled(row, col) == g,
        g.toggled(row, col).cells[g.index(row, col)] != g.cells[g.index(row, col)],
        forall|i: int|
            0 <= i < g.size() && i != g.index(row, col) ==> #[trigger] g.toggled(row, col).cells[i]
                == g.cells[i],
{
    lemma_index_in_grid(row, col, g.width as int, g.height as int);
    assert(g.toggled(row, col).toggled(row, col).cells =~= g.cells);
}

/// Neighbours are counted across the edges of the torus: on a grid of at least
/// 3 by 3, the opposite corner `(height - 1, width - 1)` is a neighbour of
/// `(0, 0)`, so bringing it to life raises the count at `(0, 0)` by one.
pub proof fn lemma_corner_is_neighbor(g: GridView)
    requires
        g.wf(),
        g.width >= 3,
        g.height >= 3,
        !g.cells[g.index(g.height - 1, g.width - 1)],
    ensures
        g.with_cell(g.index(g.height - 1, g.width - 1), true).live_neighbors(0, 0)
            == g.live_neighbors(0, 0) + 1,
{
    let w = g.width as int;
    let h = g.height as int;
    let corner = g.index(h - 1, w - 1);
    let g2 = g.with_cell(corner, true);
    lemma_fundamental_div_mod_converse(-1, h, -1, h - 1);
    lemma_fundamental_div_mod_converse(-1, w, -1, w - 1);
    lemma_small_mod(0, h as nat);
    lemma_small_mod(0, w as nat);
    lemma_small_mod(1, h as nat);
    lemma_small_mod(1, w as nat);
    assert(wrap(-1, g.height) == h - 1);
    assert(wrap(-1, g.width) == w - 1);
    assert(wrap(0, g.height) == 0);
    assert(wrap(0, g.width) == 0);
    assert(wrap(1, g.height) == 1);
    assert(wrap(1, g.width) == 1);
    lemma_wrapped_in_grid(g);
    assert((h - 1) * w >= 2 * w) by (nonlinear_arith)
        requires
            h >= 3,
            w >= 3,
    ;
    assert(g.index(h - 1, 0) == (h - 1) * w);
    assert(g.index(h - 1, 1) == (h - 1) * w + 1);
    assert(g.index(0, w - 1) == w - 1);
    assert(g.index(0, 1) == 1);
    assert(g.index(1, w - 1) == 2 * w - 1);
    assert(g.index(1, 0) == w);
    assert(g.index(1, 1) == w + 1);
    assert(corner == (h - 1) * w + w - 1);
    lemma_index_in_grid(h - 1, w - 1, w, h);
}

/// Two different bits of a shape land on different cells of a grid that is at
/// least as large as the shape.
proof fn lemma_targets_distinct(g: GridView, s: ShapeView, row: int, col: int, a: int, b: int)
    requires
        g.width >= s.width,
        g.height >= s.height,
        0 <= a < b < s.size(),
    ensures
        g.target(s, row, col, a) != g.target(s, row, col, b),
{
    let sw = s.width as int;
    let sh = s.height as int;
    assert(sw > 0 && sh > 0) by (nonlinear_arith)
        requires
            0 <= a < b < sw * sh,
            sw >= 0,
            sh >= 0,
    ;
    lemma_fundamental_div_mod(a, sw);
    lemma_fundamental_div_mod(b, sw);
    let (qa, ra, qb, rb) = (a / sw, a % sw, b / sw, b % sw);
    assert(0 <= qa < sh && 0 <= qb < sh) by (nonlinear_arith)
        requires
            a == sw * qa + ra,
            b == sw * qb + rb,
            0 <= ra < sw,
            0 <= rb < sw,
            0 <= a < b < sw * sh,
    ;
    let (ya, yb) = (row + qa + s.row_offset, row + qb + s.row_offset);
    let (xa, xb) = (col + ra + s.col_offset, col + rb + s.col_offset);
    if qa != qb {
        if qa < qb {
            lemma_mod_distinct(ya, yb, g.height as int);
        } else {
            lemma_mod_distinct(yb, ya, g.height as int);
        }
    } else {
        assert(ra != rb);
        if ra < rb {
            lemma_mod_distinct(xa, xb, g.width as int);
        } else {
            lemma_mod_distinct(xb, xa, g.width as int);
        }
    }
    if g.target(s, row, col, a) == g.target(s, row, col, b) {
        lemma_index_unique(g, wrap(ya, g.height), wrap(xa, g.width), wrap(yb, g.height), wrap(xb, g.width));
    }
}

/// Stamping keeps the dimensions and the number of cells.
proof fn lemma_stamp_prefix_shape(g: GridView, s: ShapeView, row: int, col: int, k: nat)
    requires
        g.wf(),
        g.width > 0,
        g.height > 0,
    ensures
        g.stamp_prefix(s, row, col, k).width == g.width,
        g.stamp_prefix(s, row, col, k).height == g.height,
        g.stamp_prefix(s, row, col, k).cells.len() == g.cells.len(),
    decreases k,
{
    if k > 0 {
        lemma_stamp_prefix_shape(g, s, row, col, (k - 1) as nat);
        lemma_wrapped_in_grid(g);
    }
}

/// Once bit `k` is written, the later bits of the shape leave its cell alone.
proof fn lemma_stamp_prefix_keeps(g: GridView, s: ShapeView, row: int, col: int, k: int, m: nat)
    requires
        g.wf(),
        g.width >= s.width,
        g.height >= s.height,
        0 <= k < m <= s.size(),
    ensures
        g.stamp_prefix(s, row, col, m).cells[g.target(s, row, col, k)] == s.bit(k),
    decreases m,
{
    assert(s.width > 0 && s.height > 0) by (nonlinear_arith)
        requires
            0 <= k < s.width * s.height,
    ;
    lemma_stamp_prefix_shape(g, s, row, col, (m - 1) as nat);
    lemma_wrapped_in_grid(g);
    if m > k + 1 {
        lemma_stamp_prefix_keeps(g, s, row, col, k, (m - 1) as nat);
        lemma_targets_distinct(g, s, row, col, k, m - 1);
    }
}

/// A stamp overwrites its whole footprint: on a grid at least as large as the
/// shape, the cell that each bit lands on ends up holding that bit, so the
/// shape's clear bits leave dead cells even where live ones were.
pub proof fn lemma_stamp_overwrites(g: GridView, s: ShapeView, row: int, col: int, k: int)
    requires
        g.wf(),
        g.width >= s.width,
        g.height >= s.height,
        0 <= k < s.size(),
    ensures
        g.stamp(s, row, col).cells[g.target(s, row, col, k)] == s.bit(k),
{
    assert(s.width > 0 && s.height > 0) by (nonlinear_arith)
        requires
            0 <= k < s.width * s.height,
    ;
    lemma_stamp_prefix_keeps(g, s, row, col, k, s.size());
}

} // verus!
