//! A universe of cells, packed one bit per cell, with the operations that
//! seed, edit and advance it.

use vstd::prelude::*;

use crate::bits::{
    bit_set, byte_len, get_cell, lemma_packs_unique, lemma_zeros_pack, packed_bit, packs, set_cell,
};
use crate::grid::{count_of, lemma_index_in_grid, next_state, wrap, GridView};
use crate::shapes::{neighbors_view, DrawObject, Shape, ShapeView};
use vstd::arithmetic::div_mod::{
    lemma_fundamental_div_mod_converse, lemma_mod_add_multiples_vanish, lemma_sub_mod_noop,
};

verus! {

/// How `init` fills a universe.
#[derive(Clone, Copy, Debug)]
pub enum CreationStrategy {
    /// Cell `i` is alive when `i` is even or a multiple of 7.
    Deterministic,
    /// Each cell is alive with probability one half.
    FiftyFifty,
    /// Every cell is dead.
    Empty,
}

/// The state that `strategy` gives cell `i`, where `draws` holds the outcome
/// of one fair draw per cell.
pub open spec fn seed_cell(strategy: CreationStrategy, draws: Seq<bool>, i: int) -> bool {
    match strategy {
        CreationStrategy::Deterministic => i % 2 == 0 || i % 7 == 0,
        CreationStrategy::FiftyFifty => draws[i],
        CreationStrategy::Empty => false,
    }
}

/// `n` cells, each seeded by `strategy`.
pub open spec fn seeded(strategy: CreationStrategy, draws: Seq<bool>, n: nat) -> Seq<bool> {
    Seq::new(n, |i: int| seed_cell(strategy, draws, i))
}

/// Seeding with `Deterministic` is reproducible: for given dimensions the
/// packed cells come out byte for byte the same every time, whatever the draws.
pub proof fn lemma_deterministic_seed_bytes(
    a: Seq<u8>,
    b: Seq<u8>,
    draws_a: Seq<bool>,
    draws_b: Seq<bool>,
    width: nat,
    height: nat,
)
    requires
        packs(a, seeded(CreationStrategy::Deterministic, draws_a, width * height)),
        packs(b, seeded(CreationStrategy::Deterministic, draws_b, width * height)),
    ensures
        a == b,
{
    let n = width * height;
    assert(seeded(CreationStrategy::Deterministic, draws_a, n) =~= seeded(
        CreationStrategy::Deterministic,
        draws_b,
        n,
    ));
    lemma_packs_unique(a, b, seeded(CreationStrategy::Deterministic, draws_a, n));
}

/// A toroidal grid of cells, stored one bit per cell, with a second buffer of
/// the same size that each generation is written into.
pub struct Universe {
    width: u32,
    height: u32,
    cells: Vec<u8>,
    buff: Vec<u8>,
}

impl View for Universe {
    type V = GridView;

    closed spec fn view(&self) -> GridView {
        GridView {
            width: self.width as nat,
            height: self.height as nat,
            cells: Seq::new(
                self.width as nat * self.height as nat,
                |i: int| packed_bit(self.cells@, i),
            ),
        }
    }
}

/// `base + shift` taken round an axis of `n` cells.
fn wrap_add(base: u32, shift: i64, n: u32) -> (r: u32)
    requires
        n > 0,
        -0x1_0000_0000_0000 <= shift <= 0x1_0000_0000_0000,
    ensures
        r == wrap(base + shift, n as nat),
        r < n,
{
    let m = n as u64;
    if shift >= 0 {
        ((base as u64 + shift as u64) % m) as u32
    } else {
        let back = ((-shift) as u64) % m;
        let b = (base as u64) % m;
        proof {
            lemma_sub_mod_noop(base as int, -shift as int, m as int);
            lemma_mod_add_multiples_vanish(b - back, m as int);
        }
        ((b + (m - back)) % m) as u32
    }
}

/// Number of live cells under the set bits among the first `k` bits of `s`,
/// stamped at `(row, col)`.
spec fn count_under(g: GridView, s: ShapeView, row: int, col: int, k: nat) -> int
    decreases k,
{
    if k == 0 {
        0
    } else {
        count_under(g, s, row, col, (k - 1) as nat) + count_of(
            s.bit(k - 1) && g.cells[g.target(s, row, col, k - 1)],
        )
    }
}

proof fn lemma_neighbor_bits()
    by (bit_vector)
    ensures
        bit_set(0b11110111u8, 7),
        bit_set(0b11110111u8, 6),
        bit_set(0b11110111u8, 5),
        bit_set(0b11110111u8, 4),
        !bit_set(0b11110111u8, 3),
        bit_set(0b11110111u8, 2),
        bit_set(0b11110111u8, 1),
        bit_set(0b11110111u8, 0),
        bit_set(0b10000000u8, 7),
{
}

/// Counting under the neighbour mask counts the eight cells around the centre:
/// the mask's bits are all set but the middle one, and bit `k` lands on
/// `(row + k / 3 - 1, col + k % 3 - 1)`.
proof fn lemma_neighbor_mask(g: GridView, row: int, col: int)
    requires
        g.width > 0,
        g.height > 0,
    ensures
        count_under(g, neighbors_view(), row, col, 9) == g.live_neighbors(row, col),
{
    lemma_neighbor_bits();
    let s = neighbors_view();
    assert(s.pattern[0] == 0b11110111u8);
    assert(s.pattern[1] == 0b10000000u8);
    assert(s.bit(0));
    assert(g.target(s, row, col, 0) == g.index(wrap(row - 1, g.height), wrap(col - 1, g.width)));
    assert(s.bit(1));
    assert(g.target(s, row, col, 1) == g.index(wrap(row - 1, g.height), wrap(col, g.width)));
    assert(s.bit(2));
    assert(g.target(s, row, col, 2) == g.index(wrap(row - 1, g.height), wrap(col + 1, g.width)));
    assert(s.bit(3));
    assert(g.target(s, row, col, 3) == g.index(wrap(row, g.height), wrap(col - 1, g.width)));
    assert(!s.bit(4));
    assert(g.target(s, row, col, 4) == g.index(wrap(row, g.height), wrap(col, g.width)));
    assert(s.bit(5));
    assert(g.target(s, row, col, 5) == g.index(wrap(row, g.height), wrap(col + 1, g.width)));
    assert(s.bit(6));
    assert(g.target(s, row, col, 6) == g.index(wrap(row + 1, g.height), wrap(col - 1, g.width)));
    assert(s.bit(7));
    assert(g.target(s, row, col, 7) == g.index(wrap(row + 1, g.height), wrap(col, g.width)));
    assert(s.bit(8));
    assert(g.target(s, row, col, 8) == g.index(wrap(row + 1, g.height), wrap(col + 1, g.width)));
    reveal_with_fuel(count_under, 10);
}

/// `size` zero bytes.
fn zeroed(size: usize) -> (v: Vec<u8>)
    ensures
        v@.len() == size,
        forall|j: int| 0 <= j < size ==> v@[j] == 0u8,
{
    let mut v: Vec<u8> = Vec::with_capacity(size);
    while v.len() < size
        invariant
            v@.len() <= size,
            forall|j: int| 0 <= j < v@.len() ==> v@[j] == 0u8,
        decreases size - v@.len(),
    {
        v.push(0u8);
    }
    v
}

impl Universe {
    /// The cell count fits in a `u32`, the cell buffer packs the cells, and the
    /// scratch buffer has the same length with its bits past the last cell clear.
    pub closed spec fn wf(&self) -> bool {
        &&& self.width * self.height <= u32::MAX
        &&& packs(self.cells@, self@.cells)
        &&& self.buff@.len() == self.cells@.len()
        &&& forall|i: int|
            self@.size() <= i < 8 * self.buff@.len() ==> !#[trigger] packed_bit(self.buff@, i)
    }

    /// The model of a valid universe has one cell per coordinate pair, its cells
    /// can be counted in a `u32`, and every in-range `(row, col)` indexes a cell.
    pub proof fn lemma_valid_model(&self)
        requires
            self.wf(),
        ensures
            self@.wf(),
            self@.size() <= u32::MAX,
            forall|row: int, col: int|
                0 <= row < self@.height && 0 <= col < self@.width ==> 0 <= #[trigger] self@.index(
                    row,
                    col,
                ) < self@.size(),
    {
        assert forall|row: int, col: int|
            0 <= row < self@.height && 0 <= col < self@.width implies 0 <= #[trigger] self@.index(
            row,
            col,
        ) < self@.size() by {
            lemma_index_in_grid(row, col, self.width as int, self.height as int);
        }
    }

    /// A universe of `width` columns and `height` rows, all dead.
    pub fn new(width: u32, height: u32) -> (u: Universe)
        requires
            width * height <= u32::MAX,
        ensures
            u.wf(),
            u@ == GridView::dead(width as nat, height as nat),
    {
        let mut uni = Universe { width, height, cells: Vec::new(), buff: Vec::new() };
        uni.clear();
        uni
    }

    /// Number of columns.
    pub fn width(&self) -> (r: u32)
        ensures
            r == self@.width,
    {
        self.width
    }

    /// Number of rows.
    pub fn height(&self) -> (r: u32)
        ensures
            r == self@.height,
    {
        self.height
    }

    /// Sets the number of columns; every cell is dead afterwards.
    pub fn set_width(&mut self, width: u32)
        requires
            old(self).wf(),
            width * old(self)@.height <= u32::MAX,
        ensures
            final(self).wf(),
            final(self)@ == GridView::dead(width as nat, old(self)@.height),
    {
        self.width = width;
        self.clear();
    }

    /// Sets the number of rows; every cell is dead afterwards.
    pub fn set_height(&mut self, height: u32)
        requires
            old(self).wf(),
            old(self)@.width * height <= u32::MAX,
        ensures
            final(self).wf(),
            final(self)@ == GridView::dead(old(self)@.width, height as nat),
    {
        self.height = height;
        self.clear();
    }

    /// Overwrites every cell as `strategy` says. For `FiftyFifty`, `draws`
    /// holds one fair draw per cell, in index order; the other strategies do
    /// not read it.
    pub fn init(&mut self, strategy: CreationStrategy, draws: &Vec<bool>)
        requires
            old(self).wf(),
            strategy is FiftyFifty ==> draws@.len() == old(self)@.size(),
        ensures
            final(self).wf(),
            final(self)@ == (GridView {
                width: old(self)@.width,
                height: old(self)@.height,
                cells: seeded(strategy, draws@, old(self)@.size()),
            }),
    {
        let n = self.width * self.height;
        let ghost g = self@;
        let mut i: u32 = 0;
        while i < n
            invariant
                self.wf(),
                self@.width == g.width,
                self@.height == g.height,
                n == g.size(),
                i <= n,
                strategy is FiftyFifty ==> draws@.len() == n,
                forall|j: int| 0 <= j < i ==> self@.cells[j] == seed_cell(strategy, draws@, j),
            decreases n - i,
        {
            let state = match strategy {
                CreationStrategy::Deterministic => i % 2 == 0 || i % 7 == 0,
                CreationStrategy::FiftyFifty => draws[i as usize],
                CreationStrategy::Empty => false,
            };
            self.put(i as usize, state);
            i = i + 1;
        }
        assert(self@.cells =~= seeded(strategy, draws@, g.size()));
    }

    /// Makes every listed `(row, column)` cell alive, leaving the others as
    /// they were.
    pub fn set_cells(&mut self, cells: &[(u32, u32)])
        requires
            old(self).wf(),
            forall|j: int|
                0 <= j < cells@.len() ==> #[trigger] cells@[j].0 < old(self)@.height
                    && cells@[j].1 < old(self)@.width,
        ensures
            final(self).wf(),
            final(self)@ == old(self)@.with_alive(cells@),
    {
        let ghost g = self@;
        let mut k: usize = 0;
        while k < cells.len()
            invariant
                self.wf(),
                self@.width == g.width,
                self@.height == g.height,
                self@.cells.len() == g.cells.len(),
                k <= cells@.len(),
                forall|j: int|
                    0 <= j < cells@.len() ==> #[trigger] cells@[j].0 < g.height && cells@[j].1 < g.width,
                forall|i: int|
                    0 <= i < g.cells.len() ==> #[trigger] self@.cells[i] == (g.cells[i] || exists|j: int|
                        0 <= j < k && g.index(cells@[j].0 as int, cells@[j].1 as int) == i),
            decreases cells@.len() - k,
        {
            let (row, col) = cells[k];
            proof {
                lemma_index_in_grid(row as int, col as int, self.width as int, self.height as int);
            }
            let idx = self.get_index(row, col);
            let ghost before = self@;
            self.put(idx, true);
            proof {
                assert forall|i: int| 0 <= i < g.cells.len() implies #[trigger] self@.cells[i] == (
                g.cells[i] || exists|j: int|
                    0 <= j < k + 1 && g.index(cells@[j].0 as int, cells@[j].1 as int) == i) by {
                    if i == idx {
                        assert(g.index(cells@[k as int].0 as int, cells@[k as int].1 as int) == i);
                    } else {
                        assert(before.cells[i] == self@.cells[i]);
                        if exists|j: int|
                            0 <= j < k + 1 && g.index(cells@[j].0 as int, cells@[j].1 as int) == i {
                            let j = choose|j: int|
                                0 <= j < k + 1 && g.index(cells@[j].0 as int, cells@[j].1 as int)
                                    == i;
                            assert(j != k);
                        }
                    }
                }
            }
            k = k + 1;
        }
        assert(self@.cells =~= g.with_alive(cells@).cells);
    }

    /// Flips cell `(row, col)`.
    pub fn toggle_cell(&mut self, row: u32, col: u32)
        requires
            old(self).wf(),
            row < old(self)@.height,
            col < old(self)@.width,
        ensures
            final(self).wf(),
            final(self)@ == old(self)@.toggled(row as int, col as int),
    {
        proof {
            lemma_index_in_grid(row as int, col as int, self.width as int, self.height as int);
        }
        let idx = self.get_index(row, col);
        let is_alive = get_cell(&self.cells, idx);
        self.put(idx, !is_alive);
    }

    /// Linear index of cell `(row, column)`.
    pub fn get_index(&self, row: u32, column: u32) -> (r: usize)
        requires
            self@.index(row as int, column as int) <= u32::MAX,
        ensures
            r == self@.index(row as int, column as int),
    {
        (row * self.width + column) as usize
    }

    /// Stamps `to_draw` with its anchor at `(row, col)`: each bit of the shape,
    /// set or clear, overwrites the cell it lands on, wrapping round the edges.
    pub fn draw_object(&mut self, to_draw: DrawObject, row: u32, col: u32)
        requires
            old(self).wf(),
        ensures
            final(self).wf(),
            final(self)@ == old(self)@.stamp(to_draw.spec_shape(), row as int, col as int),
            final(self)@.width == old(self)@.width,
            final(self)@.height == old(self)@.height,
            final(self)@.cells.len() == old(self)@.cells.len(),
    {
        if self.width == 0 || self.height == 0 {
            return;
        }
        let shape = to_draw.shape();
        let n = shape.width * shape.height;
        let ghost g = self@;
        let mut idx: u32 = 0;
        while idx < n
            invariant
                self.wf(),
                shape@ == to_draw.spec_shape(),
                shape@.wf(),
                n == shape@.size(),
                idx <= n,
                g.width > 0,
                g.height > 0,
                self@.width == g.width,
                self@.height == g.height,
                self@ == g.stamp_prefix(shape@, row as int, col as int, idx as nat),
            decreases n - idx,
        {
            let (i, alive) = self.translate_idx(&shape, row, col, idx);
            self.put(i, alive);
            idx = idx + 1;
        }
    }

    /// Where bit `shape_idx` of `shape`, stamped at `(ctr_row, ctr_col)`, lands,
    /// and the value of that bit.
    fn translate_idx(&self, shape: &Shape, ctr_row: u32, ctr_col: u32, shape_idx: u32) -> (r: (
        usize,
        bool,
    ))
        requires
            self.wf(),
            self@.width > 0,
            self@.height > 0,
            shape@.wf(),
            shape_idx < shape@.size(),
        ensures
            r.0 == self@.target(shape@, ctr_row as int, ctr_col as int, shape_idx as int),
            r.0 < self@.size(),
            r.1 == shape@.bit(shape_idx as int),
    {
        assert(shape.width > 0) by (nonlinear_arith)
            requires
                shape_idx < shape.width as nat * shape.height as nat,
        ;
        let row_shift = (shape_idx / shape.width) as i64 + shape.row_offset as i64;
        let col_shift = (shape_idx % shape.width) as i64 + shape.col_offset as i64;
        let cell_row = wrap_add(ctr_row, row_shift, self.height);
        let cell_col = wrap_add(ctr_col, col_shift, self.width);
        proof {
            lemma_index_in_grid(cell_row as int, cell_col as int, self.width as int, self.height as int);
        }
        let draw_idx = self.get_index(cell_row, cell_col);
        (draw_idx, shape.bit(shape_idx))
    }

    /// Number of live cells among the eight around `(row, column)`, each
    /// coordinate taken round the torus.
    pub fn live_neighbor_count(&self, row: u32, column: u32) -> (r: u8)
        requires
            self.wf(),
        ensures
            r == self@.live_neighbors(row as int, column as int),
    {
        if self.width == 0 || self.height == 0 {
            return 0;
        }
        let shape = Shape::neighbors();
        let n = shape.width * shape.height;
        let mut count: u8 = 0;
        let mut idx: u32 = 0;
        while idx < n
            invariant
                self.wf(),
                self@.width > 0,
                self@.height > 0,
                shape@ == neighbors_view(),
                n == 9,
                idx <= n,
                count <= idx,
                count == count_under(self@, shape@, row as int, column as int, idx as nat),
            decreases n - idx,
        {
            let (i, alive) = self.translate_idx(&shape, row, column, idx);
            if alive && get_cell(&self.cells, i) {
                count = count + 1;
            }
            idx = idx + 1;
        }
        proof {
            lemma_neighbor_mask(self@, row as int, column as int);
        }
        count
    }

    /// Advances one generation. Every cell is computed from the cells as they
    /// were before the call into the scratch buffer, which then becomes current.
    pub fn tick(&mut self)
        requires
            old(self).wf(),
        ensures
            final(self).wf(),
            final(self)@ == old(self)@.next(),
    {
        let ghost g = self@;
        let mut row: u32 = 0;
        while row < self.height
            invariant
                self.wf(),
                self@ == g,
                row <= self.height,
                forall|i: int|
                    0 <= i < row * self.width ==> #[trigger] packed_bit(self.buff@, i)
                        == g.next().cells[i],
            decreases self.height - row,
        {
            let mut col: u32 = 0;
            while col < self.width
                invariant
                    self.wf(),
                    self@ == g,
                    row < self.height,
                    col <= self.width,
                    forall|i: int|
                        0 <= i < row * self.width + col ==> #[trigger] packed_bit(self.buff@, i)
                            == g.next().cells[i],
                decreases self.width - col,
            {
                proof {
                    lemma_index_in_grid(row as int, col as int, self.width as int, self.height as int);
                    lemma_fundamental_div_mod_converse(
                        row * self.width + col,
                        self.width as int,
                        row as int,
                        col as int,
                    );
                }
                let idx = self.get_index(row, col);
                let cell = get_cell(&self.cells, idx);
                let live_neighbors = self.live_neighbor_count(row, col);
                // A live cell with fewer than two or more than three live
                // neighbours dies; with two or three it lives on. A dead cell
                // with exactly three comes alive; any other stays dead.
                let next_cell = if cell {
                    live_neighbors == 2 || live_neighbors == 3
                } else {
                    live_neighbors == 3
                };
                assert(next_cell == next_state(g.cells[idx as int], g.live_neighbors(row as int, col as int)));
                set_cell(&mut self.buff, idx, next_cell);
                col = col + 1;
            }
            assert((row + 1) * self.width == row * self.width + self.width) by (nonlinear_arith);
            row = row + 1;
        }
        assert(row * self.width == g.size()) by (nonlinear_arith)
            requires
                row == self.height,
                g.width == self.width,
                g.height == self.height,
        ;
        std::mem::swap(&mut self.cells, &mut self.buff);
        assert(self@.cells =~= g.next().cells);
    }

    /// The packed cells: bit `i % 8` of byte `i / 8` is cell `i`.
    pub fn get_cells(&self) -> (r: &Vec<u8>)
        requires
            self.wf(),
        ensures
            packs(r@, self@.cells),
    {
        &self.cells
    }

    /// Sets cell `idx` to `alive`.
    fn put(&mut self, idx: usize, alive: bool)
        requires
            old(self).wf(),
            idx < old(self)@.size(),
        ensures
            final(self).wf(),
            final(self)@ == old(self)@.with_cell(idx as int, alive),
    {
        set_cell(&mut self.cells, idx, alive);
        assert(self@.cells =~= old(self)@.cells.update(idx as int, alive));
    }

    /// Gives both buffers the size that the dimensions ask for, every cell dead.
    fn clear(&mut self)
        requires
            old(self).width * old(self).height <= u32::MAX,
        ensures
            final(self).wf(),
            final(self)@ == GridView::dead(old(self)@.width, old(self)@.height),
            final(self).cells@ == Seq::new(
                byte_len(old(self)@.size()),
                |j: int| 0u8,
            ),
            final(self).buff@ == Seq::new(
                byte_len(old(self)@.size()),
                |j: int| 0u8,
            ),
    {
        let n = self.width * self.height;
        let size = (n / 8 + if n % 8 == 0 {
            0
        } else {
            1
        }) as usize;
        assert(size == byte_len(n as nat));
        self.cells = zeroed(size);
        self.buff = zeroed(size);
        proof {
            lemma_zeros_pack(self.cells@, n as nat);
            lemma_zeros_pack(self.buff@, n as nat);
            assert(self@.cells =~= Seq::new(n as nat, |i: int| false));
            assert(self.cells@ =~= Seq::new(byte_len(n as nat), |j: int| 0u8));
            assert(self.buff@ =~= Seq::new(byte_len(n as nat), |j: int| 0u8));
            assert forall|i: int| self@.size() <= i < 8 * self.buff@.len() implies !#[trigger] packed_bit(
                self.buff@,
                i,
            ) by {
                assert(packs(self.buff@, Seq::new(n as nat, |i: int| false)));
            }
        }
    }
}

} // verus!
