use vstd::prelude::*;
use crate::board::Board;
use crate::tile::{State, Tile};

verus! {

/// The two per-cell tests whose totals the board contracts speak of.
pub enum CellTest {
    IsMine,
    IsCovered,
}

pub open spec fn tile_passes(t: Tile, c: CellTest) -> bool {
    match c {
        CellTest::IsMine => t.is_mine(),
        CellTest::IsCovered => t.state == State::Covered,
    }
}

pub open spec fn pass_ind(t: Tile, c: CellTest) -> int {
    if tile_passes(t, c) {
        1int
    } else {
        0int
    }
}

/// How many of the first `n` tiles of a row pass the test.
pub open spec fn row_count(row: Seq<Tile>, c: CellTest, n: int) -> int
    decreases n,
{
    if n <= 0 {
        0
    } else {
        row_count(row, c, n - 1) + pass_ind(row[n - 1], c)
    }
}

/// How many tiles of the first `n` rows (each read up to column `h`)
/// pass the test.
pub open spec fn rows_count(g: Seq<Vec<Tile>>, c: CellTest, n: int, h: int) -> int
    decreases n,
{
    if n <= 0 {
        0
    } else {
        rows_count(g, c, n - 1, h) + row_count(g[n - 1]@, c, h)
    }
}

pub proof fn lemma_row_count_nonneg(row: Seq<Tile>, c: CellTest, n: int)
    ensures
        0 <= row_count(row, c, n) <= if n >= 0 { n } else { 0 },
    decreases n,
{
    if n > 0 {
        lemma_row_count_nonneg(row, c, n - 1);
    }
}

pub proof fn lemma_rows_count_nonneg(g: Seq<Vec<Tile>>, c: CellTest, n: int, h: int)
    ensures
        0 <= rows_count(g, c, n, h) <= if n >= 0 && h >= 0 { n * h } else { 0 },
    decreases n,
{
    if n > 0 {
        lemma_rows_count_nonneg(g, c, n - 1, h);
        lemma_row_count_nonneg(g[n - 1]@, c, h);
        if h >= 0 {
            assert((n - 1) * h + h == n * h) by (nonlinear_arith);
        }
    }
}

/// Two rows that agree everywhere below `n` except possibly at `j` differ
/// in count exactly by the change at `j`.
pub proof fn lemma_row_count_except(r1: Seq<Tile>, r2: Seq<Tile>, c: CellTest, n: int, j: int)
    requires
        forall|k: int| 0 <= k < n && k != j ==> r1[k] == r2[k],
    ensures
        row_count(r2, c, n) == row_count(r1, c, n) + if 0 <= j < n {
            pass_ind(r2[j], c) - pass_ind(r1[j], c)
        } else {
            0int
        },
    decreases n,
{
    if n > 0 {
        lemma_row_count_except(r1, r2, c, n - 1, j);
    }
}

/// Two grids that agree on all rows below `n` except possibly row `x`
/// differ in count exactly by the change in row `x`.
pub proof fn lemma_rows_count_except(
    g1: Seq<Vec<Tile>>,
    g2: Seq<Vec<Tile>>,
    c: CellTest,
    n: int,
    h: int,
    x: int,
)
    requires
        forall|r: int| 0 <= r < n && r != x ==> (#[trigger] g1[r])@ == g2[r]@,
    ensures
        rows_count(g2, c, n, h) == rows_count(g1, c, n, h) + if 0 <= x < n {
            row_count(g2[x]@, c, h) - row_count(g1[x]@, c, h)
        } else {
            0int
        },
    decreases n,
{
    if n > 0 {
        lemma_rows_count_except(g1, g2, c, n - 1, h, x);
    }
}

pub proof fn lemma_row_count_none(row: Seq<Tile>, c: CellTest, n: int)
    requires
        forall|k: int| 0 <= k < n ==> !tile_passes(#[trigger] row[k], c),
    ensures
        row_count(row, c, n) == 0,
    decreases n,
{
    if n > 0 {
        lemma_row_count_none(row, c, n - 1);
    }
}

pub proof fn lemma_rows_count_none(g: Seq<Vec<Tile>>, c: CellTest, n: int, h: int)
    requires
        forall|r: int, k: int| 0 <= r < n && 0 <= k < h ==> !tile_passes(#[trigger] g[r]@[k], c),
    ensures
        rows_count(g, c, n, h) == 0,
    decreases n,
{
    if n > 0 {
        lemma_rows_count_none(g, c, n - 1, h);
        lemma_row_count_none(g[n - 1]@, c, h);
    }
}

impl Board {
    /// How many cells of the whole grid pass the test.
    pub open spec fn count_cells(self, c: CellTest) -> int {
        rows_count(self.board@, c, self.width(), self.height())
    }

    /// How many mines the grid holds.
    pub open spec fn total_mines(self) -> int {
        self.count_cells(CellTest::IsMine)
    }

    /// How many cells are still covered.
    pub open spec fn covered_cells(self) -> int {
        self.count_cells(CellTest::IsCovered)
    }

    pub proof fn lemma_count_cells_nonneg(self, c: CellTest)
        requires
            self.wf(),
        ensures
            0 <= self.count_cells(c) <= self.width() * self.height(),
    {
        lemma_rows_count_nonneg(self.board@, c, self.width(), self.height());
    }

    /// A board none of whose cells passes the test counts zero.
    pub proof fn lemma_count_cells_none(self, c: CellTest)
        requires
            self.wf(),
            forall|i: int, j: int|
                self.in_bounds(i, j) ==> !tile_passes(#[trigger] self.cell(i, j), c),
        ensures
            self.count_cells(c) == 0,
    {
        assert forall|r: int, k: int|
            0 <= r < self.width() && 0 <= k < self.height()
            implies !tile_passes(#[trigger] self.board@[r]@[k], c) by {
            assert(!tile_passes(self.cell(r, k), c));
        }
        lemma_rows_count_none(self.board@, c, self.width(), self.height());
    }

    /// Replacing the single cell `(x, y)` moves any cell count by exactly
    /// the change of the test at that cell.
    pub proof fn lemma_count_cells_update(pre: Board, post: Board, c: CellTest, x: int, y: int)
        requires
            pre.wf(),
            post.wf(),
            post.config == pre.config,
            pre.in_bounds(x, y),
            forall|i: int, j: int|
                pre.in_bounds(i, j) && !(i == x && j == y)
                    ==> post.cell(i, j) == pre.cell(i, j),
        ensures
            post.count_cells(c) == pre.count_cells(c)
                + pass_ind(post.cell(x, y), c) - pass_ind(pre.cell(x, y), c),
    {
        let g1 = pre.board@;
        let g2 = post.board@;
        let w = pre.width();
        let h = pre.height();
        assert forall|r: int| 0 <= r < w && r != x implies (#[trigger] g1[r])@ == g2[r]@ by {
            assert forall|k: int| 0 <= k < h implies g1[r]@[k] == g2[r]@[k] by {
                assert(pre.cell(r, k) == post.cell(r, k));
            }
            assert(g1[r]@ =~= g2[r]@);
        }
        lemma_rows_count_except(g1, g2, c, w, h, x);
        assert forall|k: int| 0 <= k < h && k != y implies g1[x]@[k] == g2[x]@[k] by {
            assert(pre.cell(x, k) == post.cell(x, k));
        }
        lemma_row_count_except(g1[x]@, g2[x]@, c, h, y);
    }
}

} // verus!
