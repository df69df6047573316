use vstd::prelude::*;
use crate::tile::{State, Tile, TileType};

verus! {

/// Immutable parameters of a game variant.
///
/// A configuration is playable only when it holds strictly fewer mines
/// than cells; mine placement demands that bound, since a board whose
/// every cell is a mine could never be filled with distinct positions.
#[derive(Clone, Copy)]
pub struct BoardConfig {
    pub name: &'static str,
    pub width: u8,
    pub height: u8,
    pub mines: u8,
}

impl BoardConfig {
    /// Strictly fewer mines than cells.
    pub open spec fn valid(self) -> bool {
        (self.mines as int) < (self.width as int) * (self.height as int)
    }

    /// Runtime check of `valid`: rejects a mine count that reaches the
    /// number of cells.
    pub fn is_valid(&self) -> (r: bool)
        ensures
            r == self.valid(),
    {
        proof {
            assert((self.width as int) * (self.height as int) <= 255 * 255) by (nonlinear_arith)
                requires
                    self.width as int <= 255,
                    self.height as int <= 255,
            ;
        }
        (self.mines as u32) < (self.width as u32) * (self.height as u32)
    }
}

/// The playing field: a `width x height` grid of tiles, indexed by
/// `(x, y)` with `0 <= x < width` and `0 <= y < height`.
pub struct Board {
    pub config: BoardConfig,
    pub board: Vec<Vec<Tile>>,
}

/// The 8-neighborhood: distinct positions whose coordinates differ by at
/// most one in each direction.
pub open spec fn adjacent(x1: int, y1: int, x2: int, y2: int) -> bool {
    &&& !(x1 == x2 && y1 == y2)
    &&& -1 <= x2 - x1 <= 1
    &&& -1 <= y2 - y1 <= 1
}

/// The visibility after one flag toggle: covered and flagged swap,
/// revealed stays.
pub open spec fn state_toggled(s: State) -> State {
    match s {
        State::Covered => State::Flag,
        State::Flag => State::Covered,
        State::Revealed => State::Revealed,
    }
}

/// The change a flag toggle reports to the "mines remaining" counter.
pub open spec fn flag_delta(s: State) -> int {
    match s {
        State::Covered => 1,
        State::Flag => -1,
        State::Revealed => 0,
    }
}

/// How `flag_tile(x, y)` relates the board before (`pre`) and after
/// (`post`) the call, together with its reported delta and mine answer.
pub open spec fn flag_rel(
    pre: Board,
    post: Board,
    x: int,
    y: int,
    delta: int,
    was_mine: bool,
) -> bool {
    &&& post.config == pre.config
    &&& was_mine == pre.mine_at(x, y)
    &&& if pre.in_bounds(x, y) {
        &&& delta == flag_delta(pre.cell(x, y).state)
        &&& post.cell(x, y) == (Tile {
            tile_type: pre.cell(x, y).tile_type,
            state: state_toggled(pre.cell(x, y).state),
        })
        &&& forall|i: int, j: int|
            pre.in_bounds(i, j) && !(i == x && j == y)
                ==> post.cell(i, j) == pre.cell(i, j)
    } else {
        post == pre && delta == 0
    }
}

impl Board {
    pub open spec fn width(self) -> int {
        self.config.width as int
    }

    pub open spec fn height(self) -> int {
        self.config.height as int
    }

    /// The grid has exactly the dimensions the configuration states.
    pub open spec fn wf(self) -> bool {
        &&& self.board@.len() == self.width()
        &&& forall|x: int| 0 <= x < self.width() ==> (#[trigger] self.board@[x])@.len() == self.height()
    }

    pub open spec fn in_bounds(self, x: int, y: int) -> bool {
        0 <= x < self.width() && 0 <= y < self.height()
    }

    /// The tile stored at `(x, y)`.
    pub open spec fn cell(self, x: int, y: int) -> Tile {
        self.board@[x]@[y]
    }

    /// A mine sits at `(x, y)` (false off the board).
    pub open spec fn mine_at(self, x: int, y: int) -> bool {
        self.in_bounds(x, y) && self.cell(x, y).is_mine()
    }

    /// 1 when a mine sits at `(x, y)`, else 0.
    pub open spec fn mine_ind(self, x: int, y: int) -> int {
        if self.mine_at(x, y) { 1int } else { 0int }
    }

    /// How many of the up-to-8 neighbors of `(x, y)` hold mines.
    pub open spec fn mines_around(self, x: int, y: int) -> int {
        self.mine_ind(x - 1, y - 1) + self.mine_ind(x - 1, y) + self.mine_ind(x - 1, y + 1)
            + self.mine_ind(x, y - 1) + self.mine_ind(x, y + 1)
            + self.mine_ind(x + 1, y - 1) + self.mine_ind(x + 1, y) + self.mine_ind(x + 1, y + 1)
    }

    /// Every blank cell stores exactly the number of mines around it.
    pub open spec fn counts_correct(self) -> bool {
        forall|x: int, y: int|
            self.in_bounds(x, y) && !(#[trigger] self.cell(x, y)).is_mine()
                ==> self.cell(x, y).count() == self.mines_around(x, y)
    }

    /// A board fresh out of construction: every cell blank and covered.
    pub open spec fn fresh(self) -> bool {
        forall|x: int, y: int|
            self.in_bounds(x, y) ==> #[trigger] self.cell(x, y) == Tile::blank_spec()
    }

    /// A fresh board for `config`: a grid of covered zero-count blanks.
    pub fn new(config: BoardConfig) -> (b: Board)
        ensures
            b.config == config,
            b.wf(),
            b.fresh(),
    {
        let width = config.width;
        let height = config.height;
        let mut grid: Vec<Vec<Tile>> = Vec::new();
        let mut x: usize = 0;
        while x < width as usize
            invariant
                x <= width as usize,
                grid@.len() == x,
                forall|i: int| 0 <= i < x ==> (#[trigger] grid@[i])@.len() == height as int,
                forall|i: int, j: int|
                    0 <= i < x && 0 <= j < height as int
                        ==> #[trigger] grid@[i]@[j] == Tile::blank_spec(),
            decreases width as int - x,
        {
            let mut row: Vec<Tile> = Vec::new();
            let mut y: usize = 0;
            while y < height as usize
                invariant
                    y <= height as usize,
                    row@.len() == y,
                    forall|j: int| 0 <= j < y ==> #[trigger] row@[j] == Tile::blank_spec(),
                decreases height as int - y,
            {
                row.push(Tile::blank());
                y = y + 1;
            }
            grid.push(row);
            x = x + 1;
        }
        Board { config, board: grid }
    }

    /// Replace the whole tile at an in-bounds position; every other cell
    /// keeps its value.
    pub(crate) fn set_cell(&mut self, x: usize, y: usize, t: Tile)
        requires
            old(self).wf(),
            old(self).in_bounds(x as int, y as int),
        ensures
            final(self).wf(),
            final(self).config == old(self).config,
            final(self).cell(x as int, y as int) == t,
            forall|i: int, j: int|
                old(self).in_bounds(i, j) && !(i == x as int && j == y as int)
                    ==> final(self).cell(i, j) == old(self).cell(i, j),
    {
        let row = &mut self.board[x];
        row[y] = t;
    }

    /// Some mutable reference to the tile at `(x, y)`, or nothing off
    /// the board; whatever the caller writes through it lands in that
    /// one cell, with every other cell untouched.
    pub fn get_tile_mut(&mut self, x: usize, y: usize) -> (r: Option<&mut Tile>)
        requires
            old(self).wf(),
        ensures
            match r {
                Some(t) => {
                    &&& old(self).in_bounds(x as int, y as int)
                    &&& *t == old(self).cell(x as int, y as int)
                    &&& final(self).config == old(self).config
                    &&& final(self).wf()
                    &&& final(self).cell(x as int, y as int) == *final(t)
                    &&& forall|i: int, j: int|
                        old(self).in_bounds(i, j) && !(i == x as int && j == y as int)
                            ==> final(self).cell(i, j) == old(self).cell(i, j)
                },
                None => !old(self).in_bounds(x as int, y as int) && *final(self) == *old(self),
            },
    {
        if x < self.config.width as usize && y < self.config.height as usize {
            Some(&mut self.board[x][y])
        } else {
            None
        }
    }

    /// Some reference to the tile at `(x, y)`, or nothing off the board.
    pub fn get_tile(&self, x: usize, y: usize) -> (r: Option<&Tile>)
        requires
            self.wf(),
        ensures
            match r {
                Some(t) => self.in_bounds(x as int, y as int) && *t == self.cell(x as int, y as int),
                None => !self.in_bounds(x as int, y as int),
            },
    {
        if let Some(line) = self.board.get(x) {
            line.get(y)
        } else {
            None
        }
    }

    /// Whether `(x, y)` lies on the board.
    pub fn is_tile_in_board(&self, x: usize, y: usize) -> (r: bool)
        requires
            self.wf(),
        ensures
            r == self.in_bounds(x as int, y as int),
    {
        match self.get_tile(x, y) {
            None => false,
            Some(_) => true,
        }
    }

    /// Whether a mine sits at `(x, y)` (false off the board).
    pub fn is_mine(&self, x: usize, y: usize) -> (r: bool)
        requires
            self.wf(),
        ensures
            r == self.mine_at(x as int, y as int),
    {
        if let Some(tile) = self.get_tile(x, y) {
            if let TileType::Mine = tile.tile_type {
                return true;
            }
        }
        false
    }

    /// Whether the tile at `(x, y)` is revealed (false off the board).
    pub fn revealed(&self, x: usize, y: usize) -> (r: bool)
        requires
            self.wf(),
        ensures
            r == (self.in_bounds(x as int, y as int)
                && self.cell(x as int, y as int).state == State::Revealed),
    {
        if let Some(tile) = self.get_tile(x, y) {
            if let State::Revealed = tile.state {
                return true;
            }
        }
        false
    }

    /// Whether the tile at `(x, y)` is flagged (false off the board).
    pub fn flagged(&self, x: usize, y: usize) -> (r: bool)
        requires
            self.wf(),
        ensures
            r == (self.in_bounds(x as int, y as int)
                && self.cell(x as int, y as int).state == State::Flag),
    {
        if let Some(tile) = self.get_tile(x, y) {
            if let State::Flag = tile.state {
                return true;
            }
        }
        false
    }

    /// Toggle the flag at `(x, y)`: a covered tile becomes flagged
    /// (delta +1), a flagged one becomes covered again (delta -1), a
    /// revealed one is left alone (delta 0), as is anything off the board.
    /// The second component answers whether the tile actually holds a mine.
    pub fn flag_tile(&mut self, x: usize, y: usize) -> (r: (i8, bool))
        requires
            old(self).wf(),
        ensures
            final(self).wf(),
            flag_rel(*old(self), *final(self), x as int, y as int, r.0 as int, r.1),
    {
        let mine = self.is_mine(x, y);
        if x < self.config.width as usize && y < self.config.height as usize {
            let t = self.board[x][y];
            match t.state {
                State::Revealed => (0, mine),
                State::Flag => {
                    self.set_cell(x, y, Tile { tile_type: t.tile_type, state: State::Covered });
                    (-1, mine)
                },
                State::Covered => {
                    self.set_cell(x, y, Tile { tile_type: t.tile_type, state: State::Flag });
                    (1, mine)
                },
            }
        } else {
            (0, mine)
        }
    }

    /// The positions of all grid cells around `(x, y)`: 8-connectivity,
    /// clipped at the boundary, each exactly once, in a fixed order.
    pub fn get_neighbors(&self, x: usize, y: usize) -> (v: Vec<(usize, usize)>)
        requires
            self.wf(),
        ensures
            forall|k1: int, k2: int| 0 <= k1 < k2 < v@.len() ==> v@[k1] != v@[k2],
            forall|k: int|
                0 <= k < v@.len()
                    ==> self.in_bounds((#[trigger] v@[k]).0 as int, v@[k].1 as int)
                        && adjacent(x as int, y as int, v@[k].0 as int, v@[k].1 as int),
            forall|i: usize, j: usize|
                self.in_bounds(i as int, j as int) && adjacent(x as int, y as int, i as int, j as int)
                    ==> #[trigger] v@.contains((i, j)),
    {
        let w = self.config.width as usize;
        let h = self.config.height as usize;
        let mut v: Vec<(usize, usize)> = Vec::new();
        let ghost mut k0: int = -1;
        let ghost mut k1: int = -1;
        let ghost mut k2: int = -1;
        let ghost mut k3: int = -1;
        let ghost mut k4: int = -1;
        let ghost mut k5: int = -1;
        let ghost mut k6: int = -1;
        let ghost mut k7: int = -1;
        if x < w && x + 1 < w && y < h {
            proof { k0 = v@.len() as int; }
            v.push((x + 1, y));
        }
        if x < w && y < h && y + 1 < h {
            proof { k1 = v@.len() as int; }
            v.push((x, y + 1));
        }
        if x < w && x + 1 < w && y < h && y + 1 < h {
            proof { k2 = v@.len() as int; }
            v.push((x + 1, y + 1));
        }
        if x > 0 && y > 0 && x - 1 < w && y - 1 < h {
            proof { k3 = v@.len() as int; }
            v.push((x - 1, y - 1));
        }
        if x > 0 && x - 1 < w && y < h {
            proof { k4 = v@.len() as int; }
            v.push((x - 1, y));
        }
        if x > 0 && x - 1 < w && y < h && y + 1 < h {
            proof { k5 = v@.len() as int; }
            v.push((x - 1, y + 1));
        }
        if x < w && y > 0 && y - 1 < h {
            proof { k6 = v@.len() as int; }
            v.push((x, y - 1));
        }
        if x < w && x + 1 < w && y > 0 && y - 1 < h {
            proof { k7 = v@.len() as int; }
            v.push((x + 1, y - 1));
        }
        proof {
            assert forall|i: usize, j: usize|
                self.in_bounds(i as int, j as int)
                    && adjacent(x as int, y as int, i as int, j as int)
                implies #[trigger] v@.contains((i, j)) by {
                if i as int == x + 1 && j as int == y as int {
                    assert(v@[k0] == (i, j));
                } else if i as int == x as int && j as int == y + 1 {
                    assert(v@[k1] == (i, j));
                } else if i as int == x + 1 && j as int == y + 1 {
                    assert(v@[k2] == (i, j));
                } else if i as int == x - 1 && j as int == y - 1 {
                    assert(v@[k3] == (i, j));
                } else if i as int == x - 1 && j as int == y as int {
                    assert(v@[k4] == (i, j));
                } else if i as int == x - 1 && j as int == y + 1 {
                    assert(v@[k5] == (i, j));
                } else if i as int == x as int && j as int == y - 1 {
                    assert(v@[k6] == (i, j));
                } else {
                    assert(i as int == x + 1 && j as int == y - 1);
                    assert(v@[k7] == (i, j));
                }
            }
        }
        v
    }

    /// Overwrite the kind of the tile at `(x, y)`, keeping its visibility;
    /// fails off the board, changing nothing.
    pub fn set_tile(&mut self, x: usize, y: usize, tile_type: TileType) -> (r: Result<(), ()>)
        requires
            old(self).wf(),
        ensures
            final(self).wf(),
            final(self).config == old(self).config,
            match r {
                Ok(()) => old(self).in_bounds(x as int, y as int)
                    && final(self).cell(x as int, y as int)
                        == (Tile { tile_type, state: old(self).cell(x as int, y as int).state })
                    && forall|i: int, j: int|
                        old(self).in_bounds(i, j) && !(i == x as int && j == y as int)
                            ==> final(self).cell(i, j) == old(self).cell(i, j),
                Err(()) => !old(self).in_bounds(x as int, y as int) && *final(self) == *old(self),
            },
    {
        if x < self.config.width as usize && y < self.config.height as usize {
            let state = self.board[x][y].state;
            self.set_cell(x, y, Tile { tile_type, state });
            Ok(())
        } else {
            Err(())
        }
    }
}

} // verus!
