use vstd::prelude::*;

verus! {

/// Visibility of one cell during play.
#[derive(Clone, Copy, PartialEq, Eq, Structural, Debug)]
pub enum State {
    Revealed,
    Flag,
    Covered,
}

/// What a cell holds: a blank with its count of neighboring mines, or a mine.
#[derive(Clone, Copy, PartialEq, Eq, Structural, Debug)]
pub enum TileType {
    Blank(u8),
    Mine,
}

/// One grid position: its kind and its visibility.
///
/// The kind is fixed once mine placement is done; only the visibility
/// changes during play.
#[derive(Clone, Copy, PartialEq, Eq, Structural, Debug)]
pub struct Tile {
    pub tile_type: TileType,
    pub state: State,
}

impl Tile {
    /// True when the tile holds a mine.
    pub open spec fn is_mine(self) -> bool {
        self.tile_type is Mine
    }

    /// The stored neighbor count of a blank tile; a mine stores no count.
    pub open spec fn count(self) -> int {
        match self.tile_type {
            TileType::Blank(n) => n as int,
            TileType::Mine => -1,
        }
    }

    /// A fresh tile: blank with count zero, covered.
    pub open spec fn blank_spec() -> Tile {
        Tile { tile_type: TileType::Blank(0), state: State::Covered }
    }

    pub fn blank() -> (t: Tile)
        ensures
            t == Tile::blank_spec(),
    {
        Tile { tile_type: TileType::Blank(0), state: State::Covered }
    }

    /// The tile after one neighbor-count adjustment.
    pub open spec fn marked(self, inc: bool) -> Tile {
        match self.tile_type {
            TileType::Blank(n) => if inc {
                Tile { tile_type: TileType::Blank((n + 1) as u8), state: self.state }
            } else if n > 0 {
                Tile { tile_type: TileType::Blank((n - 1) as u8), state: self.state }
            } else {
                self
            },
            TileType::Mine => self,
        }
    }

    /// Adjust the stored neighbor count: up by one when `inc`, down by one
    /// (never below zero) otherwise. A mine is left untouched.
    pub fn mark_neighbor(&mut self, inc: bool)
        requires
            match old(self).tile_type {
                TileType::Blank(n) => inc ==> n < 255,
                TileType::Mine => true,
            },
        ensures
            *final(self) == old(self).marked(inc),
    {
        if let TileType::Blank(num) = self.tile_type {
            if inc {
                self.tile_type = TileType::Blank(num + 1);
            } else if num > 0 {
                self.tile_type = TileType::Blank(num - 1);
            }
        }
    }
}

} // verus!
