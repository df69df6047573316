//! A minesweeper board engine: the grid of cells, seeded mine
//! placement, and the reveal / flag state machine, with the classic
//! flood-fill cascade for zero-count cells. Every operation carries a
//! contract; the laws module states the properties that tie them
//! together.

pub mod board;
pub mod cascade;
pub mod count;
pub mod laws;
pub mod place;
mod rng;
pub mod tile;

pub use board::{Board, BoardConfig};
pub use tile::{State, Tile, TileType};
