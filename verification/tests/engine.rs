use minesweeper::{Board, BoardConfig, State, Tile, TileType};

fn config(width: u8, height: u8, mines: u8) -> BoardConfig {
    BoardConfig { name: "test", width, height, mines }
}

/// Count the mines among the neighbors of (x, y) by brute force.
fn neighbor_mines(board: &Board, x: usize, y: usize) -> u8 {
    let mut count = 0u8;
    for i in x.saturating_sub(1)..=(x + 1) {
        for j in y.saturating_sub(1)..=(y + 1) {
            if (i, j) != (x, y) && board.is_mine(i, j) {
                count += 1;
            }
        }
    }
    count
}

fn stored_count(board: &Board, x: usize, y: usize) -> u8 {
    match board.get_tile(x, y) {
        Some(Tile { tile_type: TileType::Blank(n), .. }) => *n,
        other => panic!("expected a blank tile at {} {}, found {:?}", x, y, other),
    }
}

fn count_mines(board: &Board) -> usize {
    let mut total = 0;
    for x in 0..board.config.width as usize {
        for y in 0..board.config.height as usize {
            if board.is_mine(x, y) {
                total += 1;
            }
        }
    }
    total
}

/// A 3x3 board with one handmade mine at (2, 2) and exact counts.
fn handmade_board() -> Board {
    let mut board = Board::new(config(3, 3, 1));
    board.set_tile(2, 2, TileType::Mine).unwrap();
    board.set_tile(1, 1, TileType::Blank(1)).unwrap();
    board.set_tile(1, 2, TileType::Blank(1)).unwrap();
    board.set_tile(2, 1, TileType::Blank(1)).unwrap();
    board
}

#[test]
fn config_validity() {
    assert!(config(3, 3, 8).is_valid());
    assert!(!config(3, 3, 9).is_valid());
    assert!(!config(0, 5, 0).is_valid());
    assert!(config(1, 1, 0).is_valid());
}

#[test]
fn new_board_starts_blank_and_covered() {
    let board = Board::new(config(4, 5, 3));
    for x in 0..4 {
        for y in 0..5 {
            assert!(!board.is_mine(x, y));
            assert!(!board.revealed(x, y));
            assert!(!board.flagged(x, y));
            assert_eq!(stored_count(&board, x, y), 0);
        }
    }
    assert!(board.is_tile_in_board(3, 4));
    assert!(!board.is_tile_in_board(4, 0));
    assert!(!board.is_tile_in_board(0, 5));
    assert!(board.get_tile(9, 9).is_none());
}

#[test]
fn place_mines_places_exact_count() {
    let mut board = Board::new(config(6, 6, 8));
    board.place_mines(12345);
    assert_eq!(count_mines(&board), 8);
    for x in 0..6 {
        for y in 0..6 {
            assert!(!board.revealed(x, y));
            assert!(!board.flagged(x, y));
        }
    }
}

#[test]
fn place_mines_counts_are_exact() {
    let mut board = Board::new(config(6, 6, 8));
    board.place_mines(12345);
    for x in 0..6 {
        for y in 0..6 {
            if !board.is_mine(x, y) {
                assert_eq!(stored_count(&board, x, y), neighbor_mines(&board, x, y));
            }
        }
    }
}

#[test]
fn place_mines_is_deterministic_in_the_seed() {
    let mut first = Board::new(config(8, 10, 10));
    let mut second = Board::new(config(8, 10, 10));
    first.place_mines(99);
    second.place_mines(99);
    for x in 0..8 {
        for y in 0..10 {
            assert_eq!(first.is_mine(x, y), second.is_mine(x, y));
            assert_eq!(stored_count_or_mine(&first, x, y), stored_count_or_mine(&second, x, y));
        }
    }
}

fn stored_count_or_mine(board: &Board, x: usize, y: usize) -> Option<u8> {
    match board.get_tile(x, y) {
        Some(Tile { tile_type: TileType::Blank(n), .. }) => Some(*n),
        _ => None,
    }
}

#[test]
fn one_by_one_board_reveals_clean() {
    let mut board = Board::new(config(1, 1, 0));
    board.place_mines(7);
    let hit = board.reveal_tile(0, 0, false);
    assert!(!hit);
    assert!(board.revealed(0, 0));
}

#[test]
fn single_mine_three_by_three_at_center() {
    // hunt for a seed that drops the single mine in the center; the
    // placement is deterministic, so the hunt is too
    let mut seed = 0u64;
    let board = loop {
        let mut board = Board::new(config(3, 3, 1));
        board.place_mines(seed);
        if board.is_mine(1, 1) {
            break board;
        }
        seed += 1;
        assert!(seed < 10_000, "no seed put the mine in the center");
    };
    assert_eq!(count_mines(&board), 1);
    // every other cell touches the center, so each counts exactly one
    for x in 0..3 {
        for y in 0..3 {
            if (x, y) != (1, 1) {
                assert_eq!(stored_count(&board, x, y), 1);
            }
        }
    }
    // revealing any non-mine cell reveals that cell alone: no cascade
    // starts from a nonzero count
    for x in 0..3 {
        for y in 0..3 {
            if (x, y) == (1, 1) {
                continue;
            }
            let mut fresh = Board::new(config(3, 3, 1));
            fresh.place_mines(seed);
            assert!(!fresh.reveal_tile(x, y, false));
            for i in 0..3 {
                for j in 0..3 {
                    assert_eq!(fresh.revealed(i, j), (i, j) == (x, y));
                }
            }
        }
    }
}

#[test]
fn reveal_mine_reports_loss_and_stays_covered() {
    let mut board = handmade_board();
    let hit = board.reveal_tile(2, 2, false);
    assert!(hit);
    assert!(!board.revealed(2, 2));
    assert!(!board.flagged(2, 2));
    // a second try answers the same
    assert!(board.reveal_tile(2, 2, false));
    assert!(!board.revealed(2, 2));
}

#[test]
fn zero_reveal_floods_region_and_border() {
    let mut board = handmade_board();
    let hit = board.reveal_tile(0, 0, false);
    assert!(!hit);
    // the whole zero region and its numbered border open up; the mine
    // in the corner stays covered
    for x in 0..3 {
        for y in 0..3 {
            assert_eq!(board.revealed(x, y), (x, y) != (2, 2));
        }
    }
}

#[test]
fn flagged_cell_blocks_the_cascade() {
    let mut board = handmade_board();
    board.flag_tile(0, 1);
    board.reveal_tile(0, 0, false);
    assert!(!board.revealed(0, 1));
    assert!(board.flagged(0, 1));
    // the zero region below the flag still opens
    assert!(board.revealed(1, 0));
    assert!(board.revealed(2, 0));
    assert!(board.revealed(1, 1));
    assert!(board.revealed(2, 1));
    // but the cells cut off behind the flag stay covered
    assert!(!board.revealed(0, 2));
    assert!(!board.revealed(1, 2));
    assert!(!board.revealed(2, 2));
}

#[test]
fn reveal_is_a_noop_off_the_board_and_on_flags() {
    let mut board = handmade_board();
    assert!(!board.reveal_tile(7, 7, false));
    board.flag_tile(2, 2);
    assert!(!board.reveal_tile(2, 2, false));
    assert!(board.flagged(2, 2));
    assert!(!board.revealed(2, 2));
}

#[test]
fn chord_reveals_neighbors_and_can_lose() {
    let mut board = handmade_board();
    assert!(!board.reveal_tile(1, 1, false));
    assert!(board.revealed(1, 1));
    // chord on the numbered cell: the covered mine at (2, 2) is hit
    let hit = board.reveal_tile(1, 1, true);
    assert!(hit);
    assert!(!board.revealed(2, 2));
    // the safe neighbors opened along the way
    for &(x, y) in &[(0usize, 0usize), (0, 1), (0, 2), (1, 0), (1, 2), (2, 0), (2, 1)] {
        assert!(board.revealed(x, y), "expected {} {} revealed", x, y);
    }
}

#[test]
fn chord_without_permission_is_a_noop() {
    let mut board = handmade_board();
    assert!(!board.reveal_tile(1, 1, false));
    // a second plain reveal of a revealed cell does nothing
    assert!(!board.reveal_tile(1, 1, false));
    for x in 0..3 {
        for y in 0..3 {
            assert_eq!(board.revealed(x, y), (x, y) == (1, 1));
        }
    }
}

#[test]
fn flag_then_unflag_restores_the_cell() {
    let mut board = handmade_board();
    let (d1, m1) = board.flag_tile(0, 0);
    assert_eq!(d1, 1);
    assert!(!m1);
    assert!(board.flagged(0, 0));
    let (d2, m2) = board.flag_tile(0, 0);
    assert_eq!(d2, -1);
    assert!(!m2);
    assert!(!board.flagged(0, 0));
    assert!(!board.revealed(0, 0));
    assert_eq!(d1 + d2, 0);
}

#[test]
fn flag_reports_mines_truthfully() {
    let mut board = handmade_board();
    let (d, was_mine) = board.flag_tile(2, 2);
    assert_eq!(d, 1);
    assert!(was_mine);
    let (d, was_mine) = board.flag_tile(2, 2);
    assert_eq!(d, -1);
    assert!(was_mine);
}

#[test]
fn flagging_a_revealed_cell_changes_nothing() {
    let mut board = handmade_board();
    board.reveal_tile(1, 1, false);
    let (d, was_mine) = board.flag_tile(1, 1);
    assert_eq!(d, 0);
    assert!(!was_mine);
    assert!(board.revealed(1, 1));
    assert!(!board.flagged(1, 1));
    // again, regardless of history
    let (d, _) = board.flag_tile(1, 1);
    assert_eq!(d, 0);
}

#[test]
fn flag_off_the_board_reports_nothing() {
    let mut board = handmade_board();
    let (d, was_mine) = board.flag_tile(9, 0);
    assert_eq!(d, 0);
    assert!(!was_mine);
}

#[test]
fn set_tile_rejects_positions_off_the_board() {
    let mut board = Board::new(config(2, 2, 0));
    assert!(board.set_tile(0, 1, TileType::Mine).is_ok());
    assert!(board.set_tile(2, 0, TileType::Mine).is_err());
    assert!(board.is_mine(0, 1));
    assert!(!board.is_mine(2, 0));
}

#[test]
fn get_tile_mut_writes_one_cell() {
    let mut board = Board::new(config(2, 2, 0));
    match board.get_tile_mut(1, 0) {
        Some(tile) => tile.state = State::Revealed,
        None => panic!("expected a tile at 1 0"),
    }
    assert!(board.revealed(1, 0));
    assert!(!board.revealed(0, 0));
    assert!(board.get_tile_mut(2, 2).is_none());
}

#[test]
fn mark_neighbor_adjusts_blank_counts_only() {
    let mut tile = Tile::blank();
    tile.mark_neighbor(true);
    tile.mark_neighbor(true);
    assert_eq!(tile.tile_type, TileType::Blank(2));
    tile.mark_neighbor(false);
    assert_eq!(tile.tile_type, TileType::Blank(1));
    tile.mark_neighbor(false);
    tile.mark_neighbor(false);
    assert_eq!(tile.tile_type, TileType::Blank(0));
    assert_eq!(tile.state, State::Covered);

    let mut mine = Tile { tile_type: TileType::Mine, state: State::Covered };
    mine.mark_neighbor(true);
    assert_eq!(mine.tile_type, TileType::Mine);
}

#[test]
fn get_neighbors_clips_to_the_board() {
    let board = Board::new(config(3, 3, 0));
    let mut corner = board.get_neighbors(0, 0);
    corner.sort();
    assert_eq!(corner, vec![(0, 1), (1, 0), (1, 1)]);
    let mut center = board.get_neighbors(1, 1);
    center.sort();
    assert_eq!(
        center,
        vec![(0, 0), (0, 1), (0, 2), (1, 0), (1, 2), (2, 0), (2, 1), (2, 2)]
    );
    let mut edge = board.get_neighbors(2, 1);
    edge.sort();
    assert_eq!(edge, vec![(1, 0), (1, 1), (1, 2), (2, 0), (2, 2)]);
}

#[test]
fn chord_with_no_mine_around_stays_safe() {
    // 2x2 with no mines at all: chord can never lose
    let mut board = Board::new(config(2, 2, 0));
    assert!(!board.reveal_tile(0, 0, false));
    assert!(!board.reveal_tile(0, 0, true));
    for x in 0..2 {
        for y in 0..2 {
            assert!(board.revealed(x, y));
        }
    }
}

#[test]
fn cascade_stops_at_the_numbered_border() {
    // a 5x1 strip with a mine in the middle: two zero cells at the
    // ends, separated by the numbered cells around the mine
    let mut board = Board::new(config(5, 1, 1));
    board.set_tile(2, 0, TileType::Mine).unwrap();
    board.set_tile(1, 0, TileType::Blank(1)).unwrap();
    board.set_tile(3, 0, TileType::Blank(1)).unwrap();
    assert!(!board.reveal_tile(0, 0, false));
    assert!(board.revealed(0, 0));
    assert!(board.revealed(1, 0));
    // nothing beyond the border of the region opens
    assert!(!board.revealed(2, 0));
    assert!(!board.revealed(3, 0));
    assert!(!board.revealed(4, 0));
}
