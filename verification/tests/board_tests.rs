use match3::board::Board;
use match3::tile::{GridError, TileType};

fn occupant(b: &Board, col: usize, row: usize) -> Option<usize> {
    b.get(col, row).unwrap()
}

#[test]
fn place_returns_fresh_identity_and_fills_cell() {
    let mut b = Board::new(3, 3);
    let id = b.place(TileType::Red, 0, 0).unwrap();
    assert_eq!(id, 0);
    assert_eq!(occupant(&b, 0, 0), Some(0));
    let t = b.get_tile(id).unwrap();
    assert_eq!(t.col, 0);
    assert_eq!(t.row, 0);
    assert_eq!(t.kind, TileType::Red);
    assert!(!t.matched);
    assert!(!t.selected);
}

#[test]
fn place_rejects_occupied_cell() {
    let mut b = Board::new(3, 3);
    b.place(TileType::Red, 1, 1).unwrap();
    assert_eq!(b.place(TileType::Green, 1, 1), Err(GridError::OccupiedCell));
    // the loser changed nothing
    let t = b.get_tile(0).unwrap();
    assert_eq!(t.kind, TileType::Red);
    assert_eq!(b.tile_count(), 1);
}

#[test]
fn place_and_get_reject_out_of_bounds() {
    let mut b = Board::new(2, 4);
    assert_eq!(b.place(TileType::Tea, 4, 0), Err(GridError::OutOfBounds));
    assert_eq!(b.place(TileType::Tea, 0, 2), Err(GridError::OutOfBounds));
    assert_eq!(b.get(4, 0), Err(GridError::OutOfBounds));
    assert_eq!(b.get(0, 2), Err(GridError::OutOfBounds));
    assert_eq!(b.get(3, 1), Ok(None));
}

#[test]
fn clear_empties_cell_and_destroys_tile() {
    let mut b = Board::new(3, 3);
    let id = b.place(TileType::Pink, 2, 1).unwrap();
    assert_eq!(b.clear(2, 1), Ok(()));
    assert_eq!(occupant(&b, 2, 1), None);
    assert_eq!(b.get_tile(id), None);
    // clearing an already empty cell is a no-op
    assert_eq!(b.clear(2, 1), Ok(()));
    assert_eq!(b.clear(3, 0), Err(GridError::OutOfBounds));
}

#[test]
fn move_tile_updates_cell_and_tile_together() {
    let mut b = Board::new(3, 3);
    let id = b.place(TileType::Cookie, 0, 0).unwrap();
    assert_eq!(b.move_tile(id, 2, 1), Ok(()));
    // both representations of position agree after the move
    assert_eq!(occupant(&b, 2, 1), Some(id));
    assert_eq!(occupant(&b, 0, 0), None);
    let t = b.get_tile(id).unwrap();
    assert_eq!((t.col, t.row), (2, 1));
}

#[test]
fn move_tile_rejects_occupied_target() {
    let mut b = Board::new(3, 3);
    let a = b.place(TileType::Red, 0, 0).unwrap();
    let c = b.place(TileType::Green, 1, 0).unwrap();
    assert_eq!(b.move_tile(a, 1, 0), Err(GridError::OccupiedCell));
    assert_eq!(occupant(&b, 0, 0), Some(a));
    assert_eq!(occupant(&b, 1, 0), Some(c));
    assert_eq!(b.move_tile(a, 0, 3), Err(GridError::OutOfBounds));
}

#[test]
fn swap_tiles_exchanges_positions_atomically() {
    let mut b = Board::new(3, 3);
    let a = b.place(TileType::Red, 0, 0).unwrap();
    let c = b.place(TileType::Green, 2, 2).unwrap();
    b.swap_tiles(a, c);
    assert_eq!(occupant(&b, 0, 0), Some(c));
    assert_eq!(occupant(&b, 2, 2), Some(a));
    let ta = b.get_tile(a).unwrap();
    let tc = b.get_tile(c).unwrap();
    assert_eq!((ta.col, ta.row), (2, 2));
    assert_eq!((tc.col, tc.row), (0, 0));
    assert_eq!(ta.kind, TileType::Red);
    assert_eq!(tc.kind, TileType::Green);
}

#[test]
fn toggle_selected_flips_and_ignores_empty() {
    let mut b = Board::new(3, 3);
    let id = b.place(TileType::Tea, 1, 1).unwrap();
    assert_eq!(b.toggle_selected(1, 1), Ok(()));
    assert!(b.get_tile(id).unwrap().selected);
    assert_eq!(b.toggle_selected(1, 1), Ok(()));
    assert!(!b.get_tile(id).unwrap().selected);
    assert_eq!(b.toggle_selected(0, 0), Ok(()));
    assert_eq!(b.toggle_selected(5, 5), Err(GridError::OutOfBounds));
}
