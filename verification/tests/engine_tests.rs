use match3::board::Board;
use match3::engine::Engine;
use match3::spawn::SpawnTimer;
use match3::tile::{GridState, TileType};

fn playing_engine(board: Board) -> Engine {
    Engine { board, state: GridState::Playing, timer: SpawnTimer::new(1) }
}

fn initializing_engine(board: Board) -> Engine {
    Engine { board, state: GridState::Initializing, timer: SpawnTimer::new(1) }
}

/// The board holds a run of three or more somewhere, read back through the
/// public getters.
fn board_has_run(b: &Board) -> bool {
    let kind = |c: usize, r: usize| -> Option<TileType> {
        b.get(c, r).unwrap().map(|id| b.get_tile(id).unwrap().kind)
    };
    for r in 0..b.rows {
        for c in 0..b.cols {
            if let Some(k) = kind(c, r) {
                if c + 2 < b.cols && kind(c + 1, r) == Some(k) && kind(c + 2, r) == Some(k) {
                    return true;
                }
                if r + 2 < b.rows && kind(c, r + 1) == Some(k) && kind(c, r + 2) == Some(k) {
                    return true;
                }
            }
        }
    }
    false
}

#[test]
fn new_engine_starts_initializing_with_a_full_board() {
    let e = Engine::new(8, 8);
    assert_eq!(e.state, GridState::Initializing);
    assert_eq!(e.board.rows, 8);
    assert_eq!(e.board.cols, 8);
    for r in 0..8 {
        for c in 0..8 {
            let id = e.board.get(c, r).unwrap().expect("setup fills every cell");
            let t = e.board.get_tile(id).unwrap();
            assert_eq!((t.col, t.row), (c, r));
            assert!(!t.matched && !t.selected);
        }
    }
}

#[test]
fn playing_tick_destroys_a_matched_row() {
    // bottom row of three equal kinds, nothing above
    let mut board = Board::new(3, 3);
    let ids: Vec<usize> = (0..3).map(|c| board.place(TileType::Red, c, 0).unwrap()).collect();
    let mut e = playing_engine(board);
    e.advance(0);
    assert_eq!(e.state, GridState::Playing);
    for (c, id) in ids.iter().enumerate() {
        assert_eq!(e.board.get_tile(*id), None);
        assert_eq!(e.board.get(c, 0).unwrap(), None);
    }
}

#[test]
fn tile_above_a_cleared_row_falls_in_the_gravity_step() {
    let mut board = Board::new(3, 3);
    for c in 0..3 {
        board.place(TileType::Red, c, 0).unwrap();
    }
    let above = board.place(TileType::Green, 1, 1).unwrap();
    let mut e = playing_engine(board);
    // the fixed step order runs gravity right after removal, so the survivor
    // drops one cell within the same tick
    e.advance(0);
    let t = e.board.get_tile(above).unwrap();
    assert_eq!((t.col, t.row), (1, 0));
    e.advance(0);
    let t = e.board.get_tile(above).unwrap();
    assert_eq!((t.col, t.row), (1, 0));
}

#[test]
fn matchless_swap_commits_and_marks_nothing() {
    // a full board with no run anywhere, before or after the swap
    let kinds = [
        [TileType::Red, TileType::Green, TileType::Pink],
        [TileType::Green, TileType::Pink, TileType::Tea],
        [TileType::Pink, TileType::Tea, TileType::Cookie],
    ];
    let mut board = Board::new(3, 3);
    let mut ids = [[0usize; 3]; 3];
    for (r, row) in kinds.iter().enumerate() {
        for (c, k) in row.iter().enumerate() {
            ids[r][c] = board.place(*k, c, r).unwrap();
        }
    }
    let mut e = playing_engine(board);
    e.select(0, 0).unwrap();
    e.select(1, 0).unwrap();
    e.advance(0);
    // positions exchanged, tags cleared, nothing matched, nobody destroyed
    let a = e.board.get_tile(ids[0][0]).unwrap();
    let b = e.board.get_tile(ids[0][1]).unwrap();
    assert_eq!((a.col, a.row), (1, 0));
    assert_eq!((b.col, b.row), (0, 0));
    assert!(!a.selected && !b.selected);
    for r in 0..3 {
        for c in 0..3 {
            let t = e.board.get_tile(ids[r][c]).expect("no tile destroyed");
            assert!(!t.matched);
        }
    }
}

#[test]
fn initializing_flips_to_playing_on_first_clean_scan() {
    // a full, runless board settles on its very first tick
    let kinds = [
        [TileType::Red, TileType::Green, TileType::Pink],
        [TileType::Green, TileType::Pink, TileType::Tea],
        [TileType::Pink, TileType::Tea, TileType::Cookie],
    ];
    let mut board = Board::new(3, 3);
    for (r, row) in kinds.iter().enumerate() {
        for (c, k) in row.iter().enumerate() {
            board.place(*k, c, r).unwrap();
        }
    }
    let mut e = initializing_engine(board);
    e.advance(0);
    assert_eq!(e.state, GridState::Playing);
}

#[test]
fn initializing_rerolls_in_place_until_clean_then_flips_forever() {
    // exactly one run of three, in the bottom row
    let kinds = [
        [TileType::Red, TileType::Red, TileType::Red],
        [TileType::Green, TileType::Pink, TileType::Green],
        [TileType::Pink, TileType::Green, TileType::Pink],
    ];
    let mut board = Board::new(3, 3);
    let mut ids = [[0usize; 3]; 3];
    for (r, row) in kinds.iter().enumerate() {
        for (c, k) in row.iter().enumerate() {
            ids[r][c] = board.place(*k, c, r).unwrap();
        }
    }
    let mut e = initializing_engine(board);
    let mut flipped_at = None;
    for tick in 0..10_000 {
        let was_dirty = board_has_run(&e.board);
        e.advance(0);
        if e.state == GridState::Playing {
            // the flip happens exactly on the tick that scanned clean
            assert!(!was_dirty);
            flipped_at = Some(tick);
            break;
        }
        // a dirty scan rerolls in place: every tile stays put, nothing dies
        assert!(was_dirty);
        for r in 0..3 {
            for c in 0..3 {
                let t = e.board.get_tile(ids[r][c]).expect("reroll never destroys");
                assert_eq!((t.col, t.row), (c, r));
                assert!(!t.matched);
            }
        }
    }
    assert!(flipped_at.is_some(), "a random reroll stays dirty forever");
    // the transition is irreversible
    for _ in 0..5 {
        e.advance(0);
        assert_eq!(e.state, GridState::Playing);
    }
}

#[test]
fn configured_spawn_period_gates_the_refill() {
    let e = Engine::with_spawn_period(4, 4, 3);
    assert_eq!(e.timer.period, 3);
    assert_eq!(e.timer.elapsed, 0);

    let mut board = Board::new(2, 1);
    board.place(TileType::Red, 0, 0).unwrap();
    let mut e = Engine { board, state: GridState::Playing, timer: SpawnTimer::new(3) };
    e.advance(1);
    assert_eq!(e.board.get(0, 1).unwrap(), None);
    e.advance(1);
    assert_eq!(e.board.get(0, 1).unwrap(), None);
    e.advance(1);
    assert!(e.board.get(0, 1).unwrap().is_some());
}

#[test]
fn spawner_refills_the_top_row_after_a_period() {
    let mut board = Board::new(2, 2);
    board.place(TileType::Red, 0, 0).unwrap();
    board.place(TileType::Green, 1, 0).unwrap();
    let mut e = playing_engine(board);
    // dt 0: the period has not elapsed, the top row stays empty
    e.advance(0);
    assert_eq!(e.board.get(0, 1).unwrap(), None);
    assert_eq!(e.board.get(1, 1).unwrap(), None);
    // dt 1: the timer fires and both empty top cells are filled
    e.advance(1);
    assert!(e.board.get(0, 1).unwrap().is_some());
    assert!(e.board.get(1, 1).unwrap().is_some());
}
