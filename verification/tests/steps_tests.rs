use match3::board::Board;
use match3::engine::{remove_matched, reroll_matched};
use match3::gravity::drop_down;
use match3::matcher::check_for_matches;
use match3::spawn::{spawn_new, SpawnTimer};
use match3::swap::swap_two_selected;
use match3::tile::TileType;

fn fill_row(b: &mut Board, row: usize, kinds: &[TileType]) -> Vec<usize> {
    kinds
        .iter()
        .enumerate()
        .map(|(col, k)| b.place(*k, col, row).unwrap())
        .collect()
}

fn matched(b: &Board, id: usize) -> bool {
    b.get_tile(id).unwrap().matched
}

#[test]
fn horizontal_run_of_three_fully_marked() {
    let mut b = Board::new(3, 3);
    let ids = fill_row(&mut b, 0, &[TileType::Red, TileType::Red, TileType::Red]);
    check_for_matches(&mut b);
    for id in ids {
        assert!(matched(&b, id));
    }
}

#[test]
fn horizontal_run_of_four_fully_marked() {
    let mut b = Board::new(1, 5);
    let ids = fill_row(
        &mut b,
        0,
        &[TileType::Tea, TileType::Tea, TileType::Tea, TileType::Tea, TileType::Green],
    );
    check_for_matches(&mut b);
    for id in &ids[..4] {
        assert!(matched(&b, *id));
    }
    assert!(!matched(&b, ids[4]));
}

#[test]
fn vertical_run_of_three_fully_marked() {
    let mut b = Board::new(4, 1);
    let a = b.place(TileType::Pink, 0, 0).unwrap();
    let c = b.place(TileType::Pink, 0, 1).unwrap();
    let d = b.place(TileType::Pink, 0, 2).unwrap();
    let e = b.place(TileType::Green, 0, 3).unwrap();
    check_for_matches(&mut b);
    assert!(matched(&b, a) && matched(&b, c) && matched(&b, d));
    assert!(!matched(&b, e));
}

#[test]
fn runs_shorter_than_three_mark_nothing() {
    let mut b = Board::new(3, 3);
    let ids0 = fill_row(&mut b, 0, &[TileType::Red, TileType::Red, TileType::Green]);
    let ids1 = fill_row(&mut b, 1, &[TileType::Green, TileType::Pink, TileType::Pink]);
    check_for_matches(&mut b);
    for id in ids0.iter().chain(ids1.iter()) {
        assert!(!matched(&b, *id));
    }
}

#[test]
fn crossing_runs_both_marked() {
    // horizontal run in row 0 and vertical run in column 0, sharing a corner
    let mut b = Board::new(3, 3);
    let row0 = fill_row(&mut b, 0, &[TileType::Red, TileType::Red, TileType::Red]);
    let up1 = b.place(TileType::Red, 0, 1).unwrap();
    let up2 = b.place(TileType::Red, 0, 2).unwrap();
    let lone = b.place(TileType::Green, 1, 1).unwrap();
    check_for_matches(&mut b);
    for id in row0 {
        assert!(matched(&b, id));
    }
    assert!(matched(&b, up1) && matched(&b, up2));
    assert!(!matched(&b, lone));
}

#[test]
fn diagonal_run_is_not_a_match() {
    let mut b = Board::new(3, 3);
    let a = b.place(TileType::Red, 0, 0).unwrap();
    let c = b.place(TileType::Red, 1, 1).unwrap();
    let d = b.place(TileType::Red, 2, 2).unwrap();
    check_for_matches(&mut b);
    assert!(!matched(&b, a) && !matched(&b, c) && !matched(&b, d));
}

#[test]
fn rescan_clears_stale_tags() {
    let mut b = Board::new(3, 3);
    let ids = fill_row(&mut b, 0, &[TileType::Red, TileType::Red, TileType::Red]);
    check_for_matches(&mut b);
    assert!(matched(&b, ids[0]));
    // break the run, scan again: the tags must drop
    b.move_tile(ids[2], 2, 2).unwrap();
    check_for_matches(&mut b);
    for id in ids {
        assert!(!matched(&b, id));
    }
}

#[test]
fn swap_exchanges_first_two_selected_and_clears_tags() {
    let mut b = Board::new(3, 3);
    let a = b.place(TileType::Red, 0, 0).unwrap();
    let c = b.place(TileType::Green, 1, 0).unwrap();
    b.toggle_selected(0, 0).unwrap();
    b.toggle_selected(1, 0).unwrap();
    swap_two_selected(&mut b);
    let ta = b.get_tile(a).unwrap();
    let tc = b.get_tile(c).unwrap();
    assert_eq!((ta.col, ta.row), (1, 0));
    assert_eq!((tc.col, tc.row), (0, 0));
    assert!(!ta.selected && !tc.selected);
    assert_eq!(b.get(0, 0).unwrap(), Some(c));
    assert_eq!(b.get(1, 0).unwrap(), Some(a));
}

#[test]
fn swap_with_one_selected_is_a_noop() {
    let mut b = Board::new(3, 3);
    let a = b.place(TileType::Red, 0, 0).unwrap();
    let c = b.place(TileType::Green, 1, 0).unwrap();
    b.toggle_selected(0, 0).unwrap();
    swap_two_selected(&mut b);
    let ta = b.get_tile(a).unwrap();
    let tc = b.get_tile(c).unwrap();
    assert_eq!((ta.col, ta.row), (0, 0));
    assert_eq!((tc.col, tc.row), (1, 0));
    // the lone selection stays for a later tick
    assert!(ta.selected);
    assert!(!tc.selected);
}

#[test]
fn swap_with_nothing_selected_is_a_noop() {
    let mut b = Board::new(3, 3);
    let a = b.place(TileType::Red, 0, 0).unwrap();
    swap_two_selected(&mut b);
    let ta = b.get_tile(a).unwrap();
    assert_eq!((ta.col, ta.row), (0, 0));
}

#[test]
fn gravity_moves_a_tile_exactly_one_cell_down() {
    let mut b = Board::new(3, 3);
    let id = b.place(TileType::Red, 0, 2).unwrap();
    drop_down(&mut b);
    let t = b.get_tile(id).unwrap();
    // one cell per tick, not a full drop to rest
    assert_eq!((t.col, t.row), (0, 1));
    drop_down(&mut b);
    let t = b.get_tile(id).unwrap();
    assert_eq!((t.col, t.row), (0, 0));
    drop_down(&mut b);
    let t = b.get_tile(id).unwrap();
    assert_eq!((t.col, t.row), (0, 0));
}

#[test]
fn gravity_shifts_a_whole_stack_by_one() {
    let mut b = Board::new(4, 1);
    let lo = b.place(TileType::Red, 0, 1).unwrap();
    let hi = b.place(TileType::Green, 0, 2).unwrap();
    drop_down(&mut b);
    assert_eq!(b.get(0, 0).unwrap(), Some(lo));
    assert_eq!(b.get(0, 1).unwrap(), Some(hi));
    assert_eq!(b.get(0, 2).unwrap(), None);
}

#[test]
fn gravity_leaves_supported_tiles_alone() {
    let mut b = Board::new(3, 3);
    let lo = b.place(TileType::Red, 1, 0).unwrap();
    let hi = b.place(TileType::Green, 1, 1).unwrap();
    drop_down(&mut b);
    assert_eq!(b.get(1, 0).unwrap(), Some(lo));
    assert_eq!(b.get(1, 1).unwrap(), Some(hi));
}

#[test]
fn timer_accumulates_fires_and_resets() {
    let mut t = SpawnTimer::new(3);
    assert!(!t.tick(1));
    assert!(!t.tick(1));
    assert!(t.tick(1));
    assert_eq!(t.elapsed, 0);
    assert!(!t.tick(2));
}

#[test]
fn timer_never_catches_up_missed_periods() {
    let mut t = SpawnTimer::new(2);
    // a huge step fires once and starts the next period from zero
    assert!(t.tick(10));
    assert_eq!(t.elapsed, 0);
    assert!(!t.tick(1));
}

#[test]
fn spawner_fills_only_empty_top_cells() {
    let mut b = Board::new(2, 3);
    let kept = b.place(TileType::Red, 1, 1).unwrap();
    let below = b.place(TileType::Green, 0, 0).unwrap();
    spawn_new(&mut b);
    // the occupied top cell keeps its tile, untouched
    assert_eq!(b.get(1, 1).unwrap(), Some(kept));
    assert_eq!(b.get_tile(kept).unwrap().kind, TileType::Red);
    // both empty top cells got exactly one fresh tile each
    let a = b.get(0, 1).unwrap().unwrap();
    let c = b.get(2, 1).unwrap().unwrap();
    assert!(a >= 2 && c >= 2 && a != c);
    for id in [a, c] {
        let t = b.get_tile(id).unwrap();
        assert_eq!(t.row, 1);
        assert!(!t.matched && !t.selected);
    }
    // the lower row is not the spawner's business
    assert_eq!(b.get(0, 0).unwrap(), Some(below));
    assert_eq!(b.get(1, 0).unwrap(), None);
    assert_eq!(b.get(2, 0).unwrap(), None);
}

#[test]
fn reroll_keeps_positions_and_clears_tags() {
    let mut b = Board::new(3, 3);
    let ids = fill_row(&mut b, 0, &[TileType::Red, TileType::Red, TileType::Red]);
    let lone = b.place(TileType::Green, 0, 1).unwrap();
    check_for_matches(&mut b);
    reroll_matched(&mut b);
    for (col, id) in ids.iter().enumerate() {
        let t = b.get_tile(*id).unwrap();
        assert_eq!((t.col, t.row), (col, 0));
        assert!(!t.matched);
    }
    let t = b.get_tile(lone).unwrap();
    assert_eq!(t.kind, TileType::Green);
}

#[test]
fn remove_matched_destroys_only_matched_tiles() {
    let mut b = Board::new(3, 3);
    let ids = fill_row(&mut b, 0, &[TileType::Red, TileType::Red, TileType::Red]);
    let lone = b.place(TileType::Green, 1, 1).unwrap();
    check_for_matches(&mut b);
    remove_matched(&mut b);
    for (col, id) in ids.iter().enumerate() {
        assert_eq!(b.get_tile(*id), None);
        assert_eq!(b.get(col, 0).unwrap(), None);
    }
    assert_eq!(b.get(1, 1).unwrap(), Some(lone));
}
