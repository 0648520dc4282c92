//! The match detector: a sliding-window scan that tags every tile standing in
//! a horizontal or vertical run of three or more same-kinded tiles.

use vstd::prelude::*;

use crate::board::Board;
use crate::tile::{Tile, TileType};

verus! {

/// Three same-kinded tiles fill the cells `(s, r)`, `(s + 1, r)`, `(s + 2, r)`.
pub open spec fn h_triple(b: Board, s: int, r: int) -> bool {
    &&& 0 <= r < b.rows
    &&& 0 <= s && s + 2 < b.cols
    &&& b.kind_at(s, r) is Some
    &&& b.kind_at(s + 1, r) == b.kind_at(s, r)
    &&& b.kind_at(s + 2, r) == b.kind_at(s, r)
}

/// Three same-kinded tiles fill the cells `(c, s)`, `(c, s + 1)`, `(c, s + 2)`.
pub open spec fn v_triple(b: Board, c: int, s: int) -> bool {
    &&& 0 <= c < b.cols
    &&& 0 <= s && s + 2 < b.rows
    &&& b.kind_at(c, s) is Some
    &&& b.kind_at(c, s + 1) == b.kind_at(c, s)
    &&& b.kind_at(c, s + 2) == b.kind_at(c, s)
}

/// The cell `(c, r)` stands in some 3-wide or 3-tall window of same-kinded
/// tiles. Every window of a longer run is itself a triple, so this covers
/// runs of any length at least 3; diagonals never count.
pub open spec fn in_match(b: Board, c: int, r: int) -> bool {
    ||| exists|s: int| s <= c <= s + 2 && #[trigger] h_triple(b, s, r)
    ||| exists|s: int| s <= r <= s + 2 && #[trigger] v_triple(b, c, s)
}

/// Some cell of the board stands in a run of three or more.
pub open spec fn has_match(b: Board) -> bool {
    exists|c: int, r: int| #[trigger] in_match(b, c, r)
}

/// The match scan's whole effect: the grid, the live set and every tile's
/// position, kind and selection are untouched, and each live tile's `matched`
/// tag now says exactly whether its cell stands in a run of the scanned board.
pub open spec fn matches_marked(pre: Board, post: Board) -> bool {
    &&& post.rows == pre.rows
    &&& post.cols == pre.cols
    &&& post.cells == pre.cells
    &&& post.tiles@.len() == pre.tiles@.len()
    &&& forall|i: int|
        0 <= i < pre.tiles@.len() ==> ((#[trigger] post.tiles@[i]) is Some <==> pre.tiles@[i]
            is Some)
    &&& forall|i: int| #![trigger post.tiles@[i]]
        pre.live(i) ==> {
            let t0 = pre.tile_of(i);
            let t1 = post.tile_of(i);
            &&& t1.col == t0.col
            &&& t1.row == t0.row
            &&& t1.kind == t0.kind
            &&& t1.selected == t0.selected
            &&& t1.matched == in_match(pre, t0.col as int, t0.row as int)
        }
}

/// Boards that agree on every cell's kind agree on every match.
pub proof fn lemma_same_kinds_same_matches(b1: Board, b2: Board)
    requires
        b1.rows == b2.rows,
        b1.cols == b2.cols,
        forall|c: int, r: int|
            b1.in_bounds(c, r) ==> #[trigger] b1.kind_at(c, r) == b2.kind_at(c, r),
    ensures
        forall|c: int, r: int| #[trigger] in_match(b1, c, r) == in_match(b2, c, r),
        has_match(b1) == has_match(b2),
{
    assert forall|s: int, r: int| #[trigger] h_triple(b1, s, r) == h_triple(b2, s, r) by {
        if h_triple(b1, s, r) {
            assert(b1.kind_at(s, r) == b2.kind_at(s, r));
            assert(b1.kind_at(s + 1, r) == b2.kind_at(s + 1, r));
            assert(b1.kind_at(s + 2, r) == b2.kind_at(s + 2, r));
        }
        if h_triple(b2, s, r) {
            assert(b1.kind_at(s, r) == b2.kind_at(s, r));
            assert(b1.kind_at(s + 1, r) == b2.kind_at(s + 1, r));
            assert(b1.kind_at(s + 2, r) == b2.kind_at(s + 2, r));
        }
    }
    assert forall|c: int, s: int| #[trigger] v_triple(b1, c, s) == v_triple(b2, c, s) by {
        if v_triple(b1, c, s) {
            assert(b1.kind_at(c, s) == b2.kind_at(c, s));
            assert(b1.kind_at(c, s + 1) == b2.kind_at(c, s + 1));
            assert(b1.kind_at(c, s + 2) == b2.kind_at(c, s + 2));
        }
        if v_triple(b2, c, s) {
            assert(b1.kind_at(c, s) == b2.kind_at(c, s));
            assert(b1.kind_at(c, s + 1) == b2.kind_at(c, s + 1));
            assert(b1.kind_at(c, s + 2) == b2.kind_at(c, s + 2));
        }
    }
    assert forall|c: int, r: int| #[trigger] in_match(b1, c, r) == in_match(b2, c, r) by {
        if in_match(b1, c, r) {
            if exists|s: int| s <= c <= s + 2 && #[trigger] h_triple(b1, s, r) {
                let s = choose|s: int| s <= c <= s + 2 && #[trigger] h_triple(b1, s, r);
                assert(h_triple(b2, s, r));
            } else {
                let s = choose|s: int| s <= r <= s + 2 && #[trigger] v_triple(b1, c, s);
                assert(v_triple(b2, c, s));
            }
        }
        if in_match(b2, c, r) {
            if exists|s: int| s <= c <= s + 2 && #[trigger] h_triple(b2, s, r) {
                let s = choose|s: int| s <= c <= s + 2 && #[trigger] h_triple(b2, s, r);
                assert(h_triple(b1, s, r));
            } else {
                let s = choose|s: int| s <= r <= s + 2 && #[trigger] v_triple(b2, c, s);
                assert(v_triple(b1, c, s));
            }
        }
    }
    if has_match(b1) {
        let (c, r) = choose|c: int, r: int| #[trigger] in_match(b1, c, r);
        assert(in_match(b2, c, r));
    }
    if has_match(b2) {
        let (c, r) = choose|c: int, r: int| #[trigger] in_match(b2, c, r);
        assert(in_match(b1, c, r));
    }
}

/// A horizontal run of any length `k >= 3` is matched entirely: every one of
/// its cells stands in some 3-wide window of the run.
pub proof fn lemma_h_run_fully_matched(b: Board, r: int, a: int, k: int, c: int)
    requires
        3 <= k,
        0 <= a,
        a + k <= b.cols,
        0 <= r < b.rows,
        forall|x: int|
            a <= x < a + k ==> (#[trigger] b.kind_at(x, r)) is Some && b.kind_at(x, r) == b.kind_at(
                a,
                r,
            ),
        a <= c < a + k,
    ensures
        in_match(b, c, r),
{
    let s = if c + 2 < a + k {
        c
    } else {
        a + k - 3
    };
    assert(b.kind_at(s, r) is Some);
    assert(b.kind_at(s + 1, r) == b.kind_at(a, r));
    assert(b.kind_at(s + 2, r) == b.kind_at(a, r));
    assert(h_triple(b, s, r));
    assert(s <= c <= s + 2);
}

/// A vertical run of any length `k >= 3` is matched entirely.
pub proof fn lemma_v_run_fully_matched(b: Board, c: int, a: int, k: int, r: int)
    requires
        3 <= k,
        0 <= a,
        a + k <= b.rows,
        0 <= c < b.cols,
        forall|y: int|
            a <= y < a + k ==> (#[trigger] b.kind_at(c, y)) is Some && b.kind_at(c, y) == b.kind_at(
                c,
                a,
            ),
        a <= r < a + k,
    ensures
        in_match(b, c, r),
{
    let s = if r + 2 < a + k {
        r
    } else {
        a + k - 3
    };
    assert(b.kind_at(c, s) is Some);
    assert(b.kind_at(c, s + 1) == b.kind_at(c, a));
    assert(b.kind_at(c, s + 2) == b.kind_at(c, a));
    assert(v_triple(b, c, s));
    assert(s <= r <= s + 2);
}

/// Where no 3-window of same-kinded tiles exists in either direction — that
/// is, where every run is shorter than 3 — no cell is matched at all.
pub proof fn lemma_no_triple_no_match(b: Board)
    requires
        forall|s: int, r: int| !#[trigger] h_triple(b, s, r),
        forall|c: int, s: int| !#[trigger] v_triple(b, c, s),
    ensures
        forall|c: int, r: int| !#[trigger] in_match(b, c, r),
        !has_match(b),
{
    assert forall|c: int, r: int| !#[trigger] in_match(b, c, r) by {
        if in_match(b, c, r) {
            if exists|s: int| s <= c <= s + 2 && #[trigger] h_triple(b, s, r) {
                let s = choose|s: int| s <= c <= s + 2 && #[trigger] h_triple(b, s, r);
                assert(!h_triple(b, s, r));
            } else {
                let s = choose|s: int| s <= r <= s + 2 && #[trigger] v_triple(b, c, s);
                assert(!v_triple(b, c, s));
            }
        }
    }
    if has_match(b) {
        let (c, r) = choose|c: int, r: int| #[trigger] in_match(b, c, r);
    }
}

/// After a scan of a board holding a horizontal run of any length `k >= 3`,
/// every tile of the run carries the `matched` tag.
pub proof fn lemma_scan_marks_whole_h_run(pre: Board, post: Board, r: int, a: int, k: int, i: int)
    requires
        matches_marked(pre, post),
        3 <= k,
        0 <= a,
        a + k <= pre.cols,
        0 <= r < pre.rows,
        forall|x: int|
            a <= x < a + k ==> (#[trigger] pre.kind_at(x, r)) is Some && pre.kind_at(x, r)
                == pre.kind_at(a, r),
        pre.live(i),
        pre.tile_of(i).row == r,
        a <= pre.tile_of(i).col < a + k,
    ensures
        post.live(i),
        post.tile_of(i).matched,
{
    lemma_h_run_fully_matched(pre, r, a, k, pre.tile_of(i).col as int);
    assert(pre.tiles@[i] is Some);
}

/// After a scan of a board whose every run is shorter than 3 — no 3-window of
/// same-kinded tiles in either direction — no tile carries the `matched` tag.
pub proof fn lemma_scan_marks_nothing(pre: Board, post: Board, i: int)
    requires
        matches_marked(pre, post),
        forall|s: int, r: int| !#[trigger] h_triple(pre, s, r),
        forall|c: int, s: int| !#[trigger] v_triple(pre, c, s),
        pre.live(i),
    ensures
        post.live(i),
        !post.tile_of(i).matched,
{
    lemma_no_triple_no_match(pre);
    assert(pre.tiles@[i] is Some);
    assert(!in_match(pre, pre.tile_of(i).col as int, pre.tile_of(i).row as int));
}

/// A matched cell is an occupied cell, so a board with a match has a live
/// tile whose own cell is matched — and conversely.
pub proof fn lemma_has_match_iff_matched_tile(b: Board)
    requires
        b.wf(),
    ensures
        has_match(b) <==> exists|i: int|
            #[trigger] b.live(i) && in_match(b, b.tile_of(i).col as int, b.tile_of(i).row as int),
{
    if has_match(b) {
        let (c, r) = choose|c: int, r: int| #[trigger] in_match(b, c, r);
        if exists|s: int| s <= c <= s + 2 && #[trigger] h_triple(b, s, r) {
            let s = choose|s: int| s <= c <= s + 2 && #[trigger] h_triple(b, s, r);
            assert(b.kind_at(c, r) == b.kind_at(s, r));
            assert(b.kind_at(c, r) is Some);
        } else {
            let s = choose|s: int| s <= r <= s + 2 && #[trigger] v_triple(b, c, s);
            assert(b.kind_at(c, r) == b.kind_at(c, s));
            assert(b.kind_at(c, r) is Some);
        }
        assert(b.cell(c, r) is Some);
        assert(b.cell_names_tile(c, r));
        let i = b.cell(c, r)->0 as int;
        assert(b.live(i) && in_match(b, b.tile_of(i).col as int, b.tile_of(i).row as int));
    }
    if exists|i: int|
        #[trigger] b.live(i) && in_match(b, b.tile_of(i).col as int, b.tile_of(i).row as int) {
        let i = choose|i: int|
            #[trigger] b.live(i) && in_match(b, b.tile_of(i).col as int, b.tile_of(i).row as int);
        assert(in_match(b, b.tile_of(i).col as int, b.tile_of(i).row as int));
    }
}

impl Board {
    /// The kind of the tile occupying the cell, read from the grid.
    fn kind_cell(&self, col: usize, row: usize) -> (k: Option<TileType>)
        requires
            self.wf(),
            col < self.cols,
            row < self.rows,
        ensures
            k == self.kind_at(col as int, row as int),
    {
        match self.cells[row][col] {
            None => None,
            Some(i) => {
                proof {
                    assert(self.cell_names_tile(col as int, row as int));
                }
                Some(self.tiles[i].unwrap().kind)
            },
        }
    }

    /// Tests the 3-wide window starting at `(s, row)`.
    fn h_triple_at(&self, s: usize, row: usize) -> (res: bool)
        requires
            self.wf(),
            s < self.cols,
            row < self.rows,
        ensures
            res == h_triple(*self, s as int, row as int),
    {
        if s + 2 < self.cols {
            let k0 = self.kind_cell(s, row);
            let k1 = self.kind_cell(s + 1, row);
            let k2 = self.kind_cell(s + 2, row);
            match (k0, k1, k2) {
                (Some(a), Some(b), Some(c)) => b == a && c == a,
                _ => false,
            }
        } else {
            false
        }
    }

    /// Tests the 3-tall window starting at `(col, s)`.
    fn v_triple_at(&self, col: usize, s: usize) -> (res: bool)
        requires
            self.wf(),
            col < self.cols,
            s < self.rows,
        ensures
            res == v_triple(*self, col as int, s as int),
    {
        if s + 2 < self.rows {
            let k0 = self.kind_cell(col, s);
            let k1 = self.kind_cell(col, s + 1);
            let k2 = self.kind_cell(col, s + 2);
            match (k0, k1, k2) {
                (Some(a), Some(b), Some(c)) => b == a && c == a,
                _ => false,
            }
        } else {
            false
        }
    }

    /// Decides whether the cell stands in a run of three or more: only the
    /// three windows through the cell in each direction can witness it.
    fn cell_in_match(&self, col: usize, row: usize) -> (res: bool)
        requires
            self.wf(),
            col < self.cols,
            row < self.rows,
        ensures
            res == in_match(*self, col as int, row as int),
    {
        let mut m = false;
        if col >= 2 && self.h_triple_at(col - 2, row) {
            m = true;
        }
        if col >= 1 && self.h_triple_at(col - 1, row) {
            m = true;
        }
        if self.h_triple_at(col, row) {
            m = true;
        }
        if row >= 2 && self.v_triple_at(col, row - 2) {
            m = true;
        }
        if row >= 1 && self.v_triple_at(col, row - 1) {
            m = true;
        }
        if self.v_triple_at(col, row) {
            m = true;
        }
        proof {
            if in_match(*self, col as int, row as int) && !m {
                if exists|s: int| s <= col <= s + 2 && #[trigger] h_triple(*self, s, row as int) {
                    let s = choose|s: int|
                        s <= col <= s + 2 && #[trigger] h_triple(*self, s, row as int);
                    assert(s == col - 2 || s == col - 1 || s == col);
                    assert(false);
                } else {
                    let s = choose|s: int|
                        s <= row <= s + 2 && #[trigger] v_triple(*self, col as int, s);
                    assert(s == row - 2 || s == row - 1 || s == row);
                    assert(false);
                }
            }
        }
        m
    }
}

/// The match scan: re-tags every live tile with whether its cell stands in a
/// run of three or more on the board as it was when the scan began. A pure
/// read-then-mark — it removes nothing.
pub fn check_for_matches(b: &mut Board)
    requires
        old(b).wf(),
    ensures
        final(b).wf(),
        matches_marked(*old(b), *final(b)),
{
    let ghost b0 = *b;
    let n = b.tiles.len();
    let mut i: usize = 0;
    while i < n
        invariant
            b.wf(),
            b.rows == b0.rows,
            b.cols == b0.cols,
            b.cells == b0.cells,
            b.tiles@.len() == b0.tiles@.len(),
            n == b0.tiles@.len(),
            i <= n,
            forall|k: int| i <= k < n ==> #[trigger] b.tiles@[k] == b0.tiles@[k],
            forall|k: int|
                0 <= k < n ==> ((#[trigger] b.tiles@[k]) is Some <==> b0.tiles@[k] is Some),
            forall|k: int| #![trigger b.tiles@[k]]
                0 <= k < i && b0.live(k) ==> {
                    let t0 = b0.tile_of(k);
                    let t1 = b.tile_of(k);
                    &&& t1.col == t0.col
                    &&& t1.row == t0.row
                    &&& t1.kind == t0.kind
                    &&& t1.selected == t0.selected
                    &&& t1.matched == in_match(b0, t0.col as int, t0.row as int)
                },
        decreases n - i,
    {
        let entry = b.tiles[i];
        match entry {
            None => (),
            Some(t) => {
                proof {
                    assert(b.tile_placed(i as int));
                    assert forall|c: int, r: int|
                        b.in_bounds(c, r) implies #[trigger] b.kind_at(c, r) == b0.kind_at(
                        c,
                        r,
                    ) by {
                        if b.cell(c, r) is Some {
                            assert(b.cell_names_tile(c, r));
                            assert(b0.cell(c, r) == b.cell(c, r));
                            assert(b0.cell_names_tile(c, r));
                        }
                    }
                    lemma_same_kinds_same_matches(*b, b0);
                }
                let m = b.cell_in_match(t.col, t.row);
                b.replace_tile_same_pos(
                    i,
                    Tile { col: t.col, row: t.row, kind: t.kind, matched: m, selected: t.selected },
                );
            },
        }
        i = i + 1;
    }
}

} // verus!
