//! The swap controller: commits the exchange of the first two selected tiles
//! and clears their selection; with fewer than two selected it is a no-op.

use vstd::prelude::*;

use crate::board::Board;
use crate::tile::Tile;

verus! {

/// The tile with identity `i` is live and carries the `selected` tag.
pub open spec fn selected(b: Board, i: int) -> bool {
    b.live(i) && b.tile_of(i).selected
}

/// At least two tiles are selected.
pub open spec fn two_selected(b: Board) -> bool {
    exists|i: int, j: int| i != j && #[trigger] selected(b, i) && #[trigger] selected(b, j)
}

/// `i` is the lowest selected identity.
pub open spec fn is_first_selected(b: Board, i: int) -> bool {
    selected(b, i) && forall|k: int| 0 <= k < i ==> !#[trigger] selected(b, k)
}

/// `j` is the lowest selected identity above `i`.
pub open spec fn is_next_selected(b: Board, i: int, j: int) -> bool {
    selected(b, j) && i < j && forall|k: int| i < k < j ==> !#[trigger] selected(b, k)
}

/// The swap step's whole effect. With fewer than two selected tiles the board
/// is untouched; otherwise the two lowest selected identities exchange their
/// positions — unconditionally, whether or not a match results — and lose
/// their `selected` tags, while every other tile and cell stays as it was.
pub open spec fn swap_applied(pre: Board, post: Board) -> bool {
    &&& post.rows == pre.rows
    &&& post.cols == pre.cols
    &&& if !two_selected(pre) {
        post == pre
    } else {
        exists|i: int, j: int|
            {
                let ti = pre.tile_of(i);
                let tj = pre.tile_of(j);
                &&& #[trigger] is_first_selected(pre, i)
                &&& #[trigger] is_next_selected(pre, i, j)
                &&& post.tiles@ == pre.tiles@.update(
                    i,
                    Some(
                        Tile {
                            col: tj.col,
                            row: tj.row,
                            kind: ti.kind,
                            matched: ti.matched,
                            selected: false,
                        },
                    ),
                ).update(
                    j,
                    Some(
                        Tile {
                            col: ti.col,
                            row: ti.row,
                            kind: tj.kind,
                            matched: tj.matched,
                            selected: false,
                        },
                    ),
                )
                &&& post.cell(ti.col as int, ti.row as int) == Some(j as usize)
                &&& post.cell(tj.col as int, tj.row as int) == Some(i as usize)
                &&& forall|c: int, r: int|
                    pre.in_bounds(c, r) && !(c == ti.col && r == ti.row) && !(c == tj.col && r
                        == tj.row) ==> #[trigger] post.cell(c, r) == pre.cell(c, r)
            }
    }
}

/// Finds the lowest selected identity at or above `start`.
fn find_selected_from(b: &Board, start: usize) -> (res: Option<usize>)
    ensures
        match res {
            Some(i) => start <= i < b.tiles@.len() && selected(*b, i as int) && forall|k: int|
                start <= k < i ==> !#[trigger] selected(*b, k),
            None => forall|k: int| start <= k < b.tiles@.len() ==> !#[trigger] selected(*b, k),
        },
{
    let n = b.tiles.len();
    let mut i = start;
    while i < n
        invariant
            start <= i,
            n == b.tiles@.len(),
            forall|k: int| start <= k < i ==> !#[trigger] selected(*b, k),
        decreases n - i,
    {
        match b.tiles[i] {
            Some(t) => {
                if t.selected {
                    return Some(i);
                }
            },
            None => (),
        }
        i = i + 1;
    }
    None
}

/// The swap step: exchanges the positions of the first two selected tiles via
/// the board's atomic swap and clears both `selected` tags; with zero or one
/// tile selected the board is left exactly as it was. Any further selected
/// tiles keep their tags and wait for a later tick.
pub fn swap_two_selected(b: &mut Board)
    requires
        old(b).wf(),
    ensures
        final(b).wf(),
        swap_applied(*old(b), *final(b)),
{
    let ghost b0 = *b;
    let first = find_selected_from(b, 0);
    match first {
        None => {
            proof {
                if two_selected(b0) {
                    let (i, j) = choose|i: int, j: int|
                        i != j && #[trigger] selected(b0, i) && #[trigger] selected(b0, j);
                    assert(!selected(b0, i));
                }
            }
        },
        Some(i) => {
            let n = b.tiles.len();
            let second = find_selected_from(b, i + 1);
            match second {
                None => {
                    proof {
                        if two_selected(b0) {
                            let (p, q) = choose|p: int, q: int|
                                p != q && #[trigger] selected(b0, p) && #[trigger] selected(b0, q);
                            // both witnesses would have to be the single
                            // selected identity i
                            assert(p == i && q == i);
                        }
                    }
                },
                Some(j) => {
                    let ghost ti = b0.tile_of(i as int);
                    let ghost tj = b0.tile_of(j as int);
                    b.swap_tiles(i, j);
                    let ghost b1 = *b;
                    let t1 = b.tiles[i].unwrap();
                    b.replace_tile_same_pos(
                        i,
                        Tile {
                            col: t1.col,
                            row: t1.row,
                            kind: t1.kind,
                            matched: t1.matched,
                            selected: false,
                        },
                    );
                    let t2 = b.tiles[j].unwrap();
                    b.replace_tile_same_pos(
                        j,
                        Tile {
                            col: t2.col,
                            row: t2.row,
                            kind: t2.kind,
                            matched: t2.matched,
                            selected: false,
                        },
                    );
                    proof {
                        assert(selected(b0, i as int) && selected(b0, j as int) && i != j);
                        assert(two_selected(b0));
                        assert(is_first_selected(b0, i as int));
                        assert(is_next_selected(b0, i as int, j as int));
                        assert(b.tiles@ =~= b0.tiles@.update(
                            i as int,
                            Some(
                                Tile {
                                    col: tj.col,
                                    row: tj.row,
                                    kind: ti.kind,
                                    matched: ti.matched,
                                    selected: false,
                                },
                            ),
                        ).update(
                            j as int,
                            Some(
                                Tile {
                                    col: ti.col,
                                    row: ti.row,
                                    kind: tj.kind,
                                    matched: tj.matched,
                                    selected: false,
                                },
                            ),
                        ));
                        assert(b.cells == b1.cells);
                        assert forall|c: int, r: int|
                            b0.in_bounds(c, r) && !(c == ti.col && r == ti.row) && !(c == tj.col
                                && r == tj.row) implies #[trigger] b.cell(c, r) == b0.cell(
                            c,
                            r,
                        ) by {
                            assert(b1.cell(c, r) == b0.cell(c, r));
                        }
                        assert(b.cell(ti.col as int, ti.row as int) == b1.cell(
                            ti.col as int,
                            ti.row as int,
                        ));
                        assert(b.cell(tj.col as int, tj.row as int) == b1.cell(
                            tj.col as int,
                            tj.row as int,
                        ));
                        assert(b.cell(ti.col as int, ti.row as int) == Some(j));
                        assert(b.cell(tj.col as int, tj.row as int) == Some(i));
                        assert(swap_applied(b0, *b));
                    }
                },
            }
        },
    }
}

} // verus!
