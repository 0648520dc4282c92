//! The gravity resolver: one pass per tick, column by column from the bottom
//! row up, moving a tile down one cell when the cell below it is empty. A
//! stack above a gap shifts down as a whole, one row per tick, so settling is
//! interleaved with matching and spawning rather than resolved in one pass.

use vstd::prelude::*;

use crate::board::Board;
use crate::tile::GridError;

verus! {

/// Some cell strictly below `(c, y)` in column `c` is empty.
pub open spec fn empty_below(b: Board, c: int, y: int) -> bool {
    exists|y2: int| 0 <= y2 < y && (#[trigger] b.cell(c, y2)) is None
}

/// Where a tile standing at `(c, y)` lands after one gravity pass: one cell
/// down when its column has any gap below it, else where it stood. The
/// bottom-up pass closes the highest gap under each tile of the stack, so a
/// tile falls exactly when a gap exists anywhere below it.
pub open spec fn dropped_row(b: Board, c: int, y: int) -> int {
    if empty_below(b, c, y) {
        y - 1
    } else {
        y
    }
}

/// The gravity step's whole effect: the live set, every kind and tag are
/// untouched; no tile changes column; each tile's row drops by exactly one
/// when its column has a gap below it, else stays — never more than one cell
/// in a single pass.
pub open spec fn gravity_applied(pre: Board, post: Board) -> bool {
    &&& post.rows == pre.rows
    &&& post.cols == pre.cols
    &&& post.tiles@.len() == pre.tiles@.len()
    &&& forall|i: int|
        0 <= i < pre.tiles@.len() ==> ((#[trigger] post.tiles@[i]) is Some <==> pre.tiles@[i]
            is Some)
    &&& forall|i: int| #![trigger post.tiles@[i]]
        pre.live(i) ==> {
            let t0 = pre.tile_of(i);
            let t1 = post.tile_of(i);
            &&& t1.kind == t0.kind
            &&& t1.matched == t0.matched
            &&& t1.selected == t0.selected
            &&& t1.col == t0.col
            &&& t1.row == dropped_row(pre, t0.col as int, t0.row as int)
        }
}

/// A tile moves at most one cell in one pass, straight down, never up or
/// sideways; that it never lands on another tile is the board's
/// well-formedness, kept by the pass.
pub proof fn lemma_gravity_one_step(pre: Board, post: Board, i: int)
    requires
        gravity_applied(pre, post),
        pre.live(i),
    ensures
        post.live(i),
        post.tile_of(i).col == pre.tile_of(i).col,
        pre.tile_of(i).row - 1 <= post.tile_of(i).row <= pre.tile_of(i).row,
{
}

/// The gap predicate unrolls one row at a time.
proof fn lemma_empty_below_step(b: Board, c: int, y: int)
    requires
        y >= 1,
    ensures
        empty_below(b, c, y) == (empty_below(b, c, y - 1) || b.cell(c, y - 1) is None),
{
    if empty_below(b, c, y) {
        let y2 = choose|y2: int| 0 <= y2 < y && (#[trigger] b.cell(c, y2)) is None;
        if y2 < y - 1 {
            assert(empty_below(b, c, y - 1));
        }
    }
    if empty_below(b, c, y - 1) {
        let y2 = choose|y2: int| 0 <= y2 < y - 1 && (#[trigger] b.cell(c, y2)) is None;
        assert(0 <= y2 < y && b.cell(c, y2) is None);
    }
    if b.cell(c, y - 1) is None {
        assert(0 <= y - 1 < y && b.cell(c, y - 1) is None);
    }
}

/// The gravity pass: for each column, from the bottom row upward, a tile
/// whose lower neighbour cell is empty moves down exactly one cell.
#[verifier::loop_isolation(false)]
pub fn drop_down(b: &mut Board)
    requires
        old(b).wf(),
    ensures
        final(b).wf(),
        gravity_applied(*old(b), *final(b)),
{
    let ghost b0 = *b;
    let cols = b.cols;
    let rows = b.rows;
    let mut c: usize = 0;
    while c < cols
        invariant
            c <= cols,
            b.wf(),
            b.rows == b0.rows,
            b.cols == b0.cols,
            b.tiles@.len() == b0.tiles@.len(),
            forall|k: int|
                0 <= k < b0.tiles@.len() ==> ((#[trigger] b.tiles@[k]) is Some <==> b0.tiles@[k]
                    is Some),
            forall|k: int| #![trigger b.tiles@[k]]
                b0.live(k) ==> {
                    let t0 = b0.tile_of(k);
                    let t1 = b.tile_of(k);
                    &&& t1.kind == t0.kind
                    &&& t1.matched == t0.matched
                    &&& t1.selected == t0.selected
                    &&& t1.col == t0.col
                    &&& (t0.col < c ==> t1.row == dropped_row(b0, t0.col as int, t0.row as int))
                    &&& (t0.col >= c ==> t1.row == t0.row)
                },
        decreases cols - c,
    {
        let mut y: usize = 1;
        while y < rows
            invariant
                1 <= y <= rows,
                c < cols,
                b.wf(),
                b.rows == b0.rows,
                b.cols == b0.cols,
                b.tiles@.len() == b0.tiles@.len(),
                forall|k: int|
                    0 <= k < b0.tiles@.len() ==> ((#[trigger] b.tiles@[k]) is Some
                        <==> b0.tiles@[k] is Some),
                forall|k: int| #![trigger b.tiles@[k]]
                    b0.live(k) ==> {
                        let t0 = b0.tile_of(k);
                        let t1 = b.tile_of(k);
                        &&& t1.kind == t0.kind
                        &&& t1.matched == t0.matched
                        &&& t1.selected == t0.selected
                        &&& t1.col == t0.col
                        &&& (t0.col < c ==> t1.row == dropped_row(b0, t0.col as int, t0.row as int))
                        &&& (t0.col > c ==> t1.row == t0.row)
                        &&& (t0.col == c && t0.row < y ==> t1.row == dropped_row(
                            b0,
                            c as int,
                            t0.row as int,
                        ))
                        &&& (t0.col == c && t0.row >= y ==> t1.row == t0.row)
                    },
            decreases rows - y,
        {
            let occ = b.cells[y][c];
            match occ {
                None => {
                    proof {
                        // no live tile started this pass at (c, y): it would
                        // still be there and the cell would be occupied
                        assert forall|k: int| #![trigger b.tiles@[k]]
                            b0.live(k) && b0.tile_of(k).col == c && b0.tile_of(k).row
                                == y implies false by {
                            assert(b.tile_placed(k));
                            assert(b.cell(c as int, y as int) is None);
                        }
                    }
                },
                Some(id) => {
                    proof {
                        assert(b.cell_names_tile(c as int, y as int));
                    }
                    let below = b.cells[y - 1][c];
                    proof {
                        lemma_empty_below_step(b0, c as int, y as int);
                        // the occupant of (c, y) started this pass there
                        assert(b0.live(id as int));
                        assert(b0.tile_of(id as int).col == c);
                        assert(b0.tile_of(id as int).row == y);
                    }
                    match below {
                        Some(k2) => {
                            proof {
                                // a tile sits below now, so it started at
                                // (c, y - 1) with no gap under it: no gap
                                // under (c, y) either, and the tile above
                                // stays this pass
                                assert(b.cell_names_tile(c as int, y as int - 1));
                                let kk = k2 as int;
                                assert(b0.live(kk));
                                assert(b0.tile_of(kk).col == c);
                                assert(b0.tile_of(kk).row == y - 1);
                                assert(!empty_below(b0, c as int, y as int - 1));
                                assert(b0.tile_placed(kk));
                                assert(b0.cell(c as int, y as int - 1) is Some);
                                assert(!empty_below(b0, c as int, y as int));
                            }
                        },
                        None => {
                            proof {
                                // the cell below is empty now, so the column
                                // had a gap below (c, y) when the pass began
                                if !empty_below(b0, c as int, y as int) {
                                    assert(b0.cell(c as int, y as int - 1) is Some);
                                    assert(b0.cell_names_tile(c as int, y as int - 1));
                                    let kk = b0.cell(c as int, y as int - 1)->0 as int;
                                    assert(!empty_below(b0, c as int, y as int - 1));
                                    assert(b.tile_of(kk).row == y - 1 && b.tile_of(kk).col == c);
                                    assert(b.tile_placed(kk));
                                    assert(b.cell(c as int, y as int - 1) is Some);
                                    assert(false);
                                }
                            }
                            let moved = b.move_tile(id, c, y - 1);
                            proof {
                                assert(moved == Ok::<(), GridError>(()));
                            }
                        },
                    }
                },
            }
            y = y + 1;
        }
        proof {
            // every tile of column c has its row below `rows`, so the column
            // is fully settled
            assert forall|k: int| #![trigger b.tiles@[k]]
                b0.live(k) && b0.tile_of(k).col == c implies b.tile_of(k).row == dropped_row(
                b0,
                c as int,
                b0.tile_of(k).row as int,
            ) by {
                assert(b0.tile_placed(k));
                assert(b0.tile_of(k).row < rows);
            }
        }
        c = c + 1;
    }
}

} // verus!
