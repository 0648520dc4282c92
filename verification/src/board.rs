//! The board: a rectangular grid of optional tile identities plus the table
//! of tiles themselves, kept mutually consistent by every operation.

use vstd::prelude::*;
use vstd::pervasive::VecAdditionalExecFns;

use crate::tile::{GridError, Tile, TileType};

verus! {

/// Upper bound on each board dimension, so that window offsets such as
/// `col + 2` and cell counts never overflow machine integers.
pub const MAX_DIM: usize = 4096;

/// A `rows x cols` grid of optional tile identities together with the tiles.
///
/// A tile's identity is its index in `tiles`; destroyed tiles leave `None`
/// behind so that identities stay stable across the board's whole life.
/// Row 0 is the bottom of the board: tiles fall toward it, and new tiles
/// appear in row `rows - 1`.
pub struct Board {
    pub rows: usize,
    pub cols: usize,
    /// `cells[r][c]` is the identity of the tile in column `c`, row `r`.
    pub cells: Vec<Vec<Option<usize>>>,
    /// Tile table indexed by identity; `None` marks a destroyed tile.
    pub tiles: Vec<Option<Tile>>,
}

impl Board {
    /// The coordinate pair names a cell of the grid.
    pub open spec fn in_bounds(self, c: int, r: int) -> bool {
        0 <= c < self.cols && 0 <= r < self.rows
    }

    /// Contents of the cell in column `c`, row `r`.
    pub open spec fn cell(self, c: int, r: int) -> Option<usize>
        recommends
            self.in_bounds(c, r),
    {
        self.cells@[r]@[c]
    }

    /// The tile with identity `i` is live (created and not yet destroyed).
    pub open spec fn live(self, i: int) -> bool {
        0 <= i < self.tiles@.len() && self.tiles@[i] is Some
    }

    /// The tile record with identity `i`.
    pub open spec fn tile_of(self, i: int) -> Tile
        recommends
            self.live(i),
    {
        self.tiles@[i]->0
    }

    /// The kind of the tile occupying cell `(c, r)`, if any.
    pub open spec fn kind_at(self, c: int, r: int) -> Option<TileType>
        recommends
            self.in_bounds(c, r),
    {
        match self.cell(c, r) {
            Some(i) => Some(self.tile_of(i as int).kind),
            None => None,
        }
    }

    /// The grid has `rows` rows of `cols` cells each, within `MAX_DIM`.
    pub open spec fn grid_shaped(self) -> bool {
        &&& 1 <= self.rows <= MAX_DIM
        &&& 1 <= self.cols <= MAX_DIM
        &&& self.cells@.len() == self.rows
        &&& forall|r: int|
            0 <= r < self.rows ==> (#[trigger] self.cells@[r])@.len() == self.cols
    }

    /// An occupied cell names a live tile whose recorded position is exactly
    /// that cell.
    pub open spec fn cell_names_tile(self, c: int, r: int) -> bool {
        let i = self.cell(c, r)->0 as int;
        &&& self.live(i)
        &&& self.tile_of(i).col == c
        &&& self.tile_of(i).row == r
    }

    /// A live tile's recorded position is a cell of the grid that names it.
    pub open spec fn tile_placed(self, i: int) -> bool {
        let t = self.tile_of(i);
        &&& self.in_bounds(t.col as int, t.row as int)
        &&& self.cell(t.col as int, t.row as int) is Some
        &&& self.cell(t.col as int, t.row as int)->0 == i
    }

    /// Well-formedness: the grid is rectangular and the two representations
    /// of position (the cell map and each tile's own record) agree on every
    /// cell and on every live tile.
    pub open spec fn wf(self) -> bool {
        &&& self.grid_shaped()
        &&& forall|c: int, r: int|
            self.in_bounds(c, r) && (#[trigger] self.cell(c, r)) is Some
                ==> self.cell_names_tile(c, r)
        &&& forall|i: int| #![trigger self.tiles@[i]] self.live(i) ==> self.tile_placed(i)
    }

    /// On a well-formed board — as every mutation leaves it, `move_tile`
    /// included — the cell a live tile records as its position names exactly
    /// that tile, and an occupied cell's tile records exactly that cell.
    pub proof fn lemma_wf_cell_matches_tile(self, i: int)
        requires
            self.wf(),
            self.live(i),
        ensures
            self.in_bounds(self.tile_of(i).col as int, self.tile_of(i).row as int),
            self.cell(self.tile_of(i).col as int, self.tile_of(i).row as int) == Some(i as usize),
    {
        assert(self.cell(self.tile_of(i).col as int, self.tile_of(i).row as int)->0 == i);
    }

    /// On a well-formed board no two live tiles ever occupy the same cell:
    /// the cell map holds at most one identity per cell.
    pub proof fn lemma_tiles_never_collide(self, i: int, j: int)
        requires
            self.wf(),
            self.live(i),
            self.live(j),
            i != j,
        ensures
            !(self.tile_of(i).col == self.tile_of(j).col && self.tile_of(i).row == self.tile_of(
                j,
            ).row),
    {
        assert(self.cell(self.tile_of(i).col as int, self.tile_of(i).row as int)->0 == i);
        assert(self.cell(self.tile_of(j).col as int, self.tile_of(j).row as int)->0 == j);
    }

    /// Creates an empty board.
    pub fn new(rows: usize, cols: usize) -> (b: Board)
        requires
            1 <= rows <= MAX_DIM,
            1 <= cols <= MAX_DIM,
        ensures
            b.wf(),
            b.rows == rows,
            b.cols == cols,
            forall|c: int, r: int| b.in_bounds(c, r) ==> #[trigger] b.cell(c, r) is None,
            b.tiles@.len() == 0,
    {
        let mut cells: Vec<Vec<Option<usize>>> = Vec::new();
        for r in 0..rows
            invariant
                cells@.len() == r,
                forall|k: int|
                    0 <= k < r ==> (#[trigger] cells@[k])@.len() == cols,
                forall|k: int, c: int|
                    0 <= k < r && 0 <= c < cols ==> (#[trigger] cells@[k]@[c]) is None,
        {
            let mut row: Vec<Option<usize>> = Vec::new();
            for c in 0..cols
                invariant
                    row@.len() == c,
                    forall|k: int| 0 <= k < c ==> (#[trigger] row@[k]) is None,
            {
                row.push(None);
            }
            cells.push(row);
        }
        Board { rows, cols, cells, tiles: Vec::new() }
    }

    /// Overwrites one cell of the grid, leaving everything else untouched.
    fn set_cell(&mut self, col: usize, row: usize, v: Option<usize>)
        requires
            old(self).grid_shaped(),
            col < old(self).cols,
            row < old(self).rows,
        ensures
            final(self).rows == old(self).rows,
            final(self).cols == old(self).cols,
            final(self).tiles == old(self).tiles,
            final(self).cells@.len() == old(self).cells@.len(),
            forall|r: int|
                0 <= r < old(self).cells@.len() && r != row
                    ==> #[trigger] final(self).cells@[r] == old(self).cells@[r],
            final(self).cells@[row as int]@ == old(self).cells@[row as int]@.update(
                col as int,
                v,
            ),
    {
        let row_vec = &mut self.cells[row];
        row_vec.set(col, v);
    }

    /// Creates a tile of the given kind in an empty cell and returns its
    /// identity; rejects coordinates outside the grid and non-empty cells.
    pub fn place(&mut self, kind: TileType, col: usize, row: usize) -> (res: Result<
        usize,
        GridError,
    >)
        requires
            old(self).wf(),
        ensures
            final(self).wf(),
            final(self).rows == old(self).rows,
            final(self).cols == old(self).cols,
            !old(self).in_bounds(col as int, row as int) ==> res == Err::<usize, GridError>(
                GridError::OutOfBounds,
            ) && *final(self) == *old(self),
            old(self).in_bounds(col as int, row as int) && old(self).cell(col as int, row as int)
                is Some ==> res == Err::<usize, GridError>(GridError::OccupiedCell) && *final(self)
                == *old(self),
            old(self).in_bounds(col as int, row as int) && old(self).cell(col as int, row as int)
                is None ==> {
                &&& res == Ok::<usize, GridError>(old(self).tiles@.len() as usize)
                &&& final(self).tiles@ == old(self).tiles@.push(
                    Some(
                        Tile {
                            col,
                            row,
                            kind,
                            matched: false,
                            selected: false,
                        },
                    ),
                )
                &&& final(self).cell(col as int, row as int) == Some(
                    old(self).tiles@.len() as usize,
                )
                &&& forall|c: int, r: int|
                    old(self).in_bounds(c, r) && !(c == col && r == row)
                        ==> #[trigger] final(self).cell(c, r) == old(self).cell(c, r)
            },
    {
        if !(col < self.cols && row < self.rows) {
            return Err(GridError::OutOfBounds);
        }
        if self.cells[row][col].is_some() {
            return Err(GridError::OccupiedCell);
        }
        let ghost prev = *self;
        let id = self.tiles.len();
        self.tiles.push(Some(Tile { col, row, kind, matched: false, selected: false }));
        self.set_cell(col, row, Some(id));
        proof {
            assert forall|c: int, r: int|
                self.in_bounds(c, r) && !(c == col && r == row) implies #[trigger] self.cell(c, r)
                == prev.cell(c, r) by {
                if r != row {
                    assert(self.cells@[r] == prev.cells@[r]);
                }
            }
            assert forall|c: int, r: int|
                self.in_bounds(c, r) && (#[trigger] self.cell(c, r)) is Some implies self
                .cell_names_tile(c, r) by {
                if c == col && r == row {
                    assert(self.tiles@[id as int] is Some);
                } else {
                    assert(prev.cell(c, r) is Some);
                    let i = prev.cell(c, r)->0 as int;
                    assert(prev.cell_names_tile(c, r));
                    assert(self.tiles@[i] == prev.tiles@[i]);
                }
            }
            assert forall|i: int| #![trigger self.tiles@[i]] self.live(i) implies self.tile_placed(
                i,
            ) by {
                if i < id {
                    assert(prev.tiles@[i] == self.tiles@[i]);
                    assert(prev.tile_placed(i));
                    let t = prev.tile_of(i);
                    if t.col == col && t.row == row {
                        assert(prev.cell(col as int, row as int) is Some);
                    } else {
                        assert(self.cell(t.col as int, t.row as int) == prev.cell(
                            t.col as int,
                            t.row as int,
                        ));
                    }
                } else {
                    assert(i == id);
                    assert(self.cell(col as int, row as int) == Some(id));
                }
            }
        }
        Ok(id)
    }

    /// Empties the cell, destroying whatever tile occupied it; a no-op on an
    /// already empty cell, an error outside the grid.
    pub fn clear(&mut self, col: usize, row: usize) -> (res: Result<(), GridError>)
        requires
            old(self).wf(),
        ensures
            final(self).wf(),
            final(self).rows == old(self).rows,
            final(self).cols == old(self).cols,
            !old(self).in_bounds(col as int, row as int) ==> res == Err::<(), GridError>(
                GridError::OutOfBounds,
            ) && *final(self) == *old(self),
            old(self).in_bounds(col as int, row as int) ==> res == Ok::<(), GridError>(()),
            old(self).in_bounds(col as int, row as int) && old(self).cell(col as int, row as int)
                is None ==> *final(self) == *old(self),
            old(self).in_bounds(col as int, row as int) && old(self).cell(col as int, row as int)
                is Some ==> {
                let i = old(self).cell(col as int, row as int)->0 as int;
                &&& final(self).tiles@ == old(self).tiles@.update(i, None)
                &&& final(self).cell(col as int, row as int) is None
                &&& forall|c: int, r: int|
                    old(self).in_bounds(c, r) && !(c == col && r == row)
                        ==> #[trigger] final(self).cell(c, r) == old(self).cell(c, r)
            },
    {
        if !(col < self.cols && row < self.rows) {
            return Err(GridError::OutOfBounds);
        }
        let occ = self.cells[row][col];
        match occ {
            None => Ok(()),
            Some(i) => {
                let ghost prev = *self;
                proof {
                    assert(prev.cell(col as int, row as int) is Some);
                    assert(prev.cell_names_tile(col as int, row as int));
                }
                self.tiles.set(i, None);
                self.set_cell(col, row, None);
                proof {
                    assert forall|c: int, r: int|
                        self.in_bounds(c, r) && !(c == col && r == row) implies #[trigger] self
                        .cell(c, r) == prev.cell(c, r) by {
                        if r != row {
                            assert(self.cells@[r] == prev.cells@[r]);
                        }
                    }
                    assert forall|c: int, r: int|
                        self.in_bounds(c, r) && (#[trigger] self.cell(c, r)) is Some implies self
                        .cell_names_tile(c, r) by {
                        assert(!(c == col && r == row));
                        assert(prev.cell(c, r) is Some);
                        let j = prev.cell(c, r)->0 as int;
                        assert(prev.cell_names_tile(c, r));
                        // the cleared tile sat in (col, row), so any other
                        // occupied cell names a different, untouched tile
                        assert(j != i);
                        assert(self.tiles@[j] == prev.tiles@[j]);
                    }
                    assert forall|k: int| #![trigger self.tiles@[k]] self.live(k) implies self
                        .tile_placed(k) by {
                        assert(k != i);
                        assert(prev.tiles@[k] == self.tiles@[k]);
                        assert(prev.tile_placed(k));
                        let t = prev.tile_of(k);
                        if t.col == col && t.row == row {
                            assert(prev.cell(col as int, row as int)->0 == k);
                            assert(k == i);
                        } else {
                            assert(self.cell(t.col as int, t.row as int) == prev.cell(
                                t.col as int,
                                t.row as int,
                            ));
                        }
                    }
                }
                Ok(())
            },
        }
    }

    /// Replaces the record of a live tile with one recording the same cell,
    /// so only its kind or tags change; the cell map is untouched.
    pub(crate) fn replace_tile_same_pos(&mut self, i: usize, t: Tile)
        requires
            old(self).wf(),
            old(self).live(i as int),
            t.col == old(self).tile_of(i as int).col,
            t.row == old(self).tile_of(i as int).row,
        ensures
            final(self).wf(),
            final(self).rows == old(self).rows,
            final(self).cols == old(self).cols,
            final(self).cells == old(self).cells,
            final(self).tiles@ == old(self).tiles@.update(i as int, Some(t)),
    {
        let ghost prev = *self;
        self.tiles.set(i, Some(t));
        proof {
            assert forall|c: int, r: int|
                self.in_bounds(c, r) && (#[trigger] self.cell(c, r)) is Some implies self
                .cell_names_tile(c, r) by {
                assert(prev.cell(c, r) == self.cell(c, r));
                assert(prev.cell_names_tile(c, r));
                let j = self.cell(c, r)->0 as int;
                if j != i {
                    assert(self.tiles@[j] == prev.tiles@[j]);
                }
            }
            assert forall|k: int| #![trigger self.tiles@[k]] self.live(k) implies self.tile_placed(
                k,
            ) by {
                if k != i {
                    assert(self.tiles@[k] == prev.tiles@[k]);
                }
                assert(prev.tile_placed(k));
            }
        }
    }

    /// Relocates a live tile to an empty cell, updating the cell map and the
    /// tile's own position together; rejects coordinates outside the grid and
    /// non-empty target cells (a tile's own cell counts as non-empty).
    pub fn move_tile(&mut self, i: usize, col: usize, row: usize) -> (res: Result<(), GridError>)
        requires
            old(self).wf(),
            old(self).live(i as int),
        ensures
            final(self).wf(),
            final(self).rows == old(self).rows,
            final(self).cols == old(self).cols,
            !old(self).in_bounds(col as int, row as int) ==> res == Err::<(), GridError>(
                GridError::OutOfBounds,
            ) && *final(self) == *old(self),
            old(self).in_bounds(col as int, row as int) && old(self).cell(col as int, row as int)
                is Some ==> res == Err::<(), GridError>(GridError::OccupiedCell) && *final(self)
                == *old(self),
            old(self).in_bounds(col as int, row as int) && old(self).cell(col as int, row as int)
                is None ==> {
                let t = old(self).tile_of(i as int);
                &&& res == Ok::<(), GridError>(())
                &&& final(self).tiles@ == old(self).tiles@.update(
                    i as int,
                    Some(
                        Tile {
                            col,
                            row,
                            kind: t.kind,
                            matched: t.matched,
                            selected: t.selected,
                        },
                    ),
                )
                &&& final(self).cell(col as int, row as int) == Some(i)
                &&& final(self).cell(t.col as int, t.row as int) is None
                &&& forall|c: int, r: int|
                    old(self).in_bounds(c, r) && !(c == col && r == row) && !(c == t.col && r
                        == t.row) ==> #[trigger] final(self).cell(c, r) == old(self).cell(c, r)
            },
    {
        if !(col < self.cols && row < self.rows) {
            return Err(GridError::OutOfBounds);
        }
        if self.cells[row][col].is_some() {
            return Err(GridError::OccupiedCell);
        }
        let ghost prev = *self;
        let t = self.tiles[i].unwrap();
        proof {
            // the target cell is empty, so it is not the tile's own cell
            assert(!(t.col == col && t.row == row));
        }
        self.set_cell(t.col, t.row, None);
        let ghost mid = *self;
        self.set_cell(col, row, Some(i));
        self.tiles.set(i, Some(Tile { col, row, kind: t.kind, matched: t.matched, selected: t.selected }));
        proof {
            assert forall|c: int, r: int|
                prev.in_bounds(c, r) && !(c == col && r == row) && !(c == t.col && r
                    == t.row) implies #[trigger] self.cell(c, r) == prev.cell(c, r) by {
                if r != row && r != t.row {
                    assert(mid.cells@[r] == prev.cells@[r]);
                    assert(self.cells@[r] == mid.cells@[r]);
                }
            }
            assert(self.cell(col as int, row as int) == Some(i));
            assert(self.cell(t.col as int, t.row as int) is None);
            assert forall|c: int, r: int|
                self.in_bounds(c, r) && (#[trigger] self.cell(c, r)) is Some implies self
                .cell_names_tile(c, r) by {
                if c == col && r == row {
                    assert(self.tiles@[i as int] is Some);
                } else {
                    assert(!(c == t.col && r == t.row));
                    assert(self.cell(c, r) == prev.cell(c, r));
                    assert(prev.cell_names_tile(c, r));
                    let j = prev.cell(c, r)->0 as int;
                    // tile i sat in (t.col, t.row), a different cell
                    assert(j != i);
                    assert(self.tiles@[j] == prev.tiles@[j]);
                }
            }
            assert forall|k: int| #![trigger self.tiles@[k]] self.live(k) implies self.tile_placed(
                k,
            ) by {
                if k == i {
                    assert(self.cell(col as int, row as int) == Some(i));
                } else {
                    assert(self.tiles@[k] == prev.tiles@[k]);
                    assert(prev.tile_placed(k));
                    let p = prev.tile_of(k);
                    assert(prev.cell(p.col as int, p.row as int)->0 == k);
                    if p.col == t.col && p.row == t.row {
                        assert(prev.cell(t.col as int, t.row as int)->0 == i);
                        assert(false);
                    }
                    if p.col == col && p.row == row {
                        assert(prev.cell(col as int, row as int) is None);
                        assert(false);
                    }
                    assert(self.cell(p.col as int, p.row as int) == prev.cell(
                        p.col as int,
                        p.row as int,
                    ));
                }
            }
        }
        Ok(())
    }

    /// Exchanges the positions of two live tiles atomically: both the cell
    /// map and the two tile records update together, so the move never trips
    /// the occupied-cell check against its partner.
    pub fn swap_tiles(&mut self, i: usize, j: usize)
        requires
            old(self).wf(),
            old(self).live(i as int),
            old(self).live(j as int),
            i != j,
        ensures
            final(self).wf(),
            final(self).rows == old(self).rows,
            final(self).cols == old(self).cols,
            ({
                let ti = old(self).tile_of(i as int);
                let tj = old(self).tile_of(j as int);
                &&& final(self).tiles@ == old(self).tiles@.update(
                    i as int,
                    Some(
                        Tile {
                            col: tj.col,
                            row: tj.row,
                            kind: ti.kind,
                            matched: ti.matched,
                            selected: ti.selected,
                        },
                    ),
                ).update(
                    j as int,
                    Some(
                        Tile {
                            col: ti.col,
                            row: ti.row,
                            kind: tj.kind,
                            matched: tj.matched,
                            selected: tj.selected,
                        },
                    ),
                )
                &&& final(self).cell(ti.col as int, ti.row as int) == Some(j)
                &&& final(self).cell(tj.col as int, tj.row as int) == Some(i)
                &&& forall|c: int, r: int|
                    old(self).in_bounds(c, r) && !(c == ti.col && r == ti.row) && !(c == tj.col && r
                        == tj.row) ==> #[trigger] final(self).cell(c, r) == old(self).cell(c, r)
            }),
    {
        let ghost prev = *self;
        let ti = self.tiles[i].unwrap();
        let tj = self.tiles[j].unwrap();
        proof {
            // two distinct live tiles occupy distinct cells
            assert(prev.cell(ti.col as int, ti.row as int)->0 == i);
            assert(prev.cell(tj.col as int, tj.row as int)->0 == j);
            assert(!(ti.col == tj.col && ti.row == tj.row));
        }
        self.set_cell(ti.col, ti.row, Some(j));
        let ghost mid = *self;
        self.set_cell(tj.col, tj.row, Some(i));
        self.tiles.set(
            i,
            Some(Tile { col: tj.col, row: tj.row, kind: ti.kind, matched: ti.matched, selected: ti.selected }),
        );
        self.tiles.set(
            j,
            Some(Tile { col: ti.col, row: ti.row, kind: tj.kind, matched: tj.matched, selected: tj.selected }),
        );
        proof {
            assert forall|c: int, r: int|
                prev.in_bounds(c, r) && !(c == ti.col && r == ti.row) && !(c == tj.col && r
                    == tj.row) implies #[trigger] self.cell(c, r) == prev.cell(c, r) by {
                if r != ti.row && r != tj.row {
                    assert(mid.cells@[r] == prev.cells@[r]);
                    assert(self.cells@[r] == mid.cells@[r]);
                }
            }
            assert(self.cell(ti.col as int, ti.row as int) == Some(j));
            assert(self.cell(tj.col as int, tj.row as int) == Some(i));
            assert forall|c: int, r: int|
                self.in_bounds(c, r) && (#[trigger] self.cell(c, r)) is Some implies self
                .cell_names_tile(c, r) by {
                if c == ti.col && r == ti.row {
                    assert(self.tiles@[j as int] is Some);
                } else if c == tj.col && r == tj.row {
                    assert(self.tiles@[i as int] is Some);
                } else {
                    assert(self.cell(c, r) == prev.cell(c, r));
                    assert(prev.cell_names_tile(c, r));
                    let k = prev.cell(c, r)->0 as int;
                    assert(k != i && k != j);
                    assert(self.tiles@[k] == prev.tiles@[k]);
                }
            }
            assert forall|k: int| #![trigger self.tiles@[k]] self.live(k) implies self.tile_placed(
                k,
            ) by {
                if k == i {
                    assert(self.cell(tj.col as int, tj.row as int) == Some(i));
                } else if k == j {
                    assert(self.cell(ti.col as int, ti.row as int) == Some(j));
                } else {
                    assert(self.tiles@[k] == prev.tiles@[k]);
                    assert(prev.tile_placed(k));
                    let p = prev.tile_of(k);
                    assert(prev.cell(p.col as int, p.row as int)->0 == k);
                    if p.col == ti.col && p.row == ti.row {
                        assert(false);
                    }
                    if p.col == tj.col && p.row == tj.row {
                        assert(false);
                    }
                    assert(self.cell(p.col as int, p.row as int) == prev.cell(
                        p.col as int,
                        p.row as int,
                    ));
                }
            }
        }
    }

    /// Flips the `selected` tag of the tile in the cell, if one exists there;
    /// an empty cell is left alone, a coordinate outside the grid is an error.
    pub fn toggle_selected(&mut self, col: usize, row: usize) -> (res: Result<(), GridError>)
        requires
            old(self).wf(),
        ensures
            final(self).wf(),
            final(self).rows == old(self).rows,
            final(self).cols == old(self).cols,
            !old(self).in_bounds(col as int, row as int) ==> res == Err::<(), GridError>(
                GridError::OutOfBounds,
            ) && *final(self) == *old(self),
            old(self).in_bounds(col as int, row as int) ==> res == Ok::<(), GridError>(()),
            old(self).in_bounds(col as int, row as int) && old(self).cell(col as int, row as int)
                is None ==> *final(self) == *old(self),
            old(self).in_bounds(col as int, row as int) && old(self).cell(col as int, row as int)
                is Some ==> {
                let i = old(self).cell(col as int, row as int)->0 as int;
                let t = old(self).tile_of(i);
                &&& final(self).cells == old(self).cells
                &&& final(self).tiles@ == old(self).tiles@.update(
                    i,
                    Some(
                        Tile {
                            col: t.col,
                            row: t.row,
                            kind: t.kind,
                            matched: t.matched,
                            selected: !t.selected,
                        },
                    ),
                )
            },
    {
        if !(col < self.cols && row < self.rows) {
            return Err(GridError::OutOfBounds);
        }
        let occ = self.cells[row][col];
        match occ {
            None => Ok(()),
            Some(i) => {
                proof {
                    assert(old(self).cell_names_tile(col as int, row as int));
                }
                let t = self.tiles[i].unwrap();
                self.replace_tile_same_pos(
                    i,
                    Tile {
                        col: t.col,
                        row: t.row,
                        kind: t.kind,
                        matched: t.matched,
                        selected: !t.selected,
                    },
                );
                Ok(())
            },
        }
    }

    /// Number of identities ever created on this board, live or not.
    pub fn tile_count(&self) -> (n: usize)
        ensures
            n == self.tiles@.len(),
    {
        self.tiles.len()
    }

    /// The tile record with identity `i`: `None` for a destroyed tile or an
    /// identity this board never issued.
    pub fn get_tile(&self, i: usize) -> (t: Option<Tile>)
        ensures
            t == if i < self.tiles@.len() {
                self.tiles@[i as int]
            } else {
                None::<Tile>
            },
    {
        if i < self.tiles.len() {
            self.tiles[i]
        } else {
            None
        }
    }

    /// Returns the occupant of the cell, or `OutOfBounds` for a coordinate
    /// outside the grid.
    pub fn get(&self, col: usize, row: usize) -> (res: Result<Option<usize>, GridError>)
        requires
            self.grid_shaped(),
        ensures
            self.in_bounds(col as int, row as int) ==> res == Ok::<Option<usize>, GridError>(
                self.cell(col as int, row as int),
            ),
            !self.in_bounds(col as int, row as int) ==> res == Err::<Option<usize>, GridError>(
                GridError::OutOfBounds,
            ),
    {
        if col < self.cols && row < self.rows {
            Ok(self.cells[row][col])
        } else {
            Err(GridError::OutOfBounds)
        }
    }
}

} // verus!
