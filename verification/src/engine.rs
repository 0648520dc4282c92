//! The resolution state machine: owns the board, the lifecycle state and the
//! spawn timer, and drives the fixed five-step tick — swap, scan, handle
//! matches (reroll while `Initializing`, remove while `Playing`), gravity,
//! spawn.

use vstd::prelude::*;

use crate::board::{Board, MAX_DIM};
use crate::gravity::{drop_down, gravity_applied};
use crate::matcher::{
    check_for_matches, has_match, in_match, lemma_has_match_iff_matched_tile, matches_marked,
};
use crate::rng::draw_kind_index;
use crate::spawn::{spawn_applied, spawn_new, SpawnTimer, DEFAULT_SPAWN_PERIOD};
use crate::swap::{swap_applied, swap_two_selected};
use crate::tile::{kind_of_index, GridError, GridState, Tile};

verus! {

/// The reroll step's whole effect: every matched tile keeps its place and its
/// selection, loses its `matched` tag and gets some fresh kind; every other
/// tile, and the whole grid, is untouched.
pub open spec fn rerolled(pre: Board, post: Board) -> bool {
    &&& post.rows == pre.rows
    &&& post.cols == pre.cols
    &&& post.cells == pre.cells
    &&& post.tiles@.len() == pre.tiles@.len()
    &&& forall|i: int|
        0 <= i < pre.tiles@.len() ==> ((#[trigger] post.tiles@[i]) is Some <==> pre.tiles@[i]
            is Some)
    &&& forall|i: int| #![trigger post.tiles@[i]]
        pre.live(i) ==> {
            let t0 = pre.tile_of(i);
            let t1 = post.tile_of(i);
            &&& !t0.matched ==> t1 == t0
            &&& t0.matched ==> {
                &&& t1.col == t0.col
                &&& t1.row == t0.row
                &&& t1.selected == t0.selected
                &&& !t1.matched
            }
        }
}

/// The removal step's whole effect: every matched tile is destroyed — its
/// identity dies and its cell empties — and nothing else changes.
pub open spec fn matched_removed(pre: Board, post: Board) -> bool {
    &&& post.rows == pre.rows
    &&& post.cols == pre.cols
    &&& post.tiles@.len() == pre.tiles@.len()
    &&& forall|i: int|
        0 <= i < pre.tiles@.len() ==> #[trigger] post.tiles@[i] == (if pre.live(i)
            && pre.tile_of(i).matched {
            None
        } else {
            pre.tiles@[i]
        })
}

/// Some live tile carries the `matched` tag.
pub open spec fn some_tile_matched(b: Board) -> bool {
    exists|i: int| #[trigger] b.live(i) && b.tile_of(i).matched
}

/// Scans the tile table for a `matched` tag.
pub fn any_matched(b: &Board) -> (res: bool)
    ensures
        res == some_tile_matched(*b),
{
    let n = b.tiles.len();
    let mut i: usize = 0;
    while i < n
        invariant
            i <= n,
            n == b.tiles@.len(),
            forall|k: int| 0 <= k < i ==> !(#[trigger] b.live(k) && b.tile_of(k).matched),
        decreases n - i,
    {
        match b.tiles[i] {
            Some(t) => {
                if t.matched {
                    proof {
                        assert(b.live(i as int) && b.tile_of(i as int).matched);
                    }
                    return true;
                }
            },
            None => (),
        }
        i = i + 1;
    }
    false
}

/// The reroll: assigns every matched tile a freshly drawn random kind in
/// place and clears its tag; the scan repeats next tick until clean.
#[verifier::loop_isolation(false)]
pub fn reroll_matched(b: &mut Board)
    requires
        old(b).wf(),
    ensures
        final(b).wf(),
        rerolled(*old(b), *final(b)),
{
    let ghost b0 = *b;
    let n = b.tiles.len();
    let mut i: usize = 0;
    while i < n
        invariant
            i <= n,
            b.wf(),
            b.rows == b0.rows,
            b.cols == b0.cols,
            b.cells == b0.cells,
            b.tiles@.len() == b0.tiles@.len(),
            n == b0.tiles@.len(),
            forall|k: int| i <= k < n ==> #[trigger] b.tiles@[k] == b0.tiles@[k],
            forall|k: int|
                0 <= k < n ==> ((#[trigger] b.tiles@[k]) is Some <==> b0.tiles@[k] is Some),
            forall|k: int| #![trigger b.tiles@[k]]
                0 <= k < i && b0.live(k) ==> {
                    let t0 = b0.tile_of(k);
                    let t1 = b.tile_of(k);
                    &&& !t0.matched ==> t1 == t0
                    &&& t0.matched ==> {
                        &&& t1.col == t0.col
                        &&& t1.row == t0.row
                        &&& t1.selected == t0.selected
                        &&& !t1.matched
                    }
                },
        decreases n - i,
    {
        let entry = b.tiles[i];
        match entry {
            None => (),
            Some(t) => {
                if t.matched {
                    let idx = draw_kind_index();
                    let kind = kind_of_index(idx);
                    b.replace_tile_same_pos(
                        i,
                        Tile { col: t.col, row: t.row, kind, matched: false, selected: t.selected },
                    );
                }
            },
        }
        i = i + 1;
    }
}

/// The removal: destroys every matched tile, emptying its cell; the tag is
/// moot once the tile is gone.
#[verifier::loop_isolation(false)]
pub fn remove_matched(b: &mut Board)
    requires
        old(b).wf(),
    ensures
        final(b).wf(),
        matched_removed(*old(b), *final(b)),
{
    let ghost b0 = *b;
    let n = b.tiles.len();
    let mut i: usize = 0;
    while i < n
        invariant
            i <= n,
            b.wf(),
            b.rows == b0.rows,
            b.cols == b0.cols,
            b.tiles@.len() == b0.tiles@.len(),
            n == b0.tiles@.len(),
            forall|k: int| i <= k < n ==> #[trigger] b.tiles@[k] == b0.tiles@[k],
            forall|k: int|
                0 <= k < i ==> #[trigger] b.tiles@[k] == (if b0.live(k) && b0.tile_of(k).matched {
                    None
                } else {
                    b0.tiles@[k]
                }),
        decreases n - i,
    {
        let entry = b.tiles[i];
        match entry {
            None => (),
            Some(t) => {
                if t.matched {
                    proof {
                        assert(b.tile_placed(i as int));
                    }
                    let res = b.clear(t.col, t.row);
                    proof {
                        assert(res is Ok);
                        assert(b.tiles@[i as int] is None);
                    }
                }
            },
        }
        i = i + 1;
    }
}

/// The grid resolution engine: the board, the two-phase lifecycle state and
/// the spawn timer, advanced one tick at a time by an external driver.
pub struct Engine {
    pub board: Board,
    pub state: GridState,
    pub timer: SpawnTimer,
}

impl Engine {
    pub open spec fn wf(self) -> bool {
        self.board.wf() && self.timer.wf()
    }

    /// Sets up a full board of randomly-kinded tiles, `Initializing`, with
    /// the default spawn period.
    pub fn new(rows: usize, cols: usize) -> (e: Engine)
        requires
            1 <= rows <= MAX_DIM,
            1 <= cols <= MAX_DIM,
        ensures
            e.wf(),
            e.state == GridState::Initializing,
            e.board.rows == rows,
            e.board.cols == cols,
            e.timer.period == DEFAULT_SPAWN_PERIOD,
            e.timer.elapsed == 0,
            forall|c: int, r: int|
                e.board.in_bounds(c, r) ==> (#[trigger] e.board.cell(c, r)) is Some,
            forall|i: int| #![trigger e.board.tiles@[i]]
                e.board.live(i) ==> !e.board.tile_of(i).matched && !e.board.tile_of(i).selected,
    {
        Engine::with_spawn_period(rows, cols, DEFAULT_SPAWN_PERIOD)
    }

    /// Sets up a full board of randomly-kinded tiles, `Initializing`, with a
    /// spawn period of the driver's choice.
    pub fn with_spawn_period(rows: usize, cols: usize, period: u64) -> (e: Engine)
        requires
            1 <= rows <= MAX_DIM,
            1 <= cols <= MAX_DIM,
            period >= 1,
        ensures
            e.wf(),
            e.state == GridState::Initializing,
            e.board.rows == rows,
            e.board.cols == cols,
            e.timer.period == period,
            e.timer.elapsed == 0,
            forall|c: int, r: int|
                e.board.in_bounds(c, r) ==> (#[trigger] e.board.cell(c, r)) is Some,
            forall|i: int| #![trigger e.board.tiles@[i]]
                e.board.live(i) ==> !e.board.tile_of(i).matched && !e.board.tile_of(i).selected,
    {
        let mut board = Board::new(rows, cols);
        let mut r: usize = 0;
        #[verifier::loop_isolation(false)]
        while r < rows
            invariant
                r <= rows,
                board.wf(),
                board.rows == rows,
                board.cols == cols,
                forall|cc: int, rr: int|
                    board.in_bounds(cc, rr) ==> ((#[trigger] board.cell(cc, rr)) is Some <==> rr
                        < r),
                forall|i: int| #![trigger board.tiles@[i]]
                    board.live(i) ==> !board.tile_of(i).matched && !board.tile_of(i).selected,
            decreases rows - r,
        {
            let mut c: usize = 0;
            while c < cols
                invariant
                    c <= cols,
                    r < rows,
                    board.wf(),
                    board.rows == rows,
                    board.cols == cols,
                    forall|cc: int, rr: int|
                        board.in_bounds(cc, rr) ==> ((#[trigger] board.cell(cc, rr)) is Some
                            <==> (rr < r || (rr == r && cc < c))),
                    forall|i: int| #![trigger board.tiles@[i]]
                        board.live(i) ==> !board.tile_of(i).matched && !board.tile_of(i).selected,
                decreases cols - c,
            {
                let idx = draw_kind_index();
                let kind = kind_of_index(idx);
                let res = board.place(kind, c, r);
                proof {
                    assert(res is Ok);
                }
                c = c + 1;
            }
            r = r + 1;
        }
        Engine { board, state: GridState::Initializing, timer: SpawnTimer::new(period) }
    }

    /// The input collaborator's entry point: flips the `selected` tag of the
    /// tile in the cell, if a tile is there. Selecting a third tile is not
    /// rejected; the swap step simply takes the first two.
    pub fn select(&mut self, col: usize, row: usize) -> (res: Result<(), GridError>)
        requires
            old(self).wf(),
        ensures
            final(self).wf(),
            final(self).state == old(self).state,
            final(self).timer == old(self).timer,
            final(self).board.rows == old(self).board.rows,
            final(self).board.cols == old(self).board.cols,
            !old(self).board.in_bounds(col as int, row as int) ==> res == Err::<(), GridError>(
                GridError::OutOfBounds,
            ) && final(self).board == old(self).board,
            old(self).board.in_bounds(col as int, row as int) ==> res == Ok::<(), GridError>(()),
            old(self).board.in_bounds(col as int, row as int) && old(self).board.cell(
                col as int,
                row as int,
            ) is None ==> final(self).board == old(self).board,
            old(self).board.in_bounds(col as int, row as int) && old(self).board.cell(
                col as int,
                row as int,
            ) is Some ==> {
                let i = old(self).board.cell(col as int, row as int)->0 as int;
                let t = old(self).board.tile_of(i);
                &&& final(self).board.cells == old(self).board.cells
                &&& final(self).board.tiles@ == old(self).board.tiles@.update(
                    i,
                    Some(
                        Tile {
                            col: t.col,
                            row: t.row,
                            kind: t.kind,
                            matched: t.matched,
                            selected: !t.selected,
                        },
                    ),
                )
            },
    {
        self.board.toggle_selected(col, row)
    }

    /// One tick of the engine, given the elapsed time `dt`: apply the pending
    /// swap (only while `Playing`), scan for matches, then reroll them
    /// (`Initializing`) or remove them (`Playing`), let gravity act, and
    /// refill the top row if the spawn timer elapsed. The lifecycle flips to
    /// `Playing` exactly on the first tick whose scan finds no match, and
    /// never flips back.
    pub fn advance(&mut self, dt: u64)
        requires
            old(self).wf(),
        ensures
            final(self).wf(),
            final(self).board.rows == old(self).board.rows,
            final(self).board.cols == old(self).board.cols,
            final(self).timer.period == old(self).timer.period,
            // the lifecycle is one-way and flips exactly on a clean scan
            old(self).state is Playing ==> final(self).state is Playing,
            old(self).state is Initializing ==> (final(self).state is Playing <==> !has_match(
                old(self).board,
            )),
            // the spawn timer accumulates and resets on fire
            old(self).timer.elapsed + dt >= old(self).timer.period ==> final(self).timer.elapsed
                == 0,
            old(self).timer.elapsed + dt < old(self).timer.period ==> final(self).timer.elapsed
                == old(self).timer.elapsed + dt,
            // the five steps, in order, connected by intermediate boards
            exists|b1: Board, b2: Board, b3: Board|
                #![trigger b1.wf(), b2.wf(), b3.wf()]
                {
                    let fired = old(self).timer.elapsed + dt >= old(self).timer.period;
                    &&& b1.wf() && b2.wf() && b3.wf()
                    &&& (old(self).state is Playing ==> swap_applied(old(self).board, b1))
                    &&& (old(self).state is Initializing ==> b1 == old(self).board)
                    &&& matches_marked(b1, b2)
                    &&& (old(self).state is Initializing && !has_match(b1) ==> b2 == b3)
                    &&& (old(self).state is Initializing && has_match(b1) ==> rerolled(b2, b3))
                    &&& (old(self).state is Playing ==> matched_removed(b2, b3))
                    &&& (fired ==> exists|b4: Board|
                        #![trigger gravity_applied(b3, b4)]
                        {
                            &&& b4.wf()
                            &&& gravity_applied(b3, b4)
                            &&& spawn_applied(b4, final(self).board)
                        })
                    &&& (!fired ==> gravity_applied(b3, final(self).board))
                },
    {
        let ghost start = *old(self);
        if self.state == GridState::Playing {
            swap_two_selected(&mut self.board);
        }
        let ghost b1 = self.board;
        check_for_matches(&mut self.board);
        let ghost b2 = self.board;
        match self.state {
            GridState::Initializing => {
                if any_matched(&self.board) {
                    proof {
                        lemma_matched_tags_reflect_scan(b1, b2);
                    }
                    reroll_matched(&mut self.board);
                } else {
                    proof {
                        lemma_matched_tags_reflect_scan(b1, b2);
                    }
                    self.state = GridState::Playing;
                }
            },
            GridState::Playing => {
                remove_matched(&mut self.board);
            },
        }
        let ghost b3 = self.board;
        drop_down(&mut self.board);
        let ghost b4 = self.board;
        let fired = self.timer.tick(dt);
        if fired {
            spawn_new(&mut self.board);
        }
        proof {
            assert(b1.wf() && b2.wf() && b3.wf());
            if start.state is Initializing {
                assert(b1 == start.board);
            }
        }
    }
}

/// After a scan, some tile carries the `matched` tag exactly when the scanned
/// board had a match: a matched cell is always an occupied cell.
pub proof fn lemma_matched_tags_reflect_scan(pre: Board, post: Board)
    requires
        pre.wf(),
        matches_marked(pre, post),
    ensures
        some_tile_matched(post) <==> has_match(pre),
{
    lemma_has_match_iff_matched_tile(pre);
    if some_tile_matched(post) {
        let i = choose|i: int| #[trigger] post.live(i) && post.tile_of(i).matched;
        assert(pre.tiles@[i] is Some);
        assert(pre.live(i));
        assert(in_match(pre, pre.tile_of(i).col as int, pre.tile_of(i).row as int));
    }
    if has_match(pre) {
        let i = choose|i: int|
            #[trigger] pre.live(i) && in_match(
                pre,
                pre.tile_of(i).col as int,
                pre.tile_of(i).row as int,
            );
        assert(post.tiles@[i] is Some);
        assert(post.live(i) && post.tile_of(i).matched);
    }
}

} // verus!
