//! The spawner: a repeating interval timer and the top-row refill that runs
//! each time the timer elapses, creating one randomly-kinded tile in every
//! empty cell of the top row.

use vstd::prelude::*;

use crate::board::Board;
use crate::rng::draw_kind_index;
use crate::tile::kind_of_index;

verus! {

/// Default spawn period: one time unit of the driver's clock.
pub const DEFAULT_SPAWN_PERIOD: u64 = 1;

/// A repeating interval timer with reset-on-fire semantics: however large a
/// single step is, the timer fires at most once for it and starts the next
/// period from zero — it never catches up missed periods.
pub struct SpawnTimer {
    pub period: u64,
    pub elapsed: u64,
}

impl SpawnTimer {
    /// The period is positive and the accumulated time sits inside it.
    pub open spec fn wf(self) -> bool {
        1 <= self.period && self.elapsed < self.period
    }

    pub fn new(period: u64) -> (t: SpawnTimer)
        requires
            period >= 1,
        ensures
            t.wf(),
            t.period == period,
            t.elapsed == 0,
    {
        SpawnTimer { period, elapsed: 0 }
    }

    /// Advances the timer; fires exactly when a full period has accumulated,
    /// and then resets to zero.
    pub fn tick(&mut self, dt: u64) -> (fired: bool)
        requires
            old(self).wf(),
        ensures
            final(self).wf(),
            final(self).period == old(self).period,
            fired == (old(self).elapsed + dt >= old(self).period),
            fired ==> final(self).elapsed == 0,
            !fired ==> final(self).elapsed == old(self).elapsed + dt,
    {
        if dt >= self.period - self.elapsed {
            self.elapsed = 0;
            true
        } else {
            self.elapsed = self.elapsed + dt;
            false
        }
    }
}

/// The refill's whole effect: every tile that existed stays exactly as it
/// was (destroyed ones stay destroyed); every cell outside the top row, and
/// every occupied top-row cell, is untouched; every top-row cell that was
/// empty now holds exactly one fresh tile, untagged, of some kind.
pub open spec fn spawn_applied(pre: Board, post: Board) -> bool {
    &&& post.rows == pre.rows
    &&& post.cols == pre.cols
    &&& post.tiles@.len() >= pre.tiles@.len()
    &&& forall|i: int|
        0 <= i < pre.tiles@.len() ==> #[trigger] post.tiles@[i] == pre.tiles@[i]
    &&& forall|i: int|
        pre.tiles@.len() <= i < post.tiles@.len() ==> (#[trigger] post.tiles@[i]) is Some && {
            let t = post.tiles@[i]->0;
            &&& t.row + 1 == pre.rows
            &&& t.col < pre.cols
            &&& pre.cell(t.col as int, t.row as int) is None
            &&& !t.matched
            &&& !t.selected
        }
    &&& forall|c: int|
        0 <= c < pre.cols && pre.cell(c, pre.rows - 1) is None ==> (#[trigger] post.cell(
            c,
            pre.rows - 1,
        )) is Some
    &&& forall|c: int, r: int|
        pre.in_bounds(c, r) && !(r == pre.rows - 1 && pre.cell(c, r) is None)
            ==> #[trigger] post.cell(c, r) == pre.cell(c, r)
}

/// The refill: walks the top row and creates a tile of a random kind in each
/// empty cell; occupied top-row cells are never touched, so within one firing
/// of the timer each empty cell is filled exactly once.
#[verifier::loop_isolation(false)]
pub fn spawn_new(b: &mut Board)
    requires
        old(b).wf(),
    ensures
        final(b).wf(),
        spawn_applied(*old(b), *final(b)),
{
    let ghost b0 = *b;
    let cols = b.cols;
    let top = b.rows - 1;
    let mut c: usize = 0;
    while c < cols
        invariant
            c <= cols,
            b.wf(),
            b.rows == b0.rows,
            b.cols == b0.cols,
            b.tiles@.len() >= b0.tiles@.len(),
            forall|i: int|
                0 <= i < b0.tiles@.len() ==> #[trigger] b.tiles@[i] == b0.tiles@[i],
            forall|i: int|
                b0.tiles@.len() <= i < b.tiles@.len() ==> (#[trigger] b.tiles@[i]) is Some && {
                    let t = b.tiles@[i]->0;
                    &&& t.row == top
                    &&& t.col < c
                    &&& b0.cell(t.col as int, t.row as int) is None
                    &&& !t.matched
                    &&& !t.selected
                },
            forall|cc: int|
                0 <= cc < c && b0.cell(cc, top as int) is None ==> (#[trigger] b.cell(
                    cc,
                    top as int,
                )) is Some,
            forall|cc: int, r: int|
                b0.in_bounds(cc, r) && !(r == top && cc < c && b0.cell(cc, r) is None)
                    ==> #[trigger] b.cell(cc, r) == b0.cell(cc, r),
        decreases cols - c,
    {
        let occ = b.cells[top][c];
        proof {
            assert(b.cell(c as int, top as int) == b0.cell(c as int, top as int));
        }
        match occ {
            Some(_) => (),
            None => {
                let idx = draw_kind_index();
                let kind = kind_of_index(idx);
                let res = b.place(kind, c, top);
                proof {
                    assert(res is Ok);
                }
            },
        }
        c = c + 1;
    }
}

} // verus!
