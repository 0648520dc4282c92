//! The engine's only source of randomness: a uniform draw of a tile-kind
//! index.

use vstd::prelude::*;

verus! {

/// Relies on rand's `Rng::gen_range` over `0..5`: the range is non-empty, so
/// the call does not panic, and the draw is uniform over the range, so the
/// result is always below 5 (`KIND_COUNT`). Nothing more is promised of a
/// random value.
#[verifier::external_body]
pub(crate) fn draw_kind_index() -> (r: u8)
    ensures
        r < 5,
{
    rand::Rng::gen_range(&mut rand::thread_rng(), 0..5u8)
}

} // verus!
