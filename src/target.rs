//! Random targets for the sprite, kept far enough from the screen's edges
//! that the whole sprite stays visible.

use vstd::prelude::*;

verus! {

/// Width of the screen in pixels.
pub const SCREEN_WIDTH: i32 = 128;

/// Height of the screen in pixels.
pub const SCREEN_HEIGHT: i32 = 64;

/// Edge length of the square sprite in pixels.
pub const SPRITE_SIZE: i32 = 32;

/// Margin inside which sprite centres lie: half the sprite's edge.
pub const INSET: i32 = 16;

/// Number of columns a sprite centre can take.
pub const SPAN_X: u64 = 96;

/// Number of rows a sprite centre can take.
pub const SPAN_Y: u64 = 32;

/// The target that two draws `kx`, `ky` of the random source select.
pub open spec fn target_of(kx: u64, ky: u64) -> (int, int) {
    ((kx % SPAN_X) as int + INSET as int, (ky % SPAN_Y) as int + INSET as int)
}

/// A coordinate at which the whole sprite is on screen.
pub open spec fn in_inset(p: (int, int)) -> bool {
    &&& INSET <= p.0 < SCREEN_WIDTH - INSET
    &&& INSET <= p.1 < SCREEN_HEIGHT - INSET
}

#[verifier::external_type_specification]
#[verifier::external_body]
pub struct ExWyRand(wyrand::WyRand);

/// Relies on `wyrand::WyRand::rand`: it advances the generator and returns a
/// 64-bit value; nothing is promised of the value.
pub assume_specification[ wyrand::WyRand::rand ](rng: &mut wyrand::WyRand) -> u64;

/// The target selected by the draws `kx` (for the column) and `ky` (for the
/// row): each reduced modulo the span of its axis, then shifted by the inset.
pub fn pick_target(kx: u64, ky: u64) -> (r: (i32, i32))
    ensures
        (r.0 as int, r.1 as int) == target_of(kx, ky),
        in_inset((r.0 as int, r.1 as int)),
{
    let x = kx % SPAN_X;
    let y = ky % SPAN_Y;
    ((x as i32) + INSET, (y as i32) + INSET)
}

/// Draws a target from `rng`: one draw for the column, then one for the row.
pub fn random_target(rng: &mut wyrand::WyRand) -> (r: (i32, i32))
    ensures
        in_inset((r.0 as int, r.1 as int)),
        exists|kx: u64, ky: u64| (r.0 as int, r.1 as int) == target_of(kx, ky),
{
    let kx = rng.rand();
    let ky = rng.rand();
    pick_target(kx, ky)
}

/// Every target that two draws can select keeps the sprite on screen.
pub proof fn lemma_targets_in_inset(kx: u64, ky: u64)
    ensures
        in_inset(target_of(kx, ky)),
{
}

} // verus!
