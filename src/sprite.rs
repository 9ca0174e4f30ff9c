//! Placement of the sprite's bitmap on the screen.

use vstd::prelude::*;

verus! {

/// Edge length of the sprite's bitmap in pixels.
pub const BITMAP_EDGE: u8 = 32;

/// Distance from the bitmap's corner to its centre.
pub const HALF_EDGE: i32 = 16;

/// Each set pixel of a bitmap lies inside its square.
pub open spec fn offsets_in_bitmap(bitmap: Seq<(u8, u8)>) -> bool {
    forall|i: int| 0 <= i < bitmap.len() ==> #[trigger] bitmap[i].0 < BITMAP_EDGE && bitmap[i].1 < BITMAP_EDGE
}

/// The screen pixel of the bitmap pixel `o` when the bitmap is centred on
/// `(cx, cy)`.
pub open spec fn placed(cx: int, cy: int, o: (u8, u8)) -> (int, int) {
    (cx - HALF_EDGE + o.0 as int, cy - HALF_EDGE + o.1 as int)
}

/// A centre at which every pixel of the bitmap has an `i32` screen coordinate.
pub open spec fn centre_fits(cx: int, cy: int) -> bool {
    &&& i32::MIN + HALF_EDGE <= cx <= i32::MAX - (HALF_EDGE - 1)
    &&& i32::MIN + HALF_EDGE <= cy <= i32::MAX - (HALF_EDGE - 1)
}

/// The screen pixel of the bitmap pixel `(ox, oy)` when the bitmap is
/// centred on `(cx, cy)`.
pub fn place_pixel(cx: i32, cy: i32, ox: u8, oy: u8) -> (r: (i32, i32))
    requires
        ox < BITMAP_EDGE,
        oy < BITMAP_EDGE,
        centre_fits(cx as int, cy as int),
    ensures
        (r.0 as int, r.1 as int) == placed(cx as int, cy as int, (ox, oy)),
{
    (cx - HALF_EDGE + ox as i32, cy - HALF_EDGE + oy as i32)
}

/// The screen pixels to set for a bitmap, given as the offsets of its set
/// pixels, centred on `(cx, cy)`: one for each offset, in the same order.
pub fn sprite_pixels(bitmap: &Vec<(u8, u8)>, cx: i32, cy: i32) -> (r: Vec<(i32, i32)>)
    requires
        offsets_in_bitmap(bitmap@),
        centre_fits(cx as int, cy as int),
    ensures
        r@.len() == bitmap@.len(),
        forall|i: int|
            0 <= i < r@.len() ==> (#[trigger] r@[i].0 as int, r@[i].1 as int) == placed(
                cx as int,
                cy as int,
                bitmap@[i],
            ),
{
    let mut r: Vec<(i32, i32)> = Vec::new();
    let mut i: usize = 0;
    while i < bitmap.len()
        invariant
            offsets_in_bitmap(bitmap@),
            centre_fits(cx as int, cy as int),
            i <= bitmap@.len(),
            r@.len() == i,
            forall|j: int|
                0 <= j < i ==> (#[trigger] r@[j].0 as int, r@[j].1 as int) == placed(
                    cx as int,
                    cy as int,
                    bitmap@[j],
                ),
        decreases bitmap@.len() - i,
    {
        let (ox, oy) = bitmap[i];
        assert(ox < BITMAP_EDGE && oy < BITMAP_EDGE);
        r.push(place_pixel(cx, cy, ox, oy));
        i = i + 1;
    }
    r
}

} // verus!
