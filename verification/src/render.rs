//! The decisions of the video render loop that do not touch the graphics
//! stack: when the drawing surface must follow a new requested size, when a
//! frame is drawn, and how a read-back frame is made opaque before it is
//! handed to a layered window.
use vstd::prelude::*;

verus! {

/// Whether the drawing surface must be rebuilt before the next frame: the
/// requested size differs from the surface's and is positive both ways.
pub fn needs_resize(target_w: i32, target_h: i32, surface_w: i32, surface_h: i32) -> (r: bool)
    ensures
        r == ((target_w != surface_w || target_h != surface_h) && target_w > 0 && target_h > 0),
{
    (target_w != surface_w || target_h != surface_h) && target_w > 0 && target_h > 0
}

/// Whether a frame is drawn: one is due (the player asked for one, or the
/// surface was just rebuilt and would otherwise stay blank) and the surface
/// has a positive size.
pub fn should_draw(frame_requested: bool, resized: bool, surface_w: i32, surface_h: i32) -> (r: bool)
    ensures
        r == ((frame_requested || resized) && surface_w > 0 && surface_h > 0),
{
    (frame_requested || resized) && surface_w > 0 && surface_h > 0
}

/// The pixel bytes of an opaque frame: each whole four-byte pixel of `src`
/// (blue, green, red, alpha) keeps its colour bytes and gets alpha 0xFF;
/// trailing bytes that make no whole pixel are left out.
pub open spec fn opaque_pixels_spec(src: Seq<u8>) -> Seq<u8> {
    Seq::new(
        (src.len() - src.len() % 4) as nat,
        |i: int| if i % 4 == 3 { 0xFFu8 } else { src[i] },
    )
}

/// Copies BGRA pixels with alpha forced to 0xFF.
pub fn opaque_pixels(src: &Vec<u8>) -> (r: Vec<u8>)
    ensures
        r@ == opaque_pixels_spec(src@),
{
    let n = src.len() - src.len() % 4;
    let mut r: Vec<u8> = Vec::with_capacity(n);
    let mut i: usize = 0;
    while i < n
        invariant
            n == src@.len() - src@.len() % 4,
            n <= src@.len(),
            i <= n,
            i % 4 == 0,
            n % 4 == 0,
            r@.len() == i,
            forall|k: int| 0 <= k < i ==> r@[k] == (if k % 4 == 3 { 0xFFu8 } else { src@[k] }),
        decreases n - i,
    {
        r.push(src[i]);
        r.push(src[i + 1]);
        r.push(src[i + 2]);
        r.push(0xFF);
        i = i + 4;
    }
    assert(r@ =~= opaque_pixels_spec(src@));
    r
}

} // verus!
