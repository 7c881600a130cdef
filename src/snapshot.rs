//! Saving the drawable region as an RGB image file.
use vstd::prelude::*;

use crate::{CANVAS_BOTTOM, CANVAS_TOP, FRAME_LEN, WIDTH};

verus! {

/// The red, green and blue bytes of a packed `0xRRGGBB` pixel.
pub open spec fn rgb_of(p: u32) -> Seq<u8> {
    seq![((p >> 16u32) & 0xffu32) as u8, ((p >> 8u32) & 0xffu32) as u8, (p & 0xffu32) as u8]
}

/// The pixels `px`, three bytes each, in order.
pub open spec fn rgb_bytes(px: Seq<u32>) -> Seq<u8>
    decreases px.len(),
{
    if px.len() == 0 {
        seq![]
    } else {
        rgb_bytes(px.drop_last()) + rgb_of(px.last())
    }
}

/// The pixels of the drawable region of `b`, row by row.
pub open spec fn canvas_pixels(b: Seq<u32>) -> Seq<u32> {
    b.subrange(CANVAS_TOP * WIDTH, CANVAS_BOTTOM * WIDTH)
}

proof fn lemma_rgb_len(px: Seq<u32>)
    ensures
        rgb_bytes(px).len() == 3 * px.len(),
    decreases px.len(),
{
    if px.len() > 0 {
        lemma_rgb_len(px.drop_last());
    }
}

/// The drawable region of `buffer` as RGB bytes, row by row.
pub fn canvas_rgb(buffer: &Vec<u32>) -> (r: Vec<u8>)
    requires
        buffer@.len() >= FRAME_LEN,
    ensures
        r@ == rgb_bytes(canvas_pixels(buffer@)),
        r@.len() == 3 * WIDTH * (CANVAS_BOTTOM - CANVAS_TOP),
{
    let mut out: Vec<u8> = Vec::new();
    let mut i: usize = CANVAS_TOP * WIDTH;
    proof {
        assert(buffer@.subrange(CANVAS_TOP * WIDTH, i as int) =~= Seq::<u32>::empty());
    }
    while i < CANVAS_BOTTOM * WIDTH
        invariant
            buffer@.len() >= FRAME_LEN,
            CANVAS_TOP * WIDTH <= i <= CANVAS_BOTTOM * WIDTH,
            out@ == rgb_bytes(buffer@.subrange(CANVAS_TOP * WIDTH, i as int)),
        decreases CANVAS_BOTTOM * WIDTH - i,
    {
        let p = buffer[i];
        out.push(((p >> 16u32) & 0xffu32) as u8);
        out.push(((p >> 8u32) & 0xffu32) as u8);
        out.push((p & 0xffu32) as u8);
        proof {
            let next = buffer@.subrange(CANVAS_TOP * WIDTH, i + 1);
            assert(next.drop_last() =~= buffer@.subrange(CANVAS_TOP * WIDTH, i as int));
            assert(next.last() == p);
            assert(out@ =~= rgb_bytes(next));
        }
        i = i + 1;
    }
    proof {
        lemma_rgb_len(canvas_pixels(buffer@));
    }
    out
}

/// Relies on `image::save_buffer`: it writes `bytes` as an 8-bit RGB image of
/// `width x height` pixels to `path`, in the format that the path's extension
/// names, and reports a failure as an error; it panics on a buffer of another length.
#[verifier::external_body]
fn write_rgb_image(path: &str, bytes: &Vec<u8>, width: u32, height: u32) -> (r: Result<(), String>)
    requires
        bytes@.len() == 3 * width * height,
{
    match image::save_buffer(path, bytes.as_slice(), width, height, image::ColorType::Rgb8) {
        Ok(()) => Ok(()),
        Err(e) => Err(e.to_string()),
    }
}

/// Save the drawable region of `buffer` (the chrome left out) as an image at `path`.
pub fn save_canvas_png(buffer: &Vec<u32>, path: &str) -> (r: Result<(), String>)
    requires
        buffer@.len() >= FRAME_LEN,
{
    let bytes = canvas_rgb(buffer);
    write_rgb_image(path, &bytes, WIDTH as u32, (CANVAS_BOTTOM - CANVAS_TOP) as u32)
}

} // verus!
