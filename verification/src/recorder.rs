use vstd::prelude::*;

use crate::color::{rgba_bytes, rgba_of, Color};

verus! {

/// A frame of the demo GIF in indexed form: the colour table, one palette index per
/// pixel (row by row), and the index that stands for transparency, if any.
pub struct GifFrameData {
    pub palette: Option<Vec<u8>>,
    pub indices: Vec<u8>,
    pub transparent: Option<u8>,
}

/// How hard the quantizer works when a frame has more than 256 colours: 1 is the
/// slowest and best, 30 the fastest.
pub const GIF_QUANTIZE_SPEED: i32 = 10;

/// The colour table, pixel indices and transparent index that the `gif` crate's
/// `Frame::from_rgba_speed` makes of a `width` by `height` RGBA8 image at `speed`.
pub uninterp spec fn gif_quantized(width: u16, height: u16, rgba: Seq<u8>, speed: i32) -> (
    Option<Seq<u8>>,
    Seq<u8>,
    Option<u8>,
);

/// Whether some pixel of an RGBA8 image has alpha 0.
pub open spec fn has_transparent_pixel(rgba: Seq<u8>) -> bool {
    exists|k: int| 0 <= k < rgba.len() / 4 && #[trigger] rgba[4 * k + 3] == 0
}

/// Calls `gif::Frame::from_rgba_speed`, which maps the image to at most 256 colours
/// (exactly when it has no more, with NeuQuant otherwise) and returns the frame's colour
/// table, one index per pixel and the transparent index. Its result is named
/// `gif_quantized`; beyond that this states what the crate's source shows: the frame
/// has a palette of at most 256 RGB entries, one index per pixel, and a transparent
/// index exactly when some pixel has alpha 0. The function panics when the byte count
/// is not `width * height * 4` or `speed` is outside 1 to 30, hence the `requires`.
#[verifier::external_body]
fn quantize_rgba(width: u16, height: u16, rgba: Vec<u8>, speed: i32) -> (f: GifFrameData)
    requires
        rgba@.len() == width * height * 4,
        1 <= speed <= 30,
    ensures
        f.palette.deep_view() == gif_quantized(width, height, rgba@, speed).0,
        f.indices@ == gif_quantized(width, height, rgba@, speed).1,
        f.transparent == gif_quantized(width, height, rgba@, speed).2,
        f.indices@.len() == width * height,
        f.palette is Some,
        f.palette.deep_view().unwrap().len() % 3 == 0,
        f.palette.deep_view().unwrap().len() <= 768,
        f.transparent is Some <==> has_transparent_pixel(rgba@),
{
    let mut rgba = rgba;
    let frame = gif::Frame::from_rgba_speed(width, height, &mut rgba, speed);
    GifFrameData {
        palette: frame.palette,
        indices: frame.buffer.into_owned(),
        transparent: frame.transparent,
    }
}

/// Encodes a captured `width` by `height` screen, given as colours row by row, as an
/// indexed GIF frame.
pub fn encode_capture(colors: &[Color], width: u16, height: u16) -> (f: GifFrameData)
    requires
        colors@.len() == width * height,
        colors@.len() * 4 <= usize::MAX,
    ensures
        f.palette.deep_view() == gif_quantized(width, height, rgba_of(colors@), GIF_QUANTIZE_SPEED).0,
        f.indices@ == gif_quantized(width, height, rgba_of(colors@), GIF_QUANTIZE_SPEED).1,
        f.transparent == gif_quantized(width, height, rgba_of(colors@), GIF_QUANTIZE_SPEED).2,
        f.indices@.len() == width * height,
        f.palette is Some,
        f.palette.deep_view().unwrap().len() % 3 == 0,
        f.palette.deep_view().unwrap().len() <= 768,
        f.transparent is Some <==> exists|k: int| 0 <= k < colors@.len() && #[trigger] colors@[k].a == 0,
{
    let rgba = rgba_bytes(colors);
    let ghost bytes = rgba@;
    let f = quantize_rgba(width, height, rgba, GIF_QUANTIZE_SPEED);
    proof {
        if has_transparent_pixel(bytes) {
            let k = choose|k: int| 0 <= k < bytes.len() / 4 && #[trigger] bytes[4 * k + 3] == 0;
            assert(colors@[k].a == 0);
        }
        if exists|k: int| 0 <= k < colors@.len() && #[trigger] colors@[k].a == 0 {
            let k = choose|k: int| 0 <= k < colors@.len() && #[trigger] colors@[k].a == 0;
            assert(bytes[4 * k + 3] == 0);
        }
    }
    f
}

} // verus!
