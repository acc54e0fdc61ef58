use vstd::prelude::*;

use crate::color::Color;
use crate::framebuffer::{in_box, lemma_line_points, line_points, Framebuffer};

verus! {

/// Length in pixels of each arm of the crosshair.
pub const CROSSHAIR_SIZE: i32 = 8;

/// Gap in pixels between the crosshair's centre and its arms.
pub const CROSSHAIR_GAP: i32 = 3;

/// Whether `(px, py)` is on one of the four arms of the crosshair centred on `(cx, cy)`.
pub open spec fn on_crosshair(cx: int, cy: int, px: int, py: int) -> bool {
    let s = CROSSHAIR_SIZE as int;
    let g = CROSSHAIR_GAP as int;
    ||| line_points(cx - s - g, cy, cx - g, cy).contains((px, py))
    ||| line_points(cx + g, cy, cx + s + g, cy).contains((px, py))
    ||| line_points(cx, cy - s - g, cx, cy - g).contains((px, py))
    ||| line_points(cx, cy + g, cx, cy + s + g).contains((px, py))
}

/// Draws a white crosshair at the centre of the frame: four arms around a small gap.
pub fn draw_crosshair_fb(fb: &mut Framebuffer)
    requires
        old(fb).wf(),
    ensures
        final(fb).wf(),
        final(fb).w() == old(fb).w(),
        final(fb).h() == old(fb).h(),
        forall|px: int, py: int|
            #![trigger final(fb).pixel(px, py)]
            old(fb).in_bounds(px, py) ==> final(fb).pixel(px, py) == (if on_crosshair(
                old(fb).w() / 2,
                old(fb).h() / 2,
                px,
                py,
            ) {
                Color { r: 255, g: 255, b: 255, a: 255 }
            } else {
                old(fb).pixel(px, py)
            }),
{
    let cx = fb.width() / 2;
    let cy = fb.height() / 2;
    let size = CROSSHAIR_SIZE;
    let gap = CROSSHAIR_GAP;
    let color = Color::new(255, 255, 255, 255);
    fb.draw_line(cx - size - gap, cy, cx - gap, cy, color);
    fb.draw_line(cx + gap, cy, cx + size + gap, cy, color);
    fb.draw_line(cx, cy - size - gap, cx, cy - gap, color);
    fb.draw_line(cx, cy + gap, cx, cy + size + gap, color);
}

/// The crosshair leaves its centre pixel untouched.
pub proof fn lemma_crosshair_gap(cx: int, cy: int)
    ensures
        !on_crosshair(cx, cy, cx, cy),
{
    let s = CROSSHAIR_SIZE as int;
    let g = CROSSHAIR_GAP as int;
    lemma_line_points(cx - s - g, cy, cx - g, cy);
    lemma_line_points(cx + g, cy, cx + s + g, cy);
    lemma_line_points(cx, cy - s - g, cx, cy - g);
    lemma_line_points(cx, cy + g, cx, cy + s + g);
    let l1 = line_points(cx - s - g, cy, cx - g, cy);
    let l2 = line_points(cx + g, cy, cx + s + g, cy);
    let l3 = line_points(cx, cy - s - g, cx, cy - g);
    let l4 = line_points(cx, cy + g, cx, cy + s + g);
    if l1.contains((cx, cy)) {
        let k = choose|k: int| 0 <= k < l1.len() && l1[k] == (cx, cy);
        assert(in_box(cx - s - g, cy, cx - g, cy, l1[k]));
    }
    if l2.contains((cx, cy)) {
        let k = choose|k: int| 0 <= k < l2.len() && l2[k] == (cx, cy);
        assert(in_box(cx + g, cy, cx + s + g, cy, l2[k]));
    }
    if l3.contains((cx, cy)) {
        let k = choose|k: int| 0 <= k < l3.len() && l3[k] == (cx, cy);
        assert(in_box(cx, cy - s - g, cx, cy - g, l3[k]));
    }
    if l4.contains((cx, cy)) {
        let k = choose|k: int| 0 <= k < l4.len() && l4[k] == (cx, cy);
        assert(in_box(cx, cy + g, cx, cy + s + g, l4[k]));
    }
}

} // verus!
