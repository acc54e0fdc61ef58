use vstd::prelude::*;

use crate::color::Color;

verus! {

/// Index of the cell `(x, y)` in a row-major grid `w` cells wide.
pub open spec fn cell_index(w: int, x: int, y: int) -> int {
    y * w + x
}

/// The colour stored for cell `(x, y)` in an RGBA8 byte buffer `w` cells wide.
pub open spec fn color_at(bytes: Seq<u8>, w: int, x: int, y: int) -> Color {
    let i = 4 * cell_index(w, x, y);
    Color { r: bytes[i], g: bytes[i + 1], b: bytes[i + 2], a: bytes[i + 3] }
}

/// Cells inside a `w` by `h` grid have distinct indices in `0 .. w * h`.
pub proof fn lemma_cell_index(w: int, h: int, x: int, y: int, x2: int, y2: int)
    requires
        0 <= x < w,
        0 <= y < h,
        0 <= x2 < w,
        0 <= y2 < h,
    ensures
        0 <= cell_index(w, x, y) < w * h,
        (x != x2 || y != y2) ==> cell_index(w, x, y) != cell_index(w, x2, y2),
{
    assert(0 <= y * w + x < w * h) by (nonlinear_arith)
        requires 0 <= x < w, 0 <= y < h;
    if y < y2 {
        assert(y * w + x < y2 * w + x2) by (nonlinear_arith)
            requires 0 <= x < w, 0 <= x2, y < y2;
    } else if y2 < y {
        assert(y2 * w + x2 < y * w + x) by (nonlinear_arith)
            requires 0 <= x2 < w, 0 <= x, y2 < y;
    }
}

pub open spec fn abs(v: int) -> int {
    if v < 0 {
        -v
    } else {
        v
    }
}

/// The unit step that moves `a` toward `b` (`-1` when `a` is not below `b`).
pub open spec fn step_toward(a: int, b: int) -> int {
    if a < b {
        1
    } else {
        -1
    }
}

/// The points that Bresenham's walk visits from `(x, y)` to `(x1, y1)`, given the
/// walk's constants `dx = |x1 - x0|`, `dy = -|y1 - y0|`, its step directions and its
/// current error term; `fuel` bounds the number of steps.
pub open spec fn bresenham_walk(
    x: int,
    y: int,
    x1: int,
    y1: int,
    dx: int,
    dy: int,
    sx: int,
    sy: int,
    err: int,
    fuel: nat,
) -> Seq<(int, int)>
    decreases fuel,
{
    if (x == x1 && y == y1) || fuel == 0 {
        seq![(x, y)]
    } else {
        let e2 = 2 * err;
        let nx = if e2 >= dy { x + sx } else { x };
        let err1 = if e2 >= dy { err + dy } else { err };
        let ny = if e2 <= dx { y + sy } else { y };
        let err2 = if e2 <= dx { err1 + dx } else { err1 };
        seq![(x, y)] + bresenham_walk(nx, ny, x1, y1, dx, dy, sx, sy, err2, (fuel - 1) as nat)
    }
}

/// The pixels of the segment from `(x0, y0)` to `(x1, y1)`, in drawing order,
/// as Bresenham's integer algorithm rasterizes it.
pub open spec fn line_points(x0: int, y0: int, x1: int, y1: int) -> Seq<(int, int)> {
    let dx = abs(x1 - x0);
    let dy = -abs(y1 - y0);
    bresenham_walk(
        x0,
        y0,
        x1,
        y1,
        dx,
        dy,
        step_toward(x0, x1),
        step_toward(y0, y1),
        dx + dy,
        (dx - dy) as nat,
    )
}

/// The walk has taken `i` steps along x and `j` along y from `(x0, y0)`, and its
/// error term is the one those steps leave.
pub open spec fn walk_state(
    x0: int,
    y0: int,
    x1: int,
    y1: int,
    x: int,
    y: int,
    err: int,
    i: int,
    j: int,
) -> bool {
    let d = abs(x1 - x0);
    let e = abs(y1 - y0);
    &&& 0 <= i <= d
    &&& 0 <= j <= e
    &&& x == (if x0 < x1 { x0 + i } else { x0 - i })
    &&& y == (if y0 < y1 { y0 + j } else { y0 - j })
    &&& err == d * (1 + j) - e * (1 + i)
    &&& -3 * e <= 2 * err <= 3 * d
    &&& d >= e ==> d - 2 * e <= 2 * err <= 3 * d - 2 * e
    &&& d < e ==> e - 2 * d <= -2 * err <= 3 * e - 2 * d
}

/// Whether `p` lies within half a pixel of the exact segment from `(x0, y0)` to
/// `(x1, y1)`, measured along the segment's minor axis: with `i` and `j` the distances
/// of `p` from `(x0, y0)` along x and y, `j` differs from the exact `i * e / d` (or `i`
/// from `j * d / e` when the segment is steeper than diagonal) by at most one half.
pub open spec fn near_segment(x0: int, y0: int, x1: int, y1: int, p: (int, int)) -> bool {
    let d = abs(x1 - x0);
    let e = abs(y1 - y0);
    let i = abs(p.0 - x0);
    let j = abs(p.1 - y0);
    if d >= e {
        -d <= 2 * (d * j - e * i) <= d
    } else {
        -e <= 2 * (e * i - d * j) <= e
    }
}

/// Whether `p` lies in the bounding box of the segment from `(x0, y0)` to `(x1, y1)`.
pub open spec fn in_box(x0: int, y0: int, x1: int, y1: int, p: (int, int)) -> bool {
    &&& (x0 <= p.0 <= x1 || x1 <= p.0 <= x0)
    &&& (y0 <= p.1 <= y1 || y1 <= p.1 <= y0)
}

/// Two distinct points that touch by an edge or a corner.
pub open spec fn adjacent(p: (int, int), q: (int, int)) -> bool {
    &&& p != q
    &&& -1 <= q.0 - p.0 <= 1
    &&& -1 <= q.1 - p.1 <= 1
}

/// One step of the walk keeps its state and brings it strictly closer to the end.
proof fn lemma_walk_step(x0: int, y0: int, x1: int, y1: int, x: int, y: int, err: int, i: int, j: int)
    requires
        walk_state(x0, y0, x1, y1, x, y, err, i, j),
        !(x == x1 && y == y1),
    ensures
        ({
            let d = abs(x1 - x0);
            let e = abs(y1 - y0);
            let e2 = 2 * err;
            let xs = e2 >= -e;
            let ys = e2 <= d;
            let nx = if xs { x + step_toward(x0, x1) } else { x };
            let err1 = if xs { err - e } else { err };
            let ny = if ys { y + step_toward(y0, y1) } else { y };
            let err2 = if ys { err1 + d } else { err1 };
            let ni = if xs { i + 1 } else { i };
            let nj = if ys { j + 1 } else { j };
            &&& xs || ys
            &&& d >= e ==> xs
            &&& d < e ==> ys
            &&& walk_state(x0, y0, x1, y1, nx, ny, err2, ni, nj)
            &&& (d - ni) + (e - nj) < (d - i) + (e - j)
            &&& adjacent((x, y), (nx, ny))
        }),
{
    let d = abs(x1 - x0);
    let e = abs(y1 - y0);
    let e2 = 2 * err;
    // the walk is at its end exactly when both counts are exhausted
    assert((x == x1) == (i == d));
    assert((y == y1) == (j == e));
    if i == d {
        assert(j < e);
        assert(d * (1 + j) <= d * e) by (nonlinear_arith)
            requires 0 <= d, 1 + j <= e;
        assert(e * (1 + i) == e * d + e) by (nonlinear_arith)
            requires i == d;
        assert(!(e2 >= -e));
    }
    if j == e {
        assert(i < d);
        assert(e * (1 + i) <= e * d) by (nonlinear_arith)
            requires 0 <= e, 1 + i <= d;
        assert(d * (1 + j) == d * e + d) by (nonlinear_arith)
            requires j == e;
        assert(!(e2 <= d));
    }
    assert(e * (1 + (i + 1)) == e * (1 + i) + e) by (nonlinear_arith);
    assert(d * (1 + (j + 1)) == d * (1 + j) + d) by (nonlinear_arith);
}

/// Facts about the rest of a walk: it starts where the walk stands, ends at the
/// segment's end, stays in the segment's bounding box, and moves to an adjacent
/// pixel at every step.
proof fn lemma_walk(x0: int, y0: int, x1: int, y1: int, x: int, y: int, err: int, i: int, j: int, fuel: nat)
    requires
        walk_state(x0, y0, x1, y1, x, y, err, i, j),
        fuel >= (abs(x1 - x0) - i) + (abs(y1 - y0) - j),
    ensures
        ({
            let s = bresenham_walk(
                x,
                y,
                x1,
                y1,
                abs(x1 - x0),
                -abs(y1 - y0),
                step_toward(x0, x1),
                step_toward(y0, y1),
                err,
                fuel,
            );
            &&& s.len() >= 1
            &&& s[0] == (x, y)
            &&& s.last() == (x1, y1)
            &&& forall|k: int| 0 <= k < s.len() ==> in_box(x0, y0, x1, y1, #[trigger] s[k])
            &&& forall|k: int| 0 <= k < s.len() - 1 ==> adjacent(#[trigger] s[k], s[k + 1])
            &&& s.len() == (if abs(x1 - x0) >= abs(y1 - y0) { abs(x1 - x0) - i } else { abs(y1 - y0) - j }) + 1
            &&& abs(x1 - x0) >= abs(y1 - y0) ==> forall|k: int|
                0 <= k < s.len() - 1 ==> #[trigger] s[k + 1].0 == s[k].0 + step_toward(x0, x1)
            &&& abs(x1 - x0) < abs(y1 - y0) ==> forall|k: int|
                0 <= k < s.len() - 1 ==> #[trigger] s[k + 1].1 == s[k].1 + step_toward(y0, y1)
            &&& forall|k: int| 0 <= k < s.len() ==> near_segment(x0, y0, x1, y1, #[trigger] s[k])
        }),
    decreases fuel,
{
    let d = abs(x1 - x0);
    let e = abs(y1 - y0);
    // the current point is close to the exact segment
    assert(2 * (d * j - e * i) == 2 * (err - d + e)) by (nonlinear_arith)
        requires err == d * (1 + j) - e * (1 + i);
    assert(abs(x - x0) == i && abs(y - y0) == j);
    assert(near_segment(x0, y0, x1, y1, (x, y)));
    if x == x1 && y == y1 {
        assert((x == x1) == (i == d));
        assert((y == y1) == (j == e));
    } else {
        lemma_walk_step(x0, y0, x1, y1, x, y, err, i, j);
        let e2 = 2 * err;
        let xs = e2 >= -e;
        let ys = e2 <= d;
        let nx = if xs { x + step_toward(x0, x1) } else { x };
        let err1 = if xs { err - e } else { err };
        let ny = if ys { y + step_toward(y0, y1) } else { y };
        let err2 = if ys { err1 + d } else { err1 };
        let ni = if xs { i + 1 } else { i };
        let nj = if ys { j + 1 } else { j };
        lemma_walk(x0, y0, x1, y1, nx, ny, err2, ni, nj, (fuel - 1) as nat);
        let s = bresenham_walk(x, y, x1, y1, d, -e, step_toward(x0, x1), step_toward(y0, y1), err, fuel);
        let t = bresenham_walk(nx, ny, x1, y1, d, -e, step_toward(x0, x1), step_toward(y0, y1), err2, (fuel - 1) as nat);
        assert(s == seq![(x, y)] + t);
        assert forall|k: int| 0 <= k < s.len() implies in_box(x0, y0, x1, y1, #[trigger] s[k]) by {
            if k > 0 {
                assert(s[k] == t[k - 1]);
            }
        }
        assert forall|k: int| 0 <= k < s.len() - 1 implies adjacent(#[trigger] s[k], s[k + 1]) by {
            if k > 0 {
                assert(s[k] == t[k - 1]);
                assert(s[k + 1] == t[k]);
            }
        }
        assert forall|k: int| 0 <= k < s.len() implies near_segment(x0, y0, x1, y1, #[trigger] s[k]) by {
            if k > 0 {
                assert(s[k] == t[k - 1]);
            }
        }
        if d >= e {
            assert forall|k: int| 0 <= k < s.len() - 1 implies #[trigger] s[k + 1].0 == s[k].0
                + step_toward(x0, x1) by {
                if k > 0 {
                    assert(s[k] == t[k - 1]);
                    assert(s[k + 1] == t[k]);
                } else {
                    assert(s[1] == t[0]);
                }
            }
        } else {
            assert forall|k: int| 0 <= k < s.len() - 1 implies #[trigger] s[k + 1].1 == s[k].1
                + step_toward(y0, y1) by {
                if k > 0 {
                    assert(s[k] == t[k - 1]);
                    assert(s[k + 1] == t[k]);
                } else {
                    assert(s[1] == t[0]);
                }
            }
        }
    }
}

/// The rasterized segment runs from its first endpoint to its second, stays inside
/// the segment's bounding box, and each pixel touches the next one. It has one pixel
/// per step along its major axis (the longer of the two), advancing by exactly one
/// along that axis each time, and every pixel lies within half a pixel of the exact
/// segment along the minor axis.
pub proof fn lemma_line_points(x0: int, y0: int, x1: int, y1: int)
    ensures
        ({
            let s = line_points(x0, y0, x1, y1);
            let d = abs(x1 - x0);
            let e = abs(y1 - y0);
            &&& s.len() >= 1
            &&& s[0] == (x0, y0)
            &&& s.last() == (x1, y1)
            &&& forall|k: int| 0 <= k < s.len() ==> in_box(x0, y0, x1, y1, #[trigger] s[k])
            &&& forall|k: int| 0 <= k < s.len() - 1 ==> adjacent(#[trigger] s[k], s[k + 1])
            &&& s.len() == (if d >= e { d } else { e }) + 1
            &&& d >= e ==> forall|k: int|
                0 <= k < s.len() - 1 ==> #[trigger] s[k + 1].0 == s[k].0 + step_toward(x0, x1)
            &&& d < e ==> forall|k: int|
                0 <= k < s.len() - 1 ==> #[trigger] s[k + 1].1 == s[k].1 + step_toward(y0, y1)
            &&& forall|k: int| 0 <= k < s.len() ==> near_segment(x0, y0, x1, y1, #[trigger] s[k])
        }),
{
    let d = abs(x1 - x0);
    let e = abs(y1 - y0);
    assert(d * (1 + 0) - e * (1 + 0) == d - e) by (nonlinear_arith);
    assert(0 <= d && 0 <= e);
    assert(walk_state(x0, y0, x1, y1, x0, y0, d - e, 0, 0));
    lemma_walk(x0, y0, x1, y1, x0, y0, d - e, 0, 0, (d + e) as nat);
}

/// Whether `(px, py)` lies in the `w` by `h` rectangle whose top-left corner is `(x, y)`.
pub open spec fn in_rect(x: int, y: int, w: int, h: int, px: int, py: int) -> bool {
    x <= px < x + w && y <= py < y + h
}

/// Whether `(px, py)` belongs to the disc drawn around `(cx, cy)`: the points of the
/// `2r` by `2r` square from `(cx - r, cy - r)` whose squared distance to the centre is
/// at most `r * r`.
pub open spec fn in_disc(cx: int, cy: int, r: int, px: int, py: int) -> bool {
    &&& cx - r <= px < cx + r
    &&& cy - r <= py < cy + r
    &&& (px - cx) * (px - cx) + (py - cy) * (py - cy) <= r * r
}

/// The squared distance from `(cx, cy)` to `(px, py)`.
pub open spec fn sq_dist(cx: int, cy: int, px: int, py: int) -> int {
    (px - cx) * (px - cx) + (py - cy) * (py - cy)
}

/// Drawing the disc of radius `r` around `(cx, cy)` on a `w` by `h` frame stays within
/// `i32`: the square's edges, `r * r`, and the squared distance of every pixel of the
/// frame that the disc's square covers.
pub open spec fn disc_arith_fits(w: int, h: int, cx: int, cy: int, r: int) -> bool {
    &&& i32::MIN <= cx - r <= i32::MAX
    &&& i32::MIN <= cx + r <= i32::MAX
    &&& i32::MIN <= cy - r <= i32::MAX
    &&& i32::MIN <= cy + r <= i32::MAX
    &&& r * r <= i32::MAX
    &&& forall|px: int, py: int|
        0 <= px < w && 0 <= py < h && cx - r <= px < cx + r && cy - r <= py < cy + r
            ==> #[trigger] sq_dist(cx, cy, px, py) <= i32::MAX
}

/// A software frame: `width * height` pixels stored as RGBA8 bytes, row by row.
pub struct Framebuffer {
    width: i32,
    height: i32,
    pixels: Vec<u8>,
}

impl Framebuffer {
    /// The byte buffer holds exactly four bytes per pixel, and the buffer size fits an `i32`.
    pub closed spec fn wf(&self) -> bool {
        &&& 0 <= self.width
        &&& 0 <= self.height
        &&& self.width * self.height * 4 <= i32::MAX
        &&& self.pixels@.len() == self.width * self.height * 4
    }

    pub closed spec fn w(&self) -> int {
        self.width as int
    }

    pub closed spec fn h(&self) -> int {
        self.height as int
    }

    /// The raw RGBA8 bytes, row-major.
    pub closed spec fn bytes(&self) -> Seq<u8> {
        self.pixels@
    }

    pub open spec fn in_bounds(&self, x: int, y: int) -> bool {
        0 <= x < self.w() && 0 <= y < self.h()
    }

    /// The colour of the pixel at `(x, y)`.
    pub open spec fn pixel(&self, x: int, y: int) -> Color {
        color_at(self.bytes(), self.w(), x, y)
    }

    /// What every frame satisfies: its size and the length of its byte buffer.
    pub open spec fn well_sized(&self) -> bool {
        &&& 0 <= self.w()
        &&& 0 <= self.h()
        &&& self.w() * self.h() * 4 <= i32::MAX
        &&& self.bytes().len() == self.w() * self.h() * 4
    }

    pub proof fn lemma_wf(&self)
        requires
            self.wf(),
        ensures
            self.well_sized(),
    {
    }

    /// Pixels are stored row by row from the top, four bytes each in red, green, blue,
    /// alpha order: pixel `(x, y)` is the four bytes from offset `4 * (y * width + x)`,
    /// so row 0 comes first in the buffer and each row follows the one above it.
    pub proof fn lemma_pixel_layout(&self, x: int, y: int)
        requires
            self.wf(),
            self.in_bounds(x, y),
        ensures
            self.pixel(x, y).r == self.bytes()[4 * (y * self.w() + x)],
            self.pixel(x, y).g == self.bytes()[4 * (y * self.w() + x) + 1],
            self.pixel(x, y).b == self.bytes()[4 * (y * self.w() + x) + 2],
            self.pixel(x, y).a == self.bytes()[4 * (y * self.w() + x) + 3],
            0 <= 4 * (y * self.w() + x) && 4 * (y * self.w() + x) + 3 < self.bytes().len(),
            x + 1 < self.w() ==> 4 * (y * self.w() + x + 1) == 4 * (y * self.w() + x) + 4,
            4 * ((y + 1) * self.w() + x) == 4 * (y * self.w() + x) + 4 * self.w(),
    {
        lemma_cell_index(self.w(), self.h(), x, y, x, y);
        assert((y + 1) * self.w() == y * self.w() + self.w()) by (nonlinear_arith);
    }

    /// Two frames of the same size whose pixels all agree hold the same bytes: the
    /// pixel view describes a frame completely.
    pub proof fn lemma_pixels_determine_bytes(&self, other: &Framebuffer)
        requires
            self.wf(),
            other.wf(),
            self.w() == other.w(),
            self.h() == other.h(),
            forall|x: int, y: int| #[trigger] self.in_bounds(x, y) ==> self.pixel(x, y) == other.pixel(x, y),
        ensures
            self.bytes() == other.bytes(),
    {
        let w = self.w();
        let h = self.h();
        assert forall|k: int| 0 <= k < self.bytes().len() implies self.bytes()[k] == other.bytes()[k] by {
            let c = k / 4;
            let ch = k % 4;
            assert(k == 4 * c + ch);
            assert(0 <= c < w * h);
            assert(w > 0) by (nonlinear_arith)
                requires 0 <= c < w * h, 0 <= h;
            let x = c % w;
            let y = c / w;
            vstd::arithmetic::div_mod::lemma_fundamental_div_mod(c, w);
            assert(c == w * y + x);
            assert(0 <= x < w);
            assert(0 <= y < h) by (nonlinear_arith)
                requires c == w * y + x, 0 <= x < w, 0 <= c < w * h, w > 0;
            assert(cell_index(w, x, y) == c) by (nonlinear_arith)
                requires c == w * y + x;
            assert(self.in_bounds(x, y));
            assert(self.pixel(x, y) == other.pixel(x, y));
        }
        assert(self.bytes() =~= other.bytes());
    }

    /// A black (all-zero bytes) frame of the given size.
    pub fn new(width: i32, height: i32) -> (fb: Framebuffer)
        requires
            0 <= width,
            0 <= height,
            width * height * 4 <= i32::MAX,
        ensures
            fb.w() == width,
            fb.h() == height,
            fb.bytes() == Seq::new((width * height * 4) as nat, |i: int| 0u8),
            fb.wf(),
    {
        proof {
            assert(0 <= width * height * 4) by (nonlinear_arith)
                requires 0 <= width, 0 <= height;
        }
        let n: i32 = width * height * 4;
        let pixels: Vec<u8> = vec![0u8; n as usize];
        let fb = Framebuffer { width, height, pixels };
        assert(fb.bytes() =~= Seq::new((width * height * 4) as nat, |i: int| 0u8));
        fb
    }

    pub fn width(&self) -> (w: i32)
        requires
            self.wf(),
        ensures
            w == self.w(),
    {
        self.width
    }

    pub fn height(&self) -> (h: i32)
        requires
            self.wf(),
        ensures
            h == self.h(),
    {
        self.height
    }

    /// The raw RGBA8 bytes, row-major, as handed to the GPU texture.
    pub fn pixels(&self) -> (p: &Vec<u8>)
        requires
            self.wf(),
        ensures
            p@ == self.bytes(),
    {
        &self.pixels
    }

    /// The colour of the pixel at `(x, y)`, or `None` outside the frame.
    pub fn get_pixel(&self, x: i32, y: i32) -> (c: Option<Color>)
        requires
            self.wf(),
        ensures
            self.in_bounds(x as int, y as int) ==> c == Some(self.pixel(x as int, y as int)),
            self.in_bounds(x as int, y as int) ==> c == Some(
                Color {
                    r: self.bytes()[4 * (y * self.w() + x)],
                    g: self.bytes()[4 * (y * self.w() + x) + 1],
                    b: self.bytes()[4 * (y * self.w() + x) + 2],
                    a: self.bytes()[4 * (y * self.w() + x) + 3],
                },
            ),
            !self.in_bounds(x as int, y as int) ==> c is None,
    {
        if x < 0 || y < 0 || x >= self.width || y >= self.height {
            return None;
        }
        proof {
            lemma_cell_index(self.w(), self.h(), x as int, y as int, x as int, y as int);
            assert(4 * cell_index(self.w(), x as int, y as int) + 3 < self.bytes().len());
        }
        let idx: usize = ((y * self.width + x) * 4) as usize;
        Some(Color {
            r: self.pixels[idx],
            g: self.pixels[idx + 1],
            b: self.pixels[idx + 2],
            a: self.pixels[idx + 3],
        })
    }

    /// Writes `color` (fully opaque) at `(x, y)`; a point outside the frame is ignored.
    pub fn set_pixel(&mut self, x: i32, y: i32, color: Color)
        requires
            old(self).wf(),
        ensures
            final(self).wf(),
            final(self).w() == old(self).w(),
            final(self).h() == old(self).h(),
            forall|px: int, py: int|
                #![trigger final(self).pixel(px, py)]
                old(self).in_bounds(px, py) ==> final(self).pixel(px, py) == (
                if px == x && py == y { color.opaque() } else { old(self).pixel(px, py) }),
            old(self).in_bounds(x as int, y as int) ==> final(self).bytes() == old(self).bytes().update(
                4 * (y * old(self).w() + x),
                color.r,
            ).update(4 * (y * old(self).w() + x) + 1, color.g).update(
                4 * (y * old(self).w() + x) + 2,
                color.b,
            ).update(4 * (y * old(self).w() + x) + 3, 255u8),
            !old(self).in_bounds(x as int, y as int) ==> final(self).bytes() == old(self).bytes(),
    {
        if x < 0 || y < 0 || x >= self.width || y >= self.height {
            return;
        }
        let ghost before = self.pixels@;
        proof {
            lemma_cell_index(self.w(), self.h(), x as int, y as int, x as int, y as int);
        }
        let idx: usize = ((y * self.width + x) * 4) as usize;
        self.pixels.set(idx, color.r);
        self.pixels.set(idx + 1, color.g);
        self.pixels.set(idx + 2, color.b);
        self.pixels.set(idx + 3, 255);
        proof {
            assert forall|px: int, py: int| old(self).in_bounds(px, py) implies final(self).pixel(
                px,
                py,
            ) == (if px == x && py == y {
                color.opaque()
            } else {
                old(self).pixel(px, py)
            }) by {
                lemma_cell_index(self.w(), self.h(), x as int, y as int, px, py);
                lemma_cell_index(self.w(), self.h(), px, py, px, py);
                let j = 4 * cell_index(self.w(), px, py);
                assert(idx == 4 * cell_index(self.w(), x as int, y as int));
                if px != x || py != y {
                    assert(self.pixels@[j] == before[j]);
                    assert(self.pixels@[j + 1] == before[j + 1]);
                    assert(self.pixels@[j + 2] == before[j + 2]);
                    assert(self.pixels@[j + 3] == before[j + 3]);
                }
            }
        }
    }
    /// Draws the segment from `(x0, y0)` to `(x1, y1)` with Bresenham's algorithm;
    /// the pixels of the segment that fall outside the frame are skipped.
    pub fn draw_line(&mut self, x0: i32, y0: i32, x1: i32, y1: i32, color: Color)
        requires
            old(self).wf(),
            3 * abs(x1 - x0) <= i32::MAX,
            3 * abs(y1 - y0) <= i32::MAX,
        ensures
            final(self).wf(),
            final(self).w() == old(self).w(),
            final(self).h() == old(self).h(),
            forall|px: int, py: int|
                #![trigger final(self).pixel(px, py)]
                old(self).in_bounds(px, py) ==> final(self).pixel(px, py) == (
                if line_points(x0 as int, y0 as int, x1 as int, y1 as int).contains((px, py)) {
                    color.opaque()
                } else {
                    old(self).pixel(px, py)
                }),
    {
        let dx: i32 = if x1 - x0 < 0 { x0 - x1 } else { x1 - x0 };
        let dy: i32 = if y1 - y0 < 0 { y1 - y0 } else { y0 - y1 };
        let sx: i32 = if x0 < x1 { 1 } else { -1 };
        let sy: i32 = if y0 < y1 { 1 } else { -1 };
        let mut err: i32 = dx + dy;
        let mut x: i32 = x0;
        let mut y: i32 = y0;
        let ghost d = abs(x1 - x0);
        let ghost e = abs(y1 - y0);
        let ghost full = line_points(x0 as int, y0 as int, x1 as int, y1 as int);
        let ghost mut i: int = 0;
        let ghost mut j: int = 0;
        let ghost mut fuel: nat = (d + e) as nat;
        let ghost mut done: Seq<(int, int)> = Seq::empty();
        proof {
            assert(d * (1 + 0) - e * (1 + 0) == d - e) by (nonlinear_arith);
            assert(full == done + bresenham_walk(
                x as int,
                y as int,
                x1 as int,
                y1 as int,
                d,
                -e,
                sx as int,
                sy as int,
                err as int,
                fuel,
            ));
        }
        while !(x == x1 && y == y1)
            invariant
                self.wf(),
                self.w() == old(self).w(),
                self.h() == old(self).h(),
                d == abs(x1 - x0),
                e == abs(y1 - y0),
                dx == d,
                dy == -e,
                3 * d <= i32::MAX,
                3 * e <= i32::MAX,
                sx == step_toward(x0 as int, x1 as int),
                sy == step_toward(y0 as int, y1 as int),
                walk_state(x0 as int, y0 as int, x1 as int, y1 as int, x as int, y as int, err as int, i, j),
                fuel >= (d - i) + (e - j),
                full == line_points(x0 as int, y0 as int, x1 as int, y1 as int),
                full == done + bresenham_walk(
                    x as int,
                    y as int,
                    x1 as int,
                    y1 as int,
                    d,
                    -e,
                    sx as int,
                    sy as int,
                    err as int,
                    fuel,
                ),
                forall|px: int, py: int|
                    #![trigger self.pixel(px, py)]
                    old(self).in_bounds(px, py) ==> self.pixel(px, py) == (if done.contains((px, py)) {
                        color.opaque()
                    } else {
                        old(self).pixel(px, py)
                    }),
            decreases (d - i) + (e - j),
        {
            self.set_pixel(x, y, color);
            proof {
                lemma_walk_step(x0 as int, y0 as int, x1 as int, y1 as int, x as int, y as int, err as int, i, j);
                let old_done = done;
                done = done.push((x as int, y as int));
                assert forall|px: int, py: int| old(self).in_bounds(px, py) implies self.pixel(px, py) == (
                if done.contains((px, py)) {
                    color.opaque()
                } else {
                    old(self).pixel(px, py)
                }) by {
                    if old_done.contains((px, py)) {
                        let k = choose|k: int| 0 <= k < old_done.len() && old_done[k] == (px, py);
                        assert(done[k] == (px, py));
                    }
                    if done.contains((px, py)) && !(px == x && py == y) {
                        let k = choose|k: int| 0 <= k < done.len() && done[k] == (px, py);
                        assert(k < old_done.len());
                        assert(old_done[k] == (px, py));
                    }
                    if px == x && py == y {
                        assert(done[done.len() - 1] == (px, py));
                    }
                }
            }
            let ghost old_fuel = fuel;
            let ghost old_x = x as int;
            let ghost old_y = y as int;
            let ghost old_err = err as int;
            let e2: i32 = 2 * err;
            if e2 >= dy {
                err += dy;
                x += sx;
                proof {
                    i = i + 1;
                }
            }
            if e2 <= dx {
                err += dx;
                y += sy;
                proof {
                    j = j + 1;
                }
            }
            proof {
                fuel = (fuel - 1) as nat;
                let rest = bresenham_walk(
                    x as int,
                    y as int,
                    x1 as int,
                    y1 as int,
                    d,
                    -e,
                    sx as int,
                    sy as int,
                    err as int,
                    fuel,
                );
                assert(bresenham_walk(
                    old_x,
                    old_y,
                    x1 as int,
                    y1 as int,
                    d,
                    -e,
                    sx as int,
                    sy as int,
                    old_err,
                    old_fuel,
                ) == seq![(old_x, old_y)] + rest);
                assert(full == done + rest);
            }
        }
        self.set_pixel(x, y, color);
        proof {
            let old_done = done;
            done = done.push((x as int, y as int));
            assert(full == done);
            assert forall|px: int, py: int| old(self).in_bounds(px, py) implies self.pixel(px, py) == (
            if full.contains((px, py)) {
                color.opaque()
            } else {
                old(self).pixel(px, py)
            }) by {
                if old_done.contains((px, py)) {
                    let k = choose|k: int| 0 <= k < old_done.len() && old_done[k] == (px, py);
                    assert(done[k] == (px, py));
                }
                if done.contains((px, py)) && !(px == x && py == y) {
                    let k = choose|k: int| 0 <= k < done.len() && done[k] == (px, py);
                    assert(k < old_done.len());
                    assert(old_done[k] == (px, py));
                }
                if px == x && py == y {
                    assert(done[done.len() - 1] == (px, py));
                }
            }
        }
    }
    /// Fills the `w` by `h` rectangle whose top-left corner is `(x, y)`, clipped to the frame.
    pub fn fill_rect(&mut self, x: i32, y: i32, w: i32, h: i32, color: Color)
        requires
            old(self).wf(),
            i32::MIN <= x + w <= i32::MAX,
            i32::MIN <= y + h <= i32::MAX,
        ensures
            final(self).wf(),
            final(self).w() == old(self).w(),
            final(self).h() == old(self).h(),
            forall|px: int, py: int|
                #![trigger final(self).pixel(px, py)]
                old(self).in_bounds(px, py) ==> final(self).pixel(px, py) == (
                if in_rect(x as int, y as int, w as int, h as int, px, py) {
                    color.opaque()
                } else {
                    old(self).pixel(px, py)
                }),
    {
        let y_start: i32 = if y > 0 { y } else { 0 };
        let y_end: i32 = if y + h < self.height { y + h } else { self.height };
        let x_start: i32 = if x > 0 { x } else { 0 };
        let x_end: i32 = if x + w < self.width { x + w } else { self.width };
        let mut py: i32 = y_start;
        while py < y_end
            invariant
                self.wf(),
                self.w() == old(self).w(),
                self.h() == old(self).h(),
                y_start <= py,
                y_start == (if y > 0 { y } else { 0 }),
                y_end == (if y + h < self.h() { y + h } else { self.h() }),
                x_start == (if x > 0 { x } else { 0 }),
                x_end == (if x + w < self.w() { x + w } else { self.w() }),
                forall|qx: int, qy: int|
                    #![trigger self.pixel(qx, qy)]
                    old(self).in_bounds(qx, qy) ==> self.pixel(qx, qy) == (
                    if in_rect(x as int, y as int, w as int, h as int, qx, qy) && qy < py {
                        color.opaque()
                    } else {
                        old(self).pixel(qx, qy)
                    }),
            decreases y_end - py,
        {
            let mut px: i32 = x_start;
            while px < x_end
                invariant
                    self.wf(),
                    self.w() == old(self).w(),
                    self.h() == old(self).h(),
                    y_start <= py < y_end,
                    x_start <= px,
                    y_end == (if y + h < self.h() { y + h } else { self.h() }),
                    x_start == (if x > 0 { x } else { 0 }),
                    x_end == (if x + w < self.w() { x + w } else { self.w() }),
                    y_start == (if y > 0 { y } else { 0 }),
                    forall|qx: int, qy: int|
                        #![trigger self.pixel(qx, qy)]
                        old(self).in_bounds(qx, qy) ==> self.pixel(qx, qy) == (
                        if in_rect(x as int, y as int, w as int, h as int, qx, qy) && (qy < py || (qy
                            == py && qx < px)) {
                            color.opaque()
                        } else {
                            old(self).pixel(qx, qy)
                        }),
                decreases x_end - px,
            {
                self.set_pixel(px, py, color);
                px = px + 1;
            }
            py = py + 1;
        }
    }

    /// Fills the disc around `(cx, cy)` (see `in_disc`), clipped to the frame.
    pub fn draw_circle_filled(&mut self, cx: i32, cy: i32, radius: i32, color: Color)
        requires
            old(self).wf(),
            disc_arith_fits(old(self).w(), old(self).h(), cx as int, cy as int, radius as int),
        ensures
            final(self).wf(),
            final(self).w() == old(self).w(),
            final(self).h() == old(self).h(),
            forall|px: int, py: int|
                #![trigger final(self).pixel(px, py)]
                old(self).in_bounds(px, py) ==> final(self).pixel(px, py) == (
                if in_disc(cx as int, cy as int, radius as int, px, py) {
                    color.opaque()
                } else {
                    old(self).pixel(px, py)
                }),
    {
        proof {
            assert(0 <= radius * radius) by (nonlinear_arith);
        }
        let r2: i32 = radius * radius;
        let y_start: i32 = if cy - radius > 0 { cy - radius } else { 0 };
        let y_end: i32 = if cy + radius < self.height { cy + radius } else { self.height };
        let x_start: i32 = if cx - radius > 0 { cx - radius } else { 0 };
        let x_end: i32 = if cx + radius < self.width { cx + radius } else { self.width };
        let mut py: i32 = y_start;
        while py < y_end
            invariant
                self.wf(),
                self.w() == old(self).w(),
                self.h() == old(self).h(),
                r2 == radius * radius,
                disc_arith_fits(self.w(), self.h(), cx as int, cy as int, radius as int),
                y_start <= py,
                y_start == (if cy - radius > 0 { cy - radius } else { 0 }),
                y_end == (if cy + radius < self.h() { cy + radius } else { self.h() }),
                x_start == (if cx - radius > 0 { cx - radius } else { 0 }),
                x_end == (if cx + radius < self.w() { cx + radius } else { self.w() }),
                forall|qx: int, qy: int|
                    #![trigger self.pixel(qx, qy)]
                    old(self).in_bounds(qx, qy) ==> self.pixel(qx, qy) == (
                    if in_disc(cx as int, cy as int, radius as int, qx, qy) && qy < py {
                        color.opaque()
                    } else {
                        old(self).pixel(qx, qy)
                    }),
            decreases y_end - py,
        {
            let mut px: i32 = x_start;
            while px < x_end
                invariant
                    self.wf(),
                    self.w() == old(self).w(),
                    self.h() == old(self).h(),
                    r2 == radius * radius,
                    disc_arith_fits(self.w(), self.h(), cx as int, cy as int, radius as int),
                    y_start <= py < y_end,
                    x_start <= px,
                    y_start == (if cy - radius > 0 { cy - radius } else { 0 }),
                    y_end == (if cy + radius < self.h() { cy + radius } else { self.h() }),
                    x_start == (if cx - radius > 0 { cx - radius } else { 0 }),
                    x_end == (if cx + radius < self.w() { cx + radius } else { self.w() }),
                    forall|qx: int, qy: int|
                        #![trigger self.pixel(qx, qy)]
                        old(self).in_bounds(qx, qy) ==> self.pixel(qx, qy) == (
                        if in_disc(cx as int, cy as int, radius as int, qx, qy) && (qy < py || (qy
                            == py && qx < px)) {
                            color.opaque()
                        } else {
                            old(self).pixel(qx, qy)
                        }),
                decreases x_end - px,
            {
                let dx: i32 = px - cx;
                let dy: i32 = py - cy;
                proof {
                    assert(sq_dist(cx as int, cy as int, px as int, py as int) <= i32::MAX);
                    assert(0 <= dx * dx) by (nonlinear_arith);
                    assert(0 <= dy * dy) by (nonlinear_arith);
                }
                if dx * dx + dy * dy <= r2 {
                    self.set_pixel(px, py, color);
                }
                px = px + 1;
            }
            py = py + 1;
        }
    }

    /// The pixels of the disc around `(cx, cy)` (see `in_disc`) that lie in the frame,
    /// each once, row by row.
    pub fn disc_cells(&self, cx: i32, cy: i32, radius: i32) -> (cells: Vec<(i32, i32)>)
        requires
            self.wf(),
            disc_arith_fits(self.w(), self.h(), cx as int, cy as int, radius as int),
        ensures
            forall|px: i32, py: i32|
                cells@.contains((px, py)) <==> (self.in_bounds(px as int, py as int) && in_disc(
                    cx as int,
                    cy as int,
                    radius as int,
                    px as int,
                    py as int,
                )),
            forall|a: int, b: int|
                0 <= a < b < cells@.len() ==> cells@[a].1 < cells@[b].1 || (cells@[a].1
                    == cells@[b].1 && cells@[a].0 < cells@[b].0),
    {
        let mut cells: Vec<(i32, i32)> = Vec::new();
        proof {
            assert(0 <= radius * radius) by (nonlinear_arith);
        }
        let r2: i32 = radius * radius;
        let y_start: i32 = if cy - radius > 0 { cy - radius } else { 0 };
        let y_end: i32 = if cy + radius < self.height { cy + radius } else { self.height };
        let x_start: i32 = if cx - radius > 0 { cx - radius } else { 0 };
        let x_end: i32 = if cx + radius < self.width { cx + radius } else { self.width };
        let mut py: i32 = y_start;
        while py < y_end
            invariant
                self.wf(),
                r2 == radius * radius,
                disc_arith_fits(self.w(), self.h(), cx as int, cy as int, radius as int),
                y_start <= py,
                y_start == (if cy - radius > 0 { cy - radius } else { 0 }),
                y_end == (if cy + radius < self.h() { cy + radius } else { self.h() }),
                x_start == (if cx - radius > 0 { cx - radius } else { 0 }),
                x_end == (if cx + radius < self.w() { cx + radius } else { self.w() }),
                forall|qx: i32, qy: i32|
                    cells@.contains((qx, qy)) <==> (self.in_bounds(qx as int, qy as int) && in_disc(
                        cx as int,
                        cy as int,
                        radius as int,
                        qx as int,
                        qy as int,
                    ) && qy < py),
                forall|a: int, b: int|
                    0 <= a < b < cells@.len() ==> cells@[a].1 < cells@[b].1 || (cells@[a].1
                        == cells@[b].1 && cells@[a].0 < cells@[b].0),
                forall|a: int| 0 <= a < cells@.len() ==> cells@[a].1 < py,
            decreases y_end - py,
        {
            let mut px: i32 = x_start;
            while px < x_end
                invariant
                    self.wf(),
                    r2 == radius * radius,
                    disc_arith_fits(self.w(), self.h(), cx as int, cy as int, radius as int),
                    y_start <= py < y_end,
                    x_start <= px,
                    y_start == (if cy - radius > 0 { cy - radius } else { 0 }),
                    y_end == (if cy + radius < self.h() { cy + radius } else { self.h() }),
                    x_start == (if cx - radius > 0 { cx - radius } else { 0 }),
                    x_end == (if cx + radius < self.w() { cx + radius } else { self.w() }),
                    forall|qx: i32, qy: i32|
                        cells@.contains((qx, qy)) <==> (self.in_bounds(qx as int, qy as int)
                            && in_disc(cx as int, cy as int, radius as int, qx as int, qy as int) && (
                        qy < py || (qy == py && qx < px))),
                    forall|a: int, b: int|
                        0 <= a < b < cells@.len() ==> cells@[a].1 < cells@[b].1 || (cells@[a].1
                            == cells@[b].1 && cells@[a].0 < cells@[b].0),
                    forall|a: int|
                        0 <= a < cells@.len() ==> cells@[a].1 < py || (cells@[a].1 == py
                            && cells@[a].0 < px),
                decreases x_end - px,
            {
                let dx: i32 = px - cx;
                let dy: i32 = py - cy;
                proof {
                    assert(sq_dist(cx as int, cy as int, px as int, py as int) <= i32::MAX);
                    assert(0 <= dx * dx) by (nonlinear_arith);
                    assert(0 <= dy * dy) by (nonlinear_arith);
                }
                if dx * dx + dy * dy <= r2 {
                    let ghost before = cells@;
                    cells.push((px, py));
                    proof {
                        assert forall|qx: i32, qy: i32|
                            cells@.contains((qx, qy)) <==> (self.in_bounds(qx as int, qy as int)
                                && in_disc(cx as int, cy as int, radius as int, qx as int, qy as int)
                                && (qy < py || (qy == py && qx < px + 1))) by {
                            if before.contains((qx, qy)) {
                                let k = choose|k: int| 0 <= k < before.len() && before[k] == (qx, qy);
                                assert(cells@[k] == (qx, qy));
                            }
                            if cells@.contains((qx, qy)) && !(qx == px && qy == py) {
                                let k = choose|k: int| 0 <= k < cells@.len() && cells@[k] == (qx, qy);
                                assert(k < before.len());
                                assert(before[k] == (qx, qy));
                            }
                            if qx == px && qy == py {
                                assert(cells@[cells@.len() - 1] == (qx, qy));
                            }
                        }
                    }
                }
                px = px + 1;
            }
            py = py + 1;
        }
        cells
    }
}

} // verus!
