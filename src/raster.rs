use vstd::prelude::*;
use crate::{HEIGHT, WIDTH};

verus! {

/// Length in bytes of a frame buffer: four bytes (red, green, blue, alpha) per pixel.
pub const FRAME_LEN: usize = WIDTH * HEIGHT * 4;

/// Largest magnitude of a pixel coordinate handed to the rasterizer.
pub const PIXEL_LIMIT: i64 = 0x20_0000;

/// An RGBA color.
#[derive(Clone, Copy, PartialEq, Eq, Debug, Structural)]
pub struct Color {
    pub red: u8,
    pub green: u8,
    pub blue: u8,
    pub alpha: u8,
}

impl Color {
    pub fn new(red: u8, green: u8, blue: u8, alpha: u8) -> (r: Color)
        ensures
            r.red == red,
            r.green == green,
            r.blue == blue,
            r.alpha == alpha,
    {
        Color { red, green, blue, alpha }
    }
}

/// Opaque black, the color that `clear` fills the buffer with.
pub open spec fn black() -> Color {
    Color { red: 0, green: 0, blue: 0, alpha: 255 }
}

/// Pixel `p` (row-major index) of buffer `s` holds color `c`.
pub open spec fn pixel_is(s: Seq<u8>, p: int, c: Color) -> bool {
    &&& s[4 * p] == c.red
    &&& s[4 * p + 1] == c.green
    &&& s[4 * p + 2] == c.blue
    &&& s[4 * p + 3] == c.alpha
}

pub open spec fn in_frame(x: int, y: int) -> bool {
    0 <= x < WIDTH && 0 <= y < HEIGHT
}

/// The buffer after writing color `c` at pixel (x, y); off-frame writes change nothing.
pub open spec fn put(s: Seq<u8>, x: int, y: int, c: Color) -> Seq<u8> {
    if in_frame(x, y) {
        let i = 4 * (y * WIDTH + x);
        s.update(i, c.red).update(i + 1, c.green).update(i + 2, c.blue).update(i + 3, c.alpha)
    } else {
        s
    }
}

/// Writes color `c` at pixel (x, y) when it lies in the frame; otherwise does nothing.
pub fn set_pixel(x: i64, y: i64, c: Color, screen: &mut Vec<u8>)
    requires
        old(screen)@.len() == FRAME_LEN,
    ensures
        final(screen)@ == put(old(screen)@, x as int, y as int, c),
{
    if x >= 0 && y >= 0 && x < WIDTH as i64 && y < HEIGHT as i64 {
        let row: usize = y as usize;
        let col: usize = x as usize;
        assert(4 * (row * 800 + col) + 3 < 1920000) by (nonlinear_arith)
            requires
                row < 600,
                col < 800,
        ;
        let i: usize = 4 * (row * WIDTH + col);
        screen.set(i, c.red);
        screen.set(i + 1, c.green);
        screen.set(i + 2, c.blue);
        screen.set(i + 3, c.alpha);
    }
}

/// Fills every pixel of the buffer with opaque black.
pub fn clear(screen: &mut Vec<u8>)
    requires
        old(screen)@.len() == FRAME_LEN,
    ensures
        final(screen)@.len() == FRAME_LEN,
        forall|p: int| 0 <= p < WIDTH * HEIGHT ==> #[trigger] pixel_is(final(screen)@, p, black()),
{
    let c = Color::new(0, 0, 0, 255);
    let n: usize = WIDTH * HEIGHT;
    let mut p: usize = 0;
    while p < n
        invariant
            n == WIDTH * HEIGHT,
            p <= n,
            c == black(),
            screen@.len() == FRAME_LEN,
            forall|q: int| 0 <= q < p ==> #[trigger] pixel_is(screen@, q, c),
        decreases n - p,
    {
        let ghost prev = screen@;
        let i: usize = 4 * p;
        screen.set(i, c.red);
        screen.set(i + 1, c.green);
        screen.set(i + 2, c.blue);
        screen.set(i + 3, c.alpha);
        assert forall|q: int| 0 <= q < p + 1 implies #[trigger] pixel_is(screen@, q, c) by {
            if q < p {
                assert(pixel_is(prev, q, c));
                assert(4 * q + 3 < 4 * p);
            }
        }
        p = p + 1;
    }
}

/// A segment between two pixels.
pub struct Segment {
    pub x0: int,
    pub y0: int,
    pub x1: int,
    pub y1: int,
}

impl Segment {
    pub open spec fn dx(self) -> int {
        if self.x0 <= self.x1 { self.x1 - self.x0 } else { self.x0 - self.x1 }
    }

    pub open spec fn dy(self) -> int {
        if self.y0 <= self.y1 { self.y1 - self.y0 } else { self.y0 - self.y1 }
    }

    pub open spec fn sx(self) -> int {
        if self.x0 < self.x1 { 1 } else { -1 }
    }

    pub open spec fn sy(self) -> int {
        if self.y0 < self.y1 { 1 } else { -1 }
    }

    /// The integer line algorithm's state (x, y, err) after `k` steps.
    pub open spec fn state(self, k: nat) -> (int, int, int)
        decreases k,
    {
        if k == 0 {
            (self.x0, self.y0, self.dx() - self.dy())
        } else {
            let (x, y, err) = self.state((k - 1) as nat);
            let e2 = 2 * err;
            let (err1, x1) = if e2 > -self.dy() { (err - self.dy(), x + self.sx()) } else { (err, x) };
            let (err2, y1) = if e2 < self.dx() { (err1 + self.dx(), y + self.sy()) } else { (err1, y) };
            (x1, y1, err2)
        }
    }

    pub open spec fn at_end(self, k: nat) -> bool {
        self.state(k).0 == self.x1 && self.state(k).1 == self.y1
    }

    /// `k` is the first step at which the algorithm reaches the end pixel.
    pub open spec fn is_last(self, k: nat) -> bool {
        self.at_end(k) && forall|j: nat| j < k ==> !#[trigger] self.at_end(j)
    }

    /// The number of steps the algorithm takes from start to end pixel.
    pub open spec fn steps(self) -> nat {
        choose|k: nat| self.is_last(k)
    }

    /// Buffer `s` with the first `k` pixels of the segment's path written in color `c`.
    pub open spec fn paint(self, s: Seq<u8>, c: Color, k: nat) -> Seq<u8>
        decreases k,
    {
        if k == 0 {
            s
        } else {
            let st = self.state((k - 1) as nat);
            put(self.paint(s, c, (k - 1) as nat), st.0, st.1, c)
        }
    }
}

/// The buffer after drawing the segment from (x0, y0) to (x1, y1) in color `c`.
pub open spec fn line_spec(x0: int, y0: int, x1: int, y1: int, s: Seq<u8>, c: Color) -> Seq<u8> {
    let seg = Segment { x0, y0, x1, y1 };
    seg.paint(s, c, seg.steps() + 1)
}

pub open spec fn pixel_ok(p: (i64, i64)) -> bool {
    -PIXEL_LIMIT <= p.0 <= PIXEL_LIMIT && -PIXEL_LIMIT <= p.1 <= PIXEL_LIMIT
}

/// Draws the pixels from `start` to `end` with the integer-stepped (Bresenham)
/// algorithm, both ends included, clipping what falls outside the frame.
pub fn line(start: (i64, i64), end: (i64, i64), c: Color, screen: &mut Vec<u8>)
    requires
        old(screen)@.len() == FRAME_LEN,
        pixel_ok(start),
        pixel_ok(end),
    ensures
        final(screen)@.len() == FRAME_LEN,
        final(screen)@ == line_spec(
            start.0 as int,
            start.1 as int,
            end.0 as int,
            end.1 as int,
            old(screen)@,
            c,
        ),
{
    let ghost seg = Segment { x0: start.0 as int, y0: start.1 as int, x1: end.0 as int, y1: end.1 as int };
    let ghost s0 = screen@;
    let dx: i64 = if start.0 <= end.0 { end.0 - start.0 } else { start.0 - end.0 };
    let dy: i64 = if start.1 <= end.1 { end.1 - start.1 } else { start.1 - end.1 };
    let sx: i64 = if start.0 < end.0 { 1 } else { -1 };
    let sy: i64 = if start.1 < end.1 { 1 } else { -1 };
    let mut x: i64 = start.0;
    let mut y: i64 = start.1;
    let mut err: i64 = dx - dy;
    let ghost mut a: int = 0;
    let ghost mut b: int = 0;
    let ghost mut k: nat = 0;
    loop
        invariant_except_break
            screen@ == seg.paint(s0, c, k),
        invariant
            seg == (Segment { x0: start.0 as int, y0: start.1 as int, x1: end.0 as int, y1: end.1 as int }),
            pixel_ok(start),
            pixel_ok(end),
            screen@.len() == FRAME_LEN,
            dx == seg.dx(),
            dy == seg.dy(),
            sx == seg.sx(),
            sy == seg.sy(),
            0 <= dx <= 2 * PIXEL_LIMIT,
            0 <= dy <= 2 * PIXEL_LIMIT,
            0 <= a <= dx,
            0 <= b <= dy,
            sx == 1 ==> x == seg.x0 + a,
            sx == -1 ==> x == seg.x0 - a,
            sy == 1 ==> y == seg.y0 + b,
            sy == -1 ==> y == seg.y0 - b,
            err == dx - dy - a * dy + b * dx,
            seg.state(k) == (x as int, y as int, err as int),
            forall|j: nat| j < k ==> !#[trigger] seg.at_end(j),
        ensures
            screen@ == seg.paint(s0, c, seg.steps() + 1),
        decreases (dx - a) + (dy - b),
    {
        set_pixel(x, y, c, screen);
        assert(screen@ == seg.paint(s0, c, k + 1));
        assert((x == end.0) <==> (a == dx));
        assert((y == end.1) <==> (b == dy));
        if x == end.0 && y == end.1 {
            proof {
                assert(seg.is_last(k));
                let kk = seg.steps();
                assert(seg.is_last(kk));
                if kk < k {
                    assert(!seg.at_end(kk));
                } else if kk > k {
                    assert(!seg.at_end(k));
                }
                assert(kk == k);
            }
            break;
        }
        proof {
            lemma_step_bounds(dx as int, dy as int, a, b);
        }
        let e2: i64 = 2 * err;
        if e2 > -dy {
            err = err - dy;
            x = x + sx;
            proof {
                assert((a + 1) * dy == a * dy + dy) by (nonlinear_arith);
                a = a + 1;
            }
        }
        if e2 < dx {
            err = err + dx;
            y = y + sy;
            proof {
                assert((b + 1) * dx == b * dx + dx) by (nonlinear_arith);
                b = b + 1;
            }
        }
        proof {
            k = k + 1;
        }
    }
}

/// What the loop of `line` relies on: with the error term tied to the steps taken,
/// no coordinate overshoots its end and, short of the end, one of them advances.
proof fn lemma_step_bounds(dx: int, dy: int, a: int, b: int)
    requires
        0 <= dx <= 2 * PIXEL_LIMIT,
        0 <= dy <= 2 * PIXEL_LIMIT,
        0 <= a <= dx,
        0 <= b <= dy,
        !(a == dx && b == dy),
    ensures
        ({
            let err = dx - dy - a * dy + b * dx;
            &&& a == dx ==> 2 * err <= -dy
            &&& b == dy ==> 2 * err >= dx
            &&& (2 * err > -dy || 2 * err < dx)
            &&& -0x100_0000_0000_0000 <= 2 * err <= 0x100_0000_0000_0000
        }),
{
    assert(0 <= a * dy <= dx * dy) by (nonlinear_arith)
        requires 0 <= a <= dx, 0 <= dy;
    assert(0 <= b * dx <= dy * dx) by (nonlinear_arith)
        requires 0 <= b <= dy, 0 <= dx;
    assert(dx * dy <= 0x40_0000 * 0x40_0000) by (nonlinear_arith)
        requires 0 <= dx <= 0x40_0000, 0 <= dy <= 0x40_0000;
    if a == dx {
        assert(dx * (1 + b - dy) <= 0) by (nonlinear_arith)
            requires 0 <= dx, b < dy;
        assert(dx - dy - a * dy + b * dx == dx * (1 + b - dy) - dy) by (nonlinear_arith)
            requires a == dx;
    }
    if b == dy {
        assert(dy * (dx - a - 1) >= 0) by (nonlinear_arith)
            requires 0 <= dy, a < dx;
        assert(dx - dy - a * dy + b * dx == dx + dy * (dx - a - 1)) by (nonlinear_arith)
            requires b == dy;
    }
}

} // verus!
