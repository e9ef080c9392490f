use vstd::prelude::*;
use vstd::math::abs;
use crate::algebra::{coord_ok, mul_x, mul_y, Matrix, Vertex, ONE};
use crate::figure::{
    about, about_all, about_ok, all_wf, at_radius, centroid, drawn, ring_distances, ring_within, shifted, sum_x, sum_y,
};
use crate::raster::{black, in_frame, pixel_is, put, Color, FRAME_LEN};
use crate::{HEIGHT, WIDTH};

verus! {

/// Rotating with cosine one and sine zero (the rotation by no angle) leaves
/// every vertex where it was, whatever the pivot.
pub proof fn lemma_rotate_identity(s: Seq<Vertex>, p: Vertex)
    requires
        all_wf(s),
        p.wf(),
    ensures
        about_ok(s, p, Matrix::rotation_spec(ONE, 0)),
        about_all(s, p, Matrix::rotation_spec(ONE, 0)) == s,
{
    let m = Matrix::rotation_spec(ONE, 0);
    assert forall|i: int| 0 <= i < s.len() implies #[trigger] mul_x(s[i].x - p.x, s[i].y - p.y, m) == s[i].x - p.x
        && mul_y(s[i].x - p.x, s[i].y - p.y, m) == s[i].y - p.y
        && coord_ok(mul_x(s[i].x - p.x, s[i].y - p.y, m) + p.x)
        && coord_ok(mul_y(s[i].x - p.x, s[i].y - p.y, m) + p.y) by {
        let a = s[i].x - p.x;
        let b = s[i].y - p.y;
        let o = ONE as int;
        assert(a * o + b * 0 + o * 0 == o * a) by (nonlinear_arith);
        assert(a * 0 + b * o + o * 0 == o * b) by (nonlinear_arith);
        vstd::arithmetic::div_mod::lemma_div_multiples_vanish(a, o);
        vstd::arithmetic::div_mod::lemma_div_multiples_vanish(b, o);
        assert(s[i].wf());
    }
    assert(about_all(s, p, m) =~= s);
}

/// Translating by (a, b) and then by (c, d) moves every vertex as translating
/// once by (a + c, b + d).
pub proof fn lemma_translate_additive(s: Seq<Vertex>, a: int, b: int, c: int, d: int)
    requires
        forall|i: int|
            0 <= i < s.len() ==> coord_ok(#[trigger] s[i].x + a) && coord_ok(s[i].y + b)
                && coord_ok(s[i].x + a + c) && coord_ok(s[i].y + b + d),
    ensures
        shifted(shifted(s, a, b), c, d) == shifted(s, a + c, b + d),
{
    assert(shifted(shifted(s, a, b), c, d) =~= shifted(s, a + c, b + d));
}

/// The linear map of `m` summed over `t`, measured from pivot `p`, when each
/// vertex's image is exact (no rounding).
proof fn lemma_sum_about(t: Seq<Vertex>, p: Vertex, m: Matrix)
    requires
        m.m02 == 0,
        m.m12 == 0,
        about_ok(t, p, m),
        forall|i: int|
            0 <= i < t.len() ==> #[trigger] exact_image(t[i], p, m),
    ensures
        ONE * (sum_x(about_all(t, p, m)) - t.len() * p.x) == m.m00 * (sum_x(t) - t.len() * p.x) + m.m01 * (sum_y(t) - t.len() * p.y),
        ONE * (sum_y(about_all(t, p, m)) - t.len() * p.y) == m.m10 * (sum_x(t) - t.len() * p.x) + m.m11 * (sum_y(t) - t.len() * p.y),
    decreases t.len(),
{
    if t.len() > 0 {
        let u = t.drop_last();
        let v = t.last();
        let k = t.len() as int;
        assert(about_all(t, p, m).drop_last() =~= about_all(u, p, m));
        assert(exact_image(t[k - 1], p, m));
        assert forall|i: int| 0 <= i < u.len() implies #[trigger] exact_image(u[i], p, m) by {
            assert(u[i] == t[i]);
            assert(exact_image(t[i], p, m));
        }
        assert(coord_ok(mul_x(t[k - 1].x - p.x, t[k - 1].y - p.y, m) + p.x));
        lemma_sum_about(u, p, m);
        let w = about(v, p, m);
        let ax = (v.x - p.x) * m.m00 + (v.y - p.y) * m.m01;
        let ay = (v.x - p.x) * m.m10 + (v.y - p.y) * m.m11;
        vstd::arithmetic::div_mod::lemma_fundamental_div_mod(ax, ONE as int);
        vstd::arithmetic::div_mod::lemma_fundamental_div_mod(ay, ONE as int);
        assert(ONE * (w.x - p.x) == ax);
        assert(ONE * (w.y - p.y) == ay);
        let sx = sum_x(u);
        let sy = sum_y(u);
        assert(about_all(t, p, m).last() == w);
        assert(sum_x(about_all(t, p, m)) == sum_x(about_all(u, p, m)) + w.x);
        assert(sum_y(about_all(t, p, m)) == sum_y(about_all(u, p, m)) + w.y);
        assert(sum_x(t) == sx + v.x);
        assert(sum_y(t) == sy + v.y);
        assert(m.m00 * (sx + v.x - k * p.x) + m.m01 * (sy + v.y - k * p.y) == m.m00 * (sx - (k - 1) * p.x) + m.m01 * (sy - (k - 1) * p.y) + ax) by (nonlinear_arith)
            requires ax == (v.x - p.x) * m.m00 + (v.y - p.y) * m.m01;
        assert(m.m10 * (sx + v.x - k * p.x) + m.m11 * (sy + v.y - k * p.y) == m.m10 * (sx - (k - 1) * p.x) + m.m11 * (sy - (k - 1) * p.y) + ay) by (nonlinear_arith)
            requires ay == (v.x - p.x) * m.m10 + (v.y - p.y) * m.m11;
        assert(k * p.x == (k - 1) * p.x + p.x) by (nonlinear_arith);
        assert(k * p.y == (k - 1) * p.y + p.y) by (nonlinear_arith);
        assert(u.len() == k - 1);
        let sxp = sum_x(about_all(u, p, m));
        let syp = sum_y(about_all(u, p, m));
        let o = ONE as int;
        assert(o * (sxp + w.x - k * p.x) == m.m00 * (sx + v.x - k * p.x) + m.m01 * (sy + v.y - k * p.y)) by (nonlinear_arith)
            requires
                o * (sxp - (k - 1) * p.x) == m.m00 * (sx - (k - 1) * p.x) + m.m01 * (sy - (k - 1) * p.y),
                o * (w.x - p.x) == ax,
                m.m00 * (sx + v.x - k * p.x) + m.m01 * (sy + v.y - k * p.y) == m.m00 * (sx - (k - 1) * p.x) + m.m01 * (sy - (k - 1) * p.y) + ax,
                k * p.x == (k - 1) * p.x + p.x,
        ;
        assert(o * (syp + w.y - k * p.y) == m.m10 * (sx + v.x - k * p.x) + m.m11 * (sy + v.y - k * p.y)) by (nonlinear_arith)
            requires
                o * (syp - (k - 1) * p.y) == m.m10 * (sx - (k - 1) * p.x) + m.m11 * (sy - (k - 1) * p.y),
                o * (w.y - p.y) == ay,
                m.m10 * (sx + v.x - k * p.x) + m.m11 * (sy + v.y - k * p.y) == m.m10 * (sx - (k - 1) * p.x) + m.m11 * (sy - (k - 1) * p.y) + ay,
                k * p.y == (k - 1) * p.y + p.y,
        ;
        assert(sum_x(about_all(t, p, m)) == sxp + w.x);
        assert(t.len() * p.x == k * p.x);
        assert(ONE * (sum_x(about_all(t, p, m)) - t.len() * p.x) == o * (sxp + w.x - k * p.x));
    } else {
        assert(about_all(t, p, m).len() == 0);
        assert(sum_x(t) == 0 && sum_y(t) == 0);
        assert(sum_x(about_all(t, p, m)) == 0 && sum_y(about_all(t, p, m)) == 0);
        assert(t.len() * p.x == 0 && t.len() * p.y == 0);
    }
}

/// The image of `v` under `m` about `p` needs no rounding.
pub open spec fn exact_image(v: Vertex, p: Vertex, m: Matrix) -> bool {
    &&& ((v.x - p.x) * m.m00 + (v.y - p.y) * m.m01) % (ONE as int) == 0
    &&& ((v.x - p.x) * m.m10 + (v.y - p.y) * m.m11) % (ONE as int) == 0
}

/// A linear map (a scaling or a rotation) applied about the centroid keeps the
/// centroid where it was, when the centroid and every image are exact in
/// fixed point (rounding can otherwise shift the mean by a unit).
pub proof fn lemma_centroid_fixed(s: Seq<Vertex>, m: Matrix)
    requires
        all_wf(s),
        s.len() > 0,
        m.m02 == 0,
        m.m12 == 0,
        about_ok(s, centroid(s), m),
        sum_x(s) % (s.len() as int) == 0,
        sum_y(s) % (s.len() as int) == 0,
        forall|i: int| 0 <= i < s.len() ==> #[trigger] exact_image(s[i], centroid(s), m),
    ensures
        centroid(about_all(s, centroid(s), m)) == centroid(s),
{
    let c = centroid(s);
    let n = s.len() as int;
    crate::figure::lemma_centroid_wf(s);
    vstd::arithmetic::div_mod::lemma_fundamental_div_mod(sum_x(s), n);
    vstd::arithmetic::div_mod::lemma_fundamental_div_mod(sum_y(s), n);
    assert(sum_x(s) == n * c.x);
    assert(sum_y(s) == n * c.y);
    lemma_sum_about(s, c, m);
    let t = about_all(s, c, m);
    assert(m.m00 * 0 + m.m01 * 0 == 0);
    assert(m.m10 * 0 + m.m11 * 0 == 0);
    assert(sum_x(t) == n * c.x);
    assert(sum_y(t) == n * c.y);
    vstd::arithmetic::div_mod::lemma_div_multiples_vanish(c.x as int, n);
    vstd::arithmetic::div_mod::lemma_div_multiples_vanish(c.y as int, n);
}

/// Two frame buffers that were both just cleared hold the same bytes, so
/// drawing one figure into each gives byte-identical buffers.
pub proof fn lemma_draw_deterministic(s: Seq<Vertex>, b1: Seq<u8>, b2: Seq<u8>, c: Color)
    requires
        b1.len() == FRAME_LEN,
        b2.len() == FRAME_LEN,
        forall|p: int| 0 <= p < WIDTH * HEIGHT ==> #[trigger] pixel_is(b1, p, black()),
        forall|p: int| 0 <= p < WIDTH * HEIGHT ==> #[trigger] pixel_is(b2, p, black()),
    ensures
        drawn(s, s.len() as nat, b1, c) == drawn(s, s.len() as nat, b2, c),
{
    assert forall|i: int| 0 <= i < b1.len() implies b1[i] == b2[i] by {
        let p = i / 4;
        vstd::arithmetic::div_mod::lemma_fundamental_div_mod(i, 4);
        assert(0 <= p < WIDTH * HEIGHT);
        assert(pixel_is(b1, p, black()));
        assert(pixel_is(b2, p, black()));
    }
    assert(b1 =~= b2);
}

/// After a push or pop, whose vertices lie as far from the kept center as the
/// ring's offsets are long, a ring whose offsets all have length `radius`
/// (squared, within `tol`) puts every vertex at that radius from the center.
pub proof fn lemma_ring_radius(s: Seq<Vertex>, center: Vertex, ring: Seq<Vertex>, radius: int, tol: int)
    requires
        ring_distances(s, center, ring),
        ring_within(ring, radius, tol),
    ensures
        at_radius(s, center, radius, tol),
{
    assert forall|i: int| 0 <= i < s.len() implies -tol <= #[trigger] crate::figure::dist2(s[i], center.x as int, center.y as int) - radius * radius <= tol by {
        assert(-tol <= crate::figure::len2(ring[i]) - radius * radius <= tol);
    }
}

/// Summed over `t`, each image under the linear map of `m` about `p` rounds
/// down by less than one unit.
proof fn lemma_sum_about_bounds(t: Seq<Vertex>, p: Vertex, m: Matrix)
    requires
        m.m02 == 0,
        m.m12 == 0,
        about_ok(t, p, m),
    ensures
        ({
            let dx = sum_x(about_all(t, p, m)) - t.len() * p.x;
            let ex = m.m00 * (sum_x(t) - t.len() * p.x) + m.m01 * (sum_y(t) - t.len() * p.y);
            ONE * dx <= ex <= ONE * dx + t.len() * (ONE - 1)
        }),
        ({
            let dy = sum_y(about_all(t, p, m)) - t.len() * p.y;
            let ey = m.m10 * (sum_x(t) - t.len() * p.x) + m.m11 * (sum_y(t) - t.len() * p.y);
            ONE * dy <= ey <= ONE * dy + t.len() * (ONE - 1)
        }),
    decreases t.len(),
{
    if t.len() > 0 {
        let u = t.drop_last();
        let v = t.last();
        let k = t.len() as int;
        let o = ONE as int;
        assert(about_all(t, p, m).drop_last() =~= about_all(u, p, m));
        assert(coord_ok(mul_x(t[k - 1].x - p.x, t[k - 1].y - p.y, m) + p.x));
        lemma_sum_about_bounds(u, p, m);
        let w = about(v, p, m);
        let ax = (v.x - p.x) * m.m00 + (v.y - p.y) * m.m01;
        let ay = (v.x - p.x) * m.m10 + (v.y - p.y) * m.m11;
        vstd::arithmetic::div_mod::lemma_fundamental_div_mod(ax, o);
        vstd::arithmetic::div_mod::lemma_fundamental_div_mod(ay, o);
        vstd::arithmetic::div_mod::lemma_mod_bound(ax, o);
        vstd::arithmetic::div_mod::lemma_mod_bound(ay, o);
        assert(o * (w.x - p.x) <= ax < o * (w.x - p.x) + o);
        assert(o * (w.y - p.y) <= ay < o * (w.y - p.y) + o);
        assert(about_all(t, p, m).last() == w);
        let sx = sum_x(u);
        let sy = sum_y(u);
        let sxp = sum_x(about_all(u, p, m));
        let syp = sum_y(about_all(u, p, m));
        assert(sum_x(about_all(t, p, m)) == sxp + w.x);
        assert(sum_y(about_all(t, p, m)) == syp + w.y);
        assert(sum_x(t) == sx + v.x);
        assert(sum_y(t) == sy + v.y);
        assert(u.len() == k - 1);
        let ex0 = m.m00 * (sx - (k - 1) * p.x) + m.m01 * (sy - (k - 1) * p.y);
        let ey0 = m.m10 * (sx - (k - 1) * p.x) + m.m11 * (sy - (k - 1) * p.y);
        assert(m.m00 * (sx + v.x - k * p.x) + m.m01 * (sy + v.y - k * p.y) == ex0 + ax) by (nonlinear_arith)
            requires
                ax == (v.x - p.x) * m.m00 + (v.y - p.y) * m.m01,
                ex0 == m.m00 * (sx - (k - 1) * p.x) + m.m01 * (sy - (k - 1) * p.y),
        ;
        assert(m.m10 * (sx + v.x - k * p.x) + m.m11 * (sy + v.y - k * p.y) == ey0 + ay) by (nonlinear_arith)
            requires
                ay == (v.x - p.x) * m.m10 + (v.y - p.y) * m.m11,
                ey0 == m.m10 * (sx - (k - 1) * p.x) + m.m11 * (sy - (k - 1) * p.y),
        ;
        assert(k * p.x == (k - 1) * p.x + p.x) by (nonlinear_arith);
        assert(k * p.y == (k - 1) * p.y + p.y) by (nonlinear_arith);
        assert(k * (o - 1) == (k - 1) * (o - 1) + (o - 1)) by (nonlinear_arith);
        assert(t.len() * p.x == k * p.x);
        assert(t.len() * p.y == k * p.y);
        assert(t.len() * (o - 1) == k * (o - 1));
        let dx1 = sxp - (k - 1) * p.x;
        let dy1 = syp - (k - 1) * p.y;
        assert(o * dx1 <= ex0 <= o * dx1 + (k - 1) * (o - 1));
        assert(o * dy1 <= ey0 <= o * dy1 + (k - 1) * (o - 1));
        let dx = sxp + w.x - k * p.x;
        let dy = syp + w.y - k * p.y;
        assert(dx == dx1 + (w.x - p.x));
        assert(dy == dy1 + (w.y - p.y));
        assert(o * dx <= ex0 + ax <= o * dx + k * (o - 1)) by (nonlinear_arith)
            requires
                o * dx1 <= ex0 <= o * dx1 + (k - 1) * (o - 1),
                o * (w.x - p.x) <= ax < o * (w.x - p.x) + o,
                dx == dx1 + (w.x - p.x),
                k * (o - 1) == (k - 1) * (o - 1) + (o - 1),
        ;
        assert(o * dy <= ey0 + ay <= o * dy + k * (o - 1)) by (nonlinear_arith)
            requires
                o * dy1 <= ey0 <= o * dy1 + (k - 1) * (o - 1),
                o * (w.y - p.y) <= ay < o * (w.y - p.y) + o,
                dy == dy1 + (w.y - p.y),
                k * (o - 1) == (k - 1) * (o - 1) + (o - 1),
        ;
        let ex = m.m00 * (sum_x(t) - t.len() * p.x) + m.m01 * (sum_y(t) - t.len() * p.y);
        let ey = m.m10 * (sum_x(t) - t.len() * p.x) + m.m11 * (sum_y(t) - t.len() * p.y);
        assert(sum_x(t) - t.len() * p.x == sx + v.x - k * p.x);
        assert(sum_y(t) - t.len() * p.y == sy + v.y - k * p.y);
        assert(ex == ex0 + ax);
        assert(ey == ey0 + ay);
        assert(sum_x(about_all(t, p, m)) - t.len() * p.x == dx);
        assert(sum_y(about_all(t, p, m)) - t.len() * p.y == dy);
        assert(ONE * dx <= ex <= ONE * dx + t.len() * (ONE - 1));
        assert(ONE * dy <= ey <= ONE * dy + t.len() * (ONE - 1));
    } else {
        assert(about_all(t, p, m).len() == 0);
        assert(sum_x(t) == 0 && sum_y(t) == 0);
        assert(sum_x(about_all(t, p, m)) == 0 && sum_y(about_all(t, p, m)) == 0);
        assert(t.len() * p.x == 0 && t.len() * p.y == 0 && t.len() * (ONE - 1) == 0);
    }
}

/// A linear map (a scaling or a rotation) applied about the centroid moves the
/// centroid by little: each coordinate moves by at most `(|a| + |b|) / ONE + 2`
/// fixed-point units, where `a` and `b` are the coefficients of its row of the
/// matrix (for a scaling by two, three units out of `ONE` per pixel).
pub proof fn lemma_centroid_nearly_fixed(s: Seq<Vertex>, m: Matrix)
    requires
        all_wf(s),
        s.len() > 0,
        m.wf(),
        m.m02 == 0,
        m.m12 == 0,
        about_ok(s, centroid(s), m),
    ensures
        ({
            let c = centroid(s);
            let d = centroid(about_all(s, c, m));
            let bx = abs(m.m00 as int) + abs(m.m01 as int);
            let by = abs(m.m10 as int) + abs(m.m11 as int);
            &&& -(bx + 2 * ONE) < ONE * (d.x - c.x) <= bx
            &&& -(by + 2 * ONE) < ONE * (d.y - c.y) <= by
        }),
{
    let c = centroid(s);
    let n = s.len() as int;
    let o = ONE as int;
    let t = about_all(s, c, m);
    crate::figure::lemma_centroid_wf(s);
    lemma_sum_about_bounds(s, c, m);
    lemma_about_wf(s, c, m);
    crate::figure::lemma_centroid_wf(t);
    vstd::arithmetic::div_mod::lemma_fundamental_div_mod(sum_x(s), n);
    vstd::arithmetic::div_mod::lemma_fundamental_div_mod(sum_y(s), n);
    vstd::arithmetic::div_mod::lemma_mod_bound(sum_x(s), n);
    vstd::arithmetic::div_mod::lemma_mod_bound(sum_y(s), n);
    vstd::arithmetic::div_mod::lemma_fundamental_div_mod(sum_x(t), n);
    vstd::arithmetic::div_mod::lemma_fundamental_div_mod(sum_y(t), n);
    vstd::arithmetic::div_mod::lemma_mod_bound(sum_x(t), n);
    vstd::arithmetic::div_mod::lemma_mod_bound(sum_y(t), n);
    let rx = sum_x(s) - n * c.x;
    let ry = sum_y(s) - n * c.y;
    let dxs = sum_x(t) - n * c.x;
    let dys = sum_y(t) - n * c.y;
    let kx = centroid(t).x - c.x;
    let ky = centroid(t).y - c.y;
    assert(0 <= rx < n && 0 <= ry < n);
    assert(n * kx <= dxs < n * kx + n) by (nonlinear_arith)
        requires
            n * centroid(t).x <= sum_x(t) < n * centroid(t).x + n,
            kx == centroid(t).x - c.x,
            dxs == sum_x(t) - n * c.x,
    ;
    assert(n * ky <= dys < n * ky + n) by (nonlinear_arith)
        requires
            n * centroid(t).y <= sum_y(t) < n * centroid(t).y + n,
            ky == centroid(t).y - c.y,
            dys == sum_y(t) - n * c.y,
    ;
    lemma_row_bound(m.m00 as int, m.m01 as int, rx, ry, n, o, dxs, kx);
    lemma_row_bound(m.m10 as int, m.m11 as int, rx, ry, n, o, dys, ky);
}

/// The arithmetic behind the centroid bound, for one row of the matrix.
proof fn lemma_row_bound(a: int, b: int, rx: int, ry: int, n: int, o: int, d: int, k: int)
    requires
        n > 0,
        o > 0,
        0 <= rx < n,
        0 <= ry < n,
        o * d <= a * rx + b * ry <= o * d + n * (o - 1),
        n * k <= d < n * k + n,
    ensures
        -(abs(a) + abs(b) + 2 * o) < o * k <= abs(a) + abs(b),
{
    let bb = abs(a) + abs(b);
    assert(n * (o - 1) < n * o) by (nonlinear_arith)
        requires n > 0;
    assert(-(bb * n) <= a * rx + b * ry <= bb * n) by (nonlinear_arith)
        requires
            0 <= rx < n,
            0 <= ry < n,
            bb == abs(a) + abs(b),
    ;
    assert(o * k <= bb) by (nonlinear_arith)
        requires
            n > 0,
            o > 0,
            n * k <= d,
            o * d <= bb * n,
    ;
    assert(-(bb + 2 * o) < o * k) by (nonlinear_arith)
        requires
            n > 0,
            o > 0,
            d < n * k + n,
            -(bb * n) < o * d + n * o,
    ;
}

/// Images that stay in bounds form a figure that stays in bounds.
proof fn lemma_about_wf(s: Seq<Vertex>, p: Vertex, m: Matrix)
    requires
        about_ok(s, p, m),
    ensures
        all_wf(about_all(s, p, m)),
        about_all(s, p, m).len() == s.len(),
{
    assert forall|i: int| 0 <= i < about_all(s, p, m).len() implies #[trigger] about_all(s, p, m)[i].wf() by {
        assert(coord_ok(mul_x(s[i].x - p.x, s[i].y - p.y, m) + p.x));
    }
}

/// Writing a pixel never changes the buffer's length; off the frame it changes
/// nothing, and on it only the four bytes of that pixel.
pub proof fn lemma_clipping(s: Seq<u8>, x: int, y: int, c: Color)
    requires
        s.len() == FRAME_LEN,
    ensures
        put(s, x, y, c).len() == s.len(),
        !in_frame(x, y) ==> put(s, x, y, c) == s,
        in_frame(x, y) ==> forall|i: int|
            0 <= i < s.len() && !(4 * (y * WIDTH + x) <= i < 4 * (y * WIDTH + x) + 4)
                ==> #[trigger] put(s, x, y, c)[i] == s[i],
{
    if in_frame(x, y) {
        assert(4 * (y * 800 + x) + 3 < 1920000) by (nonlinear_arith)
            requires
                0 <= y < 600,
                0 <= x < 800,
        ;
        assert(0 <= 4 * (y * 800 + x)) by (nonlinear_arith)
            requires
                0 <= y < 600,
                0 <= x < 800,
        ;
    }
}

} // verus!
