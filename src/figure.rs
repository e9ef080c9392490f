use vstd::prelude::*;
use crate::algebra::{coef_ok, coord_ok, floor_div_by, lemma_pixel_bound, mul_x, mul_y, pixel_of, Matrix, Vertex, COORD_LIMIT, ONE};
use crate::raster::{line, line_spec, Color, FRAME_LEN};

verus! {

/// Hit-test result meaning "no vertex is nearer than the centroid".
pub const NO_VERTEX: isize = -1;

/// Sum of the x coordinates of `s`.
pub open spec fn sum_x(s: Seq<Vertex>) -> int
    decreases s.len(),
{
    if s.len() == 0 { 0 } else { sum_x(s.drop_last()) + s.last().x }
}

/// Sum of the y coordinates of `s`.
pub open spec fn sum_y(s: Seq<Vertex>) -> int
    decreases s.len(),
{
    if s.len() == 0 { 0 } else { sum_y(s.drop_last()) + s.last().y }
}

/// Arithmetic mean of the vertices, each coordinate rounded down to a fixed-point unit.
pub open spec fn centroid(s: Seq<Vertex>) -> Vertex {
    Vertex { x: (sum_x(s) / s.len() as int) as i64, y: (sum_y(s) / s.len() as int) as i64 }
}

pub open spec fn all_wf(s: Seq<Vertex>) -> bool {
    forall|i: int| 0 <= i < s.len() ==> #[trigger] s[i].wf()
}

/// `v` moved to pivot-relative space, multiplied by `m`, and moved back.
pub open spec fn about(v: Vertex, p: Vertex, m: Matrix) -> Vertex {
    Vertex {
        x: (mul_x(v.x - p.x, v.y - p.y, m) + p.x) as i64,
        y: (mul_y(v.x - p.x, v.y - p.y, m) + p.y) as i64,
    }
}

/// Every vertex of `s`, transformed about `p`, stays within the coordinate bound.
pub open spec fn about_ok(s: Seq<Vertex>, p: Vertex, m: Matrix) -> bool {
    forall|i: int|
        0 <= i < s.len() ==> coord_ok(#[trigger] mul_x(s[i].x - p.x, s[i].y - p.y, m) + p.x)
            && coord_ok(mul_y(s[i].x - p.x, s[i].y - p.y, m) + p.y)
}

pub open spec fn about_all(s: Seq<Vertex>, p: Vertex, m: Matrix) -> Seq<Vertex> {
    s.map_values(|v: Vertex| about(v, p, m))
}

/// Every vertex of `s` moved by (tx, ty).
pub open spec fn shifted(s: Seq<Vertex>, tx: int, ty: int) -> Seq<Vertex> {
    s.map_values(|v: Vertex| Vertex { x: (v.x + tx) as i64, y: (v.y + ty) as i64 })
}

/// Every vertex of `s`, moved by (tx, ty), stays within the coordinate bound.
pub open spec fn shift_ok(s: Seq<Vertex>, tx: int, ty: int) -> bool {
    forall|i: int| 0 <= i < s.len() ==> coord_ok(#[trigger] s[i].x + tx) && coord_ok(s[i].y + ty)
}

/// Pivot of a rotation: the vertex at `origin` when it names one, else the centroid.
pub open spec fn pivot_of(s: Seq<Vertex>, origin: int) -> Vertex {
    if 0 <= origin < s.len() { s[origin] } else { centroid(s) }
}

/// Squared distance between `v` and the point (px, py).
pub open spec fn dist2(v: Vertex, px: int, py: int) -> int {
    (v.x - px) * (v.x - px) + (v.y - py) * (v.y - py)
}

/// Every vertex sits at `center` plus the matching offset of `ring`.
pub open spec fn on_ring(s: Seq<Vertex>, center: Vertex, ring: Seq<Vertex>) -> bool {
    &&& s.len() == ring.len()
    &&& forall|i: int|
        0 <= i < s.len() ==> (#[trigger] s[i]).x == center.x + ring[i].x && s[i].y == center.y
            + ring[i].y
}

/// Squared length of an offset.
pub open spec fn len2(v: Vertex) -> int {
    v.x * v.x + v.y * v.y
}

/// Every offset of `ring` has a squared length within `tol` of `radius` squared.
pub open spec fn ring_within(ring: Seq<Vertex>, radius: int, tol: int) -> bool {
    forall|i: int| 0 <= i < ring.len() ==> -tol <= #[trigger] len2(ring[i]) - radius * radius <= tol
}

/// Every vertex of `s` lies at a squared distance from `center` within `tol` of
/// `radius` squared.
pub open spec fn at_radius(s: Seq<Vertex>, center: Vertex, radius: int, tol: int) -> bool {
    forall|i: int|
        0 <= i < s.len() ==> -tol <= #[trigger] dist2(s[i], center.x as int, center.y as int) - radius * radius <= tol
}

/// Each vertex lies as far from `center` as the matching ring offset is long.
pub open spec fn ring_distances(s: Seq<Vertex>, center: Vertex, ring: Seq<Vertex>) -> bool {
    &&& s.len() == ring.len()
    &&& forall|i: int| 0 <= i < s.len() ==> #[trigger] dist2(s[i], center.x as int, center.y as int) == len2(ring[i])
}

/// Each `center + ring[i]` stays within the coordinate bound.
pub open spec fn ring_ok(center: Vertex, ring: Seq<Vertex>) -> bool {
    forall|i: int|
        0 <= i < ring.len() ==> coord_ok(center.x + (#[trigger] ring[i]).x) && coord_ok(
            center.y + ring[i].y,
        )
}

/// End points of edge `i` (1-based) of the outline: consecutive vertices, and
/// for the last edge the last vertex and the first one.
pub open spec fn edge(s: Seq<Vertex>, i: int) -> (Vertex, Vertex) {
    if i == s.len() { (s[i - 1], s[0]) } else { (s[i - 1], s[i]) }
}

/// Buffer `b` with the first `k` edges of the outline of `s` drawn in color `c`.
pub open spec fn drawn(s: Seq<Vertex>, k: nat, b: Seq<u8>, c: Color) -> Seq<u8>
    decreases k,
{
    if k == 0 {
        b
    } else {
        let (u, v) = edge(s, k as int);
        line_spec(pixel_of(u.x as int), pixel_of(u.y as int), pixel_of(v.x as int), pixel_of(v.y as int),
            drawn(s, (k - 1) as nat, b, c), c)
    }
}

proof fn lemma_sum_bounds(s: Seq<Vertex>)
    requires
        all_wf(s),
    ensures
        -(s.len() * COORD_LIMIT) <= sum_x(s) <= s.len() * COORD_LIMIT,
        -(s.len() * COORD_LIMIT) <= sum_y(s) <= s.len() * COORD_LIMIT,
    decreases s.len(),
{
    if s.len() > 0 {
        let t = s.drop_last();
        assert forall|i: int| 0 <= i < t.len() implies #[trigger] t[i].wf() by {
            assert(t[i] == s[i]);
        }
        lemma_sum_bounds(t);
        assert(s.last().wf());
        assert(s.len() * COORD_LIMIT == t.len() * COORD_LIMIT + COORD_LIMIT) by (nonlinear_arith)
            requires s.len() == t.len() + 1;
    }
}

proof fn lemma_mean_bound(sum: int, n: int)
    requires
        n > 0,
        -(n * COORD_LIMIT) <= sum <= n * COORD_LIMIT,
    ensures
        coord_ok(sum / n),
{
    vstd::arithmetic::div_mod::lemma_div_is_ordered(sum, n * COORD_LIMIT, n);
    vstd::arithmetic::div_mod::lemma_div_is_ordered(-(n * COORD_LIMIT), sum, n);
    vstd::arithmetic::div_mod::lemma_div_multiples_vanish(COORD_LIMIT as int, n);
    vstd::arithmetic::div_mod::lemma_div_multiples_vanish(-COORD_LIMIT, n);
    assert(n * -COORD_LIMIT == -(n * COORD_LIMIT)) by (nonlinear_arith);
}

/// The centroid of a non-empty figure lies within the coordinate bound.
pub proof fn lemma_centroid_wf(s: Seq<Vertex>)
    requires
        all_wf(s),
        s.len() > 0,
    ensures
        coord_ok(sum_x(s) / s.len() as int),
        coord_ok(sum_y(s) / s.len() as int),
        centroid(s).wf(),
        centroid(s).x == sum_x(s) / s.len() as int,
        centroid(s).y == sum_y(s) / s.len() as int,
{
    lemma_sum_bounds(s);
    lemma_mean_bound(sum_x(s), s.len() as int);
    lemma_mean_bound(sum_y(s), s.len() as int);
}

/// Translation about any pivot moves a vertex by the translation's offsets.
proof fn lemma_translate_about(v: Vertex, p: Vertex, tx: i64, ty: i64)
    requires
        v.wf(),
        p.wf(),
        coef_ok(tx as int),
        coef_ok(ty as int),
    ensures
        mul_x(v.x - p.x, v.y - p.y, Matrix::translation_spec(tx, ty)) + p.x == v.x + tx,
        mul_y(v.x - p.x, v.y - p.y, Matrix::translation_spec(tx, ty)) + p.y == v.y + ty,
{
    let o = ONE as int;
    let a = v.x - p.x;
    let b = v.y - p.y;
    assert(a * o + b * 0 + o * tx == o * (a + tx)) by (nonlinear_arith);
    assert(a * 0 + b * o + o * ty == o * (b + ty)) by (nonlinear_arith);
    vstd::arithmetic::div_mod::lemma_div_multiples_vanish(v.x - p.x + tx, o);
    vstd::arithmetic::div_mod::lemma_div_multiples_vanish(v.y - p.y + ty, o);
}

/// `r` is the hit-test answer for the point (px, py): the index of the nearest
/// vertex (lowest index among equals) when it is strictly nearer than the
/// centroid, else `NO_VERTEX`; an empty figure has no vertex to hit.
pub open spec fn nearest_ok(s: Seq<Vertex>, px: int, py: int, r: int) -> bool {
    if s.len() == 0 {
        r == NO_VERTEX
    } else {
        let dc = dist2(centroid(s), px, py);
        &&& (r == NO_VERTEX <==> forall|j: int| 0 <= j < s.len() ==> #[trigger] dist2(s[j], px, py) >= dc)
        &&& r != NO_VERTEX ==> {
            &&& 0 <= r < s.len()
            &&& dist2(s[r], px, py) < dc
            &&& forall|j: int| 0 <= j < r ==> #[trigger] dist2(s[j], px, py) > dist2(s[r], px, py)
            &&& forall|j: int| 0 <= j < s.len() ==> #[trigger] dist2(s[j], px, py) >= dist2(s[r], px, py)
        }
    }
}

fn distance2(v: Vertex, px: i64, py: i64) -> (r: i128)
    requires
        v.wf(),
        coord_ok(px as int),
        coord_ok(py as int),
    ensures
        r == dist2(v, px as int, py as int),
{
    let dx: i128 = v.x as i128 - px as i128;
    let dy: i128 = v.y as i128 - py as i128;
    assert(dx * dx <= 0x200_0000_0000 * 0x200_0000_0000) by (nonlinear_arith)
        requires -0x200_0000_0000 <= dx <= 0x200_0000_0000;
    assert(dy * dy <= 0x200_0000_0000 * 0x200_0000_0000) by (nonlinear_arith)
        requires -0x200_0000_0000 <= dy <= 0x200_0000_0000;
    assert(0 <= dx * dx && 0 <= dy * dy) by (nonlinear_arith);
    dx * dx + dy * dy
}

/// A closed polygon: an ordered sequence of vertices, the last joined to the first.
pub struct Figure {
    vertices: Vec<Vertex>,
}

impl View for Figure {
    type V = Seq<Vertex>;

    closed spec fn view(&self) -> Seq<Vertex> {
        self.vertices@
    }
}

impl Figure {
    /// Every vertex lies within the coordinate bound.
    pub open spec fn wf(&self) -> bool {
        all_wf(self@)
    }

    pub fn new(vertices: Vec<Vertex>) -> (r: Figure)
        ensures
            r@ == vertices@,
    {
        Figure { vertices }
    }

    /// The number of vertices.
    pub fn len(&self) -> (r: usize)
        ensures
            r == self@.len(),
    {
        self.vertices.len()
    }

    /// The vertex at `i`.
    pub fn vertex(&self, i: usize) -> (r: Vertex)
        requires
            i < self@.len(),
        ensures
            r == self@[i as int],
    {
        self.vertices[i]
    }

    /// The centroid of a non-empty figure.
    pub fn get_center(&self) -> (r: Vertex)
        requires
            self.wf(),
            self@.len() > 0,
        ensures
            r == centroid(self@),
            r.wf(),
    {
        let s = Ghost(self@);
        let n: usize = self.vertices.len();
        let mut ax: i128 = 0;
        let mut ay: i128 = 0;
        let mut i: usize = 0;
        while i < n
            invariant
                n == s@.len(),
                s@ == self@,
                self.wf(),
                i <= n,
                ax == sum_x(s@.subrange(0, i as int)),
                ay == sum_y(s@.subrange(0, i as int)),
            decreases n - i,
        {
            proof {
                let t = s@.subrange(0, i as int + 1);
                assert(t.drop_last() =~= s@.subrange(0, i as int));
                assert(all_wf(t));
                lemma_sum_bounds(t);
                assert(t.len() * COORD_LIMIT <= 0x1_0000_0000_0000_0000 * COORD_LIMIT) by (nonlinear_arith)
                    requires t.len() <= 0x1_0000_0000_0000_0000;
                assert(s@[i as int].wf());
            }
            ax = ax + self.vertices[i].x as i128;
            ay = ay + self.vertices[i].y as i128;
            i = i + 1;
        }
        proof {
            assert(s@.subrange(0, n as int) =~= s@);
            lemma_centroid_wf(s@);
        }
        let cx: i128 = floor_div_by(ax, n as i128);
        let cy: i128 = floor_div_by(ay, n as i128);
        Vertex { x: cx as i64, y: cy as i64 }
    }

    /// Replaces every vertex V by `(V - p) * m + p` when every result stays within
    /// the coordinate bound, and returns whether it did; otherwise nothing changes.
    pub fn apply_about_pivot(&mut self, p: Vertex, m: Matrix) -> (r: bool)
        requires
            old(self).wf(),
            p.wf(),
            m.wf(),
        ensures
            r == about_ok(old(self)@, p, m),
            r ==> final(self)@ == about_all(old(self)@, p, m),
            !r ==> final(self)@ == old(self)@,
            final(self).wf(),
    {
        let ghost s0 = self@;
        let n: usize = self.vertices.len();
        let mut out: Vec<Vertex> = Vec::new();
        let mut i: usize = 0;
        while i < n
            invariant
                n == s0.len(),
                self@ == s0,
                out@.len() == i,
                i <= n,
                p.wf(),
                m.wf(),
                all_wf(s0),
                forall|j: int| 0 <= j < i ==> #[trigger] out@[j] == about(s0[j], p, m),
                forall|j: int|
                    0 <= j < i ==> coord_ok(#[trigger] mul_x(s0[j].x - p.x, s0[j].y - p.y, m) + p.x)
                        && coord_ok(mul_y(s0[j].x - p.x, s0[j].y - p.y, m) + p.y),
            decreases n - i,
        {
            let v = self.vertices[i];
            assert(v.wf());
            let w = v.sub(p).mul(m);
            if w.x < -2 * COORD_LIMIT || w.x > 2 * COORD_LIMIT || w.y < -2 * COORD_LIMIT || w.y > 2
                * COORD_LIMIT {
                return false;
            }
            let q = w.add(p);
            if q.x < -COORD_LIMIT || q.x > COORD_LIMIT || q.y < -COORD_LIMIT || q.y > COORD_LIMIT {
                return false;
            }
            out.push(q);
            i = i + 1;
        }
        self.vertices = out;
        proof {
            assert(self@ =~= about_all(s0, p, m));
        }
        true
    }

    /// Scales by `diag(sx, sy, 1)` about the centroid. Returns false, changing
    /// nothing, when a vertex would leave the coordinate bound; an empty figure
    /// stays as it is.
    pub fn scale(&mut self, sx: i64, sy: i64) -> (r: bool)
        requires
            old(self).wf(),
            coef_ok(sx as int),
            coef_ok(sy as int),
        ensures
            r == about_ok(old(self)@, centroid(old(self)@), Matrix::scaling_spec(sx, sy)),
            r ==> final(self)@ == about_all(old(self)@, centroid(old(self)@), Matrix::scaling_spec(sx, sy)),
            !r ==> final(self)@ == old(self)@,
            final(self).wf(),
    {
        if self.vertices.len() == 0 {
            assert(self@ =~= about_all(self@, centroid(self@), Matrix::scaling_spec(sx, sy)));
            return true;
        }
        let center = self.get_center();
        self.apply_about_pivot(center, Matrix::scaling(sx, sy))
    }

    /// Rotates by the matrix with cosine `c` and sine `s` (fixed point) about the
    /// vertex at `origin`, or about the centroid when `origin` is negative or names
    /// no vertex. Returns false, changing nothing, when a vertex would leave the
    /// coordinate bound. An empty figure stays as it is.
    pub fn rotate(&mut self, c: i64, s: i64, origin: isize) -> (r: bool)
        requires
            old(self).wf(),
            coef_ok(c as int),
            coef_ok(s as int),
        ensures
            r == about_ok(old(self)@, pivot_of(old(self)@, origin as int), Matrix::rotation_spec(c, s)),
            r ==> final(self)@ == about_all(
                old(self)@,
                pivot_of(old(self)@, origin as int),
                Matrix::rotation_spec(c, s),
            ),
            !r ==> final(self)@ == old(self)@,
            final(self).wf(),
    {
        let n: usize = self.vertices.len();
        if n == 0 {
            assert(self@ =~= about_all(self@, pivot_of(self@, origin as int), Matrix::rotation_spec(c, s)));
            return true;
        }
        let pivot = if origin >= 0 && (origin as usize) < n {
            self.vertices[origin as usize]
        } else {
            self.get_center()
        };
        assert(pivot.wf());
        self.apply_about_pivot(pivot, Matrix::rotation(c, s))
    }

    /// Moves every vertex by (tx, ty), as the translation matrix applied about the
    /// centroid. Returns false, changing nothing, when a vertex would leave the
    /// coordinate bound.
    pub fn translate(&mut self, tx: i64, ty: i64) -> (r: bool)
        requires
            old(self).wf(),
            coef_ok(tx as int),
            coef_ok(ty as int),
        ensures
            r == shift_ok(old(self)@, tx as int, ty as int),
            r ==> final(self)@ == about_all(
                old(self)@,
                centroid(old(self)@),
                Matrix::translation_spec(tx, ty),
            ),
            r ==> final(self)@ == shifted(old(self)@, tx as int, ty as int),
            !r ==> final(self)@ == old(self)@,
            final(self).wf(),
    {
        let ghost s0 = self@;
        let ghost m = Matrix::translation_spec(tx, ty);
        if self.vertices.len() == 0 {
            assert(self@ =~= about_all(self@, centroid(self@), m));
            assert(self@ =~= shifted(s0, tx as int, ty as int));
            return true;
        }
        let center = self.get_center();
        proof {
            assert forall|i: int| 0 <= i < s0.len() implies #[trigger] about(s0[i], center, m) == (
            Vertex { x: (s0[i].x + tx) as i64, y: (s0[i].y + ty) as i64 }) by {
                lemma_translate_about(s0[i], center, tx, ty);
            }
            assert(about_ok(s0, center, m) <==> shift_ok(s0, tx as int, ty as int)) by {
                assert forall|i: int| 0 <= i < s0.len() implies mul_x(s0[i].x - center.x, s0[i].y - center.y, m) + center.x == s0[i].x + tx
                    && mul_y(s0[i].x - center.x, s0[i].y - center.y, m) + center.y == s0[i].y + ty by {
                    lemma_translate_about(s0[i], center, tx, ty);
                }
                if about_ok(s0, center, m) {
                    assert forall|i: int| 0 <= i < s0.len() implies coord_ok(#[trigger] s0[i].x + tx) && coord_ok(s0[i].y + ty) by {
                        lemma_translate_about(s0[i], center, tx, ty);
                    }
                }
                if shift_ok(s0, tx as int, ty as int) {
                    assert forall|i: int| 0 <= i < s0.len() implies coord_ok(#[trigger] mul_x(s0[i].x - center.x, s0[i].y - center.y, m) + center.x)
                        && coord_ok(mul_y(s0[i].x - center.x, s0[i].y - center.y, m) + center.y) by {
                        lemma_translate_about(s0[i], center, tx, ty);
                        assert(coord_ok(s0[i].x + tx));
                    }
                }
            }
        }
        let r = self.apply_about_pivot(center, Matrix::translation(tx, ty));
        if r {
            assert(self@ =~= shifted(s0, tx as int, ty as int));
        }
        r
    }

    /// The vertices `center + ring[i]`, or `None` when one of them leaves the
    /// coordinate bound.
    fn ring_at(center: Vertex, ring: &Vec<Vertex>) -> (r: Option<Vec<Vertex>>)
        requires
            center.wf(),
        ensures
            r is Some <==> ring_ok(center, ring@),
            r matches Some(v) ==> on_ring(v@, center, ring@) && all_wf(v@) && ring_distances(v@, center, ring@),
    {
        let n: usize = ring.len();
        let mut out: Vec<Vertex> = Vec::new();
        let mut i: usize = 0;
        while i < n
            invariant
                n == ring@.len(),
                out@.len() == i,
                i <= n,
                center.wf(),
                forall|j: int| 0 <= j < i ==> (#[trigger] out@[j]).x == center.x + ring@[j].x
                    && out@[j].y == center.y + ring@[j].y,
                forall|j: int| 0 <= j < i ==> coord_ok(center.x + (#[trigger] ring@[j]).x)
                    && coord_ok(center.y + ring@[j].y),
            decreases n - i,
        {
            let o = ring[i];
            if o.x < -2 * COORD_LIMIT || o.x > 2 * COORD_LIMIT || o.y < -2 * COORD_LIMIT || o.y > 2
                * COORD_LIMIT {
                return None;
            }
            let x: i64 = center.x + o.x;
            let y: i64 = center.y + o.y;
            if x < -COORD_LIMIT || x > COORD_LIMIT || y < -COORD_LIMIT || y > COORD_LIMIT {
                return None;
            }
            out.push(Vertex { x, y });
            i = i + 1;
        }
        assert forall|j: int| 0 <= j < n implies #[trigger] dist2(out@[j], center.x as int, center.y as int) == len2(ring@[j]) by {
            assert(out@[j].x - center.x == ring@[j].x);
            assert(out@[j].y - center.y == ring@[j].y);
        }
        Some(out)
    }

    /// The center that `push` keeps: the centroid before the push, or the pushed
    /// vertex itself when the figure was empty.
    pub open spec fn push_center(&self, v: Vertex) -> Vertex {
        if self@.len() == 0 { v } else { centroid(self@) }
    }

    /// Appends a vertex and re-lays the figure out as a regular polygon: vertex `i`
    /// goes to the pre-push center plus `ring[i]`, where `ring` holds the offsets of
    /// the regular polygon with one more vertex (the pushed coordinates only serve
    /// as the center of a figure that was empty). Returns false, changing nothing,
    /// when a vertex would leave the coordinate bound.
    pub fn push(&mut self, vertex: Vertex, ring: &Vec<Vertex>) -> (r: bool)
        requires
            old(self).wf(),
            vertex.wf(),
            ring@.len() == old(self)@.len() + 1,
        ensures
            r == ring_ok(old(self).push_center(vertex), ring@),
            r ==> final(self)@.len() == old(self)@.len() + 1,
            r ==> on_ring(final(self)@, old(self).push_center(vertex), ring@),
            r ==> ring_distances(final(self)@, old(self).push_center(vertex), ring@),
            !r ==> final(self)@ == old(self)@,
            final(self).wf(),
    {
        let center = if self.vertices.len() == 0 {
            vertex
        } else {
            self.get_center()
        };
        match Self::ring_at(center, ring) {
            Some(vs) => {
                self.vertices = vs;
                true
            },
            None => false,
        }
    }

    /// Removes the last vertex and re-lays the rest out as a regular polygon about
    /// their centroid: vertex `i` goes to that centroid plus `ring[i]`. Returns
    /// false, changing nothing, when a vertex would leave the coordinate bound. A
    /// figure of zero or one vertex stays as it is.
    pub fn pop(&mut self, ring: &Vec<Vertex>) -> (r: bool)
        requires
            old(self).wf(),
            old(self)@.len() > 1 ==> ring@.len() == old(self)@.len() - 1,
        ensures
            old(self)@.len() <= 1 ==> r && final(self)@ == old(self)@,
            old(self)@.len() > 1 ==> r == ring_ok(centroid(old(self)@.drop_last()), ring@),
            old(self)@.len() > 1 && r ==> final(self)@.len() == old(self)@.len() - 1 && on_ring(
                final(self)@,
                centroid(old(self)@.drop_last()),
                ring@,
            ) && ring_distances(final(self)@, centroid(old(self)@.drop_last()), ring@),
            !r ==> final(self)@ == old(self)@,
            final(self).wf(),
    {
        if self.vertices.len() <= 1 {
            return true;
        }
        let ghost s0 = self@;
        let mut rest = Figure { vertices: self.vertices.clone() };
        rest.vertices.pop();
        assert(rest@ =~= s0.drop_last());
        let center = rest.get_center();
        match Self::ring_at(center, ring) {
            Some(vs) => {
                self.vertices = vs;
                true
            },
            None => false,
        }
    }

    /// Hit test: the index of the vertex nearest to the pixel `mouse`, or
    /// `NO_VERTEX` when no vertex is strictly nearer than the centroid.
    pub fn get_vertex(&self, mouse: (isize, isize)) -> (r: isize)
        requires
            self.wf(),
            self@.len() < isize::MAX,
            coord_ok(mouse.0 * ONE),
            coord_ok(mouse.1 * ONE),
        ensures
            nearest_ok(self@, mouse.0 * ONE, mouse.1 * ONE, r as int),
    {
        let n: usize = self.vertices.len();
        if n == 0 {
            return NO_VERTEX;
        }
        let px: i64 = mouse.0 as i64 * ONE;
        let py: i64 = mouse.1 as i64 * ONE;
        let center = self.get_center();
        let dc: i128 = distance2(center, px, py);
        let mut best: i128 = dc;
        let mut result: isize = NO_VERTEX;
        let mut i: usize = 0;
        while i < n
            invariant
                n == self@.len(),
                n < isize::MAX,
                self.wf(),
                coord_ok(px as int),
                coord_ok(py as int),
                i <= n,
                dc == dist2(centroid(self@), px as int, py as int),
                result == NO_VERTEX ==> best == dc && forall|j: int|
                    0 <= j < i ==> #[trigger] dist2(self@[j], px as int, py as int) >= dc,
                result != NO_VERTEX ==> {
                    &&& 0 <= result < i
                    &&& best == dist2(self@[result as int], px as int, py as int)
                    &&& best < dc
                    &&& forall|j: int| 0 <= j < result ==> #[trigger] dist2(self@[j], px as int, py as int) > best
                    &&& forall|j: int| 0 <= j < i ==> #[trigger] dist2(self@[j], px as int, py as int) >= best
                },
            decreases n - i,
        {
            assert(self@[i as int].wf());
            let d: i128 = distance2(self.vertices[i], px, py);
            if d < best {
                best = d;
                result = i as isize;
            }
            i = i + 1;
        }
        result
    }

    /// Outlines the figure in color `c`: a line between the rounded positions of
    /// each pair of consecutive vertices, and one from the last back to the first.
    pub fn draw(&self, c: Color, screen: &mut Vec<u8>)
        requires
            self.wf(),
            old(screen)@.len() == FRAME_LEN,
        ensures
            final(screen)@.len() == FRAME_LEN,
            final(screen)@ == drawn(self@, self@.len() as nat, old(screen)@, c),
    {
        let ghost b0 = screen@;
        let n: usize = self.vertices.len();
        let mut i: usize = 0;
        while i < n
            invariant
                n == self@.len(),
                self.wf(),
                0 <= i <= n,
                screen@.len() == FRAME_LEN,
                screen@ == drawn(self@, i as nat, b0, c),
            decreases n - i,
        {
            let (u, v) = if i + 1 == n {
                (self.vertices[i], self.vertices[0])
            } else {
                (self.vertices[i], self.vertices[i + 1])
            };
            proof {
                assert(u.wf() && v.wf());
                lemma_pixel_bound(u.x as int);
                lemma_pixel_bound(u.y as int);
                lemma_pixel_bound(v.x as int);
                lemma_pixel_bound(v.y as int);
            }
            line(u.round(), v.round(), c, screen);
            i = i + 1;
        }
    }
}

} // verus!
