use vstd::prelude::*;

verus! {

/// Fixed-point unit: one pixel is `ONE` coordinate units.
pub const ONE: i64 = 0x10_0000;

/// Largest magnitude of a vertex coordinate, in fixed-point units.
pub const COORD_LIMIT: i64 = 0x100_0000_0000;

/// Largest magnitude of a matrix coefficient, in fixed-point units.
pub const COEF_LIMIT: i64 = 0x40_0000_0000;

/// A point in homogeneous form (x, y, 1); coordinates are fixed-point
/// (`ONE` units per pixel) and the trailing 1 is implicit.
#[derive(Clone, Copy, PartialEq, Eq, Debug, Structural)]
pub struct Vertex {
    pub x: i64,
    pub y: i64,
}

/// An affine 3x3 matrix in fixed point whose last row is (0, 0, 1).
/// Row `j` gives output component `j`: `out[j] = sum_i p[i] * m[j][i]`.
#[derive(Clone, Copy, PartialEq, Eq, Debug, Structural)]
pub struct Matrix {
    pub m00: i64,
    pub m01: i64,
    pub m02: i64,
    pub m10: i64,
    pub m11: i64,
    pub m12: i64,
}

pub open spec fn coord_ok(c: int) -> bool {
    -COORD_LIMIT <= c <= COORD_LIMIT
}

pub open spec fn coef_ok(c: int) -> bool {
    -COEF_LIMIT <= c <= COEF_LIMIT
}

impl Vertex {
    /// Both coordinates lie within the coordinate bound.
    pub open spec fn wf(self) -> bool {
        coord_ok(self.x as int) && coord_ok(self.y as int)
    }

    pub fn new(x: i64, y: i64) -> (r: Vertex)
        ensures
            r.x == x,
            r.y == y,
    {
        Vertex { x, y }
    }

    /// The pixel nearest to this point: each coordinate rounded, halves away from zero.
    pub fn round(self) -> (r: (i64, i64))
        requires
            self.wf(),
        ensures
            r.0 == pixel_of(self.x as int),
            r.1 == pixel_of(self.y as int),
    {
        (round_coord(self.x), round_coord(self.y))
    }

    pub fn add(self, rhs: Vertex) -> (r: Vertex)
        requires
            -2 * COORD_LIMIT <= self.x <= 2 * COORD_LIMIT,
            -2 * COORD_LIMIT <= self.y <= 2 * COORD_LIMIT,
            rhs.wf(),
        ensures
            r.x == self.x + rhs.x,
            r.y == self.y + rhs.y,
    {
        Vertex { x: self.x + rhs.x, y: self.y + rhs.y }
    }

    pub fn sub(self, rhs: Vertex) -> (r: Vertex)
        requires
            self.wf(),
            rhs.wf(),
        ensures
            r.x == self.x - rhs.x,
            r.y == self.y - rhs.y,
    {
        Vertex { x: self.x - rhs.x, y: self.y - rhs.y }
    }

    /// The point as a row vector times the matrix.
    pub fn mul(self, m: Matrix) -> (r: Vertex)
        requires
            -2 * COORD_LIMIT <= self.x <= 2 * COORD_LIMIT,
            -2 * COORD_LIMIT <= self.y <= 2 * COORD_LIMIT,
            m.wf(),
        ensures
            r.x == mul_x(self.x as int, self.y as int, m),
            r.y == mul_y(self.x as int, self.y as int, m),
    {
        proof {
            lemma_bounded_product(self.x as int, m.m00 as int);
            lemma_bounded_product(self.y as int, m.m01 as int);
            lemma_bounded_product(self.x as int, m.m10 as int);
            lemma_bounded_product(self.y as int, m.m11 as int);
            assert(ONE * m.m02 <= 0x10_0000 * 0x40_0000_0000 && ONE * m.m02 >= -0x10_0000 * 0x40_0000_0000) by (nonlinear_arith)
                requires coef_ok(m.m02 as int);
            assert(ONE * m.m12 <= 0x10_0000 * 0x40_0000_0000 && ONE * m.m12 >= -0x10_0000 * 0x40_0000_0000) by (nonlinear_arith)
                requires coef_ok(m.m12 as int);
        }
        let one: i128 = ONE as i128;
        let sx: i128 = self.x as i128 * m.m00 as i128 + self.y as i128 * m.m01 as i128 + one * m.m02 as i128;
        let sy: i128 = self.x as i128 * m.m10 as i128 + self.y as i128 * m.m11 as i128 + one * m.m12 as i128;
        let qx = floor_div_by(sx, one);
        let qy = floor_div_by(sy, one);
        proof {
            lemma_quotient_bound(sx as int);
            lemma_quotient_bound(sy as int);
        }
        Vertex { x: qx as i64, y: qy as i64 }
    }
}

impl Matrix {
    /// Every coefficient lies within the coefficient bound.
    pub open spec fn wf(self) -> bool {
        coef_ok(self.m00 as int) && coef_ok(self.m01 as int) && coef_ok(self.m02 as int)
            && coef_ok(self.m10 as int) && coef_ok(self.m11 as int) && coef_ok(self.m12 as int)
    }

    /// `diag(sx, sy, 1)`.
    pub open spec fn scaling_spec(sx: i64, sy: i64) -> Matrix {
        Matrix { m00: sx, m01: 0, m02: 0, m10: 0, m11: sy, m12: 0 }
    }

    /// `[[c, -s, 0], [s, c, 0], [0, 0, 1]]` for a cosine `c` and sine `s` in fixed point.
    pub open spec fn rotation_spec(c: i64, s: i64) -> Matrix {
        Matrix { m00: c, m01: (-s) as i64, m02: 0, m10: s, m11: c, m12: 0 }
    }

    /// `[[1, 0, tx], [0, 1, ty], [0, 0, 1]]`.
    pub open spec fn translation_spec(tx: i64, ty: i64) -> Matrix {
        Matrix { m00: ONE, m01: 0, m02: tx, m10: 0, m11: ONE, m12: ty }
    }

    pub fn scaling(sx: i64, sy: i64) -> (r: Matrix)
        ensures
            r == Matrix::scaling_spec(sx, sy),
    {
        Matrix { m00: sx, m01: 0, m02: 0, m10: 0, m11: sy, m12: 0 }
    }

    pub fn rotation(c: i64, s: i64) -> (r: Matrix)
        requires
            coef_ok(c as int),
            coef_ok(s as int),
        ensures
            r == Matrix::rotation_spec(c, s),
    {
        Matrix { m00: c, m01: -s, m02: 0, m10: s, m11: c, m12: 0 }
    }

    pub fn translation(tx: i64, ty: i64) -> (r: Matrix)
        ensures
            r == Matrix::translation_spec(tx, ty),
    {
        Matrix { m00: ONE, m01: 0, m02: tx, m10: 0, m11: ONE, m12: ty }
    }
}

/// First component of `(x, y, 1) * m`, rounded down to a fixed-point unit.
pub open spec fn mul_x(x: int, y: int, m: Matrix) -> int {
    (x * m.m00 + y * m.m01 + ONE * m.m02) / (ONE as int)
}

/// Second component of `(x, y, 1) * m`, rounded down to a fixed-point unit.
pub open spec fn mul_y(x: int, y: int, m: Matrix) -> int {
    (x * m.m10 + y * m.m11 + ONE * m.m12) / (ONE as int)
}

/// The pixel that a fixed-point coordinate rounds to (halves away from zero).
pub open spec fn pixel_of(c: int) -> int {
    if c >= 0 {
        (c + ONE / 2) / (ONE as int)
    } else {
        -((-c + ONE / 2) / (ONE as int))
    }
}

fn round_coord(c: i64) -> (r: i64)
    requires
        coord_ok(c as int),
    ensures
        r == pixel_of(c as int),
{
    if c >= 0 {
        (c + ONE / 2) / ONE
    } else {
        -((-c + ONE / 2) / ONE)
    }
}

/// A sum of three coefficient-by-coordinate products, divided by `ONE`, fits in 62 bits.
proof fn lemma_quotient_bound(s: int)
    requires
        -0x4_0000_0000_0000_0000_0000 <= s <= 0x4_0000_0000_0000_0000_0000,
    ensures
        -0x4000_0000_0000_0000 <= s / (ONE as int) <= 0x4000_0000_0000_0000,
{
    let o = ONE as int;
    vstd::arithmetic::div_mod::lemma_div_is_ordered(s, o * 0x4000_0000_0000_0000, o);
    vstd::arithmetic::div_mod::lemma_div_is_ordered(o * -0x4000_0000_0000_0000, s, o);
    vstd::arithmetic::div_mod::lemma_div_multiples_vanish(0x4000_0000_0000_0000, o);
    vstd::arithmetic::div_mod::lemma_div_multiples_vanish(-0x4000_0000_0000_0000, o);
}

/// A coordinate within bounds rounds to a pixel within the rasterizer's bound.
pub proof fn lemma_pixel_bound(c: int)
    requires
        coord_ok(c),
    ensures
        -0x20_0000 <= pixel_of(c) <= 0x20_0000,
{
    if c >= 0 {
        vstd::arithmetic::div_mod::lemma_div_is_ordered(c + ONE / 2, COORD_LIMIT + ONE / 2, ONE as int);
        vstd::arithmetic::div_mod::lemma_div_is_ordered(0, c + ONE / 2, ONE as int);
    } else {
        vstd::arithmetic::div_mod::lemma_div_is_ordered(-c + ONE / 2, COORD_LIMIT + ONE / 2, ONE as int);
        vstd::arithmetic::div_mod::lemma_div_is_ordered(0, -c + ONE / 2, ONE as int);
    }
}

proof fn lemma_bounded_product(a: int, b: int)
    requires
        -2 * COORD_LIMIT <= a <= 2 * COORD_LIMIT,
        coef_ok(b),
    ensures
        -0x8000_0000_0000_0000_0000 <= a * b <= 0x8000_0000_0000_0000_0000,
{
    assert(-0x200_0000_0000 <= a <= 0x200_0000_0000);
    assert(-0x40_0000_0000 <= b <= 0x40_0000_0000);
    assert(-0x200_0000_0000 * 0x40_0000_0000 <= a * b <= 0x200_0000_0000 * 0x40_0000_0000) by (nonlinear_arith)
        requires
            -0x200_0000_0000 <= a <= 0x200_0000_0000,
            -0x40_0000_0000 <= b <= 0x40_0000_0000,
    ;
}

/// `s` divided by a positive `n`, rounded toward negative infinity.
pub fn floor_div_by(s: i128, n: i128) -> (r: i128)
    requires
        n > 0,
    ensures
        r == s as int / n as int,
{
    if s >= 0 {
        s / n
    } else {
        let t: i128 = (-(s + 1)) / n;
        proof {
            let m = -(s as int + 1);
            vstd::arithmetic::div_mod::lemma_fundamental_div_mod(m, n as int);
            vstd::arithmetic::div_mod::lemma_mod_bound(m, n as int);
            let rm = m % (n as int);
            assert(t == m / (n as int));
            assert(s == (-t - 1) * n + (n - rm - 1)) by (nonlinear_arith)
                requires
                    m == n * t + rm,
                    m == -(s + 1),
            ;
            vstd::arithmetic::div_mod::lemma_fundamental_div_mod_converse(
                s as int,
                n as int,
                -t - 1,
                n - rm - 1,
            );
        }
        -t - 1
    }
}

} // verus!
