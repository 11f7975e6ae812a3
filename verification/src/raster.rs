//! The per-face rasterization algorithm.
//!
//! For each face the rasterizer builds the 3x3 matrix whose columns are the
//! homogeneous screen-space coordinates (x, y, 1) of the face's three
//! vertices, inverts it once, and classifies every pixel-centre sample by the
//! signs of the transformed sample vector: the sample lies inside the face
//! iff all three barycentric components are at least zero. The inversion is
//! carried as the exact integer adjugate together with the determinant, so
//! `lambda = adjugate * sample / det` and the sign test reads the adjugate
//! products directly; a zero determinant is the exact form of a degenerate
//! (collinear or coincident) face. The inversion happens once per face — the
//! per-pixel work is three dot products — which is the intended trade of
//! per-pixel edge functions for a one-time inversion.
//!
//! Faces are processed in store order and later faces overwrite earlier ones
//! at shared pixels; there is no depth test. This is a known limitation of
//! the design, not an oversight.

use vstd::prelude::*;
use vstd::pervasive::VecAdditionalExecFns;
use crate::store::{Pos, Face, RasterBuffer, RasterError};

verus! {

/// A 3x3 matrix of exact integer entries, held by columns. For a face the
/// columns are the homogeneous (x, y, 1) coordinates of its three vertices.
#[derive(Clone, Copy, Debug)]
pub struct Mat3 {
    pub c0: (i32, i32, i32),
    pub c1: (i32, i32, i32),
    pub c2: (i32, i32, i32),
}

impl Mat3 {
    /// Builds a matrix from its three columns.
    pub fn from_cols(c0: (i32, i32, i32), c1: (i32, i32, i32), c2: (i32, i32, i32)) -> (m: Mat3)
        ensures
            m == (Mat3 { c0, c1, c2 }),
    {
        Mat3 { c0, c1, c2 }
    }
}

/// The matrix of a face over a vertex population: column `j` holds the
/// homogeneous (x, y, 1) screen-space coordinates of the face's `j`-th vertex.
pub open spec fn face_matrix_of(verts: Seq<Pos>, f: Face) -> Mat3 {
    Mat3 {
        c0: (verts[f.0 as int].0, verts[f.0 as int].1, 1),
        c1: (verts[f.1 as int].0, verts[f.1 as int].1, 1),
        c2: (verts[f.2 as int].0, verts[f.2 as int].1, 1),
    }
}

/// Entry (0,0) of the adjugate of `m`.
pub open spec fn adj00(m: Mat3) -> int {
    (m.c1.1 as int) * (m.c2.2 as int) - (m.c2.1 as int) * (m.c1.2 as int)
}

/// Entry (0,1) of the adjugate of `m`.
pub open spec fn adj01(m: Mat3) -> int {
    (m.c2.0 as int) * (m.c1.2 as int) - (m.c1.0 as int) * (m.c2.2 as int)
}

/// Entry (0,2) of the adjugate of `m`.
pub open spec fn adj02(m: Mat3) -> int {
    (m.c1.0 as int) * (m.c2.1 as int) - (m.c2.0 as int) * (m.c1.1 as int)
}

/// Entry (1,0) of the adjugate of `m`.
pub open spec fn adj10(m: Mat3) -> int {
    (m.c2.1 as int) * (m.c0.2 as int) - (m.c0.1 as int) * (m.c2.2 as int)
}

/// Entry (1,1) of the adjugate of `m`.
pub open spec fn adj11(m: Mat3) -> int {
    (m.c0.0 as int) * (m.c2.2 as int) - (m.c2.0 as int) * (m.c0.2 as int)
}

/// Entry (1,2) of the adjugate of `m`.
pub open spec fn adj12(m: Mat3) -> int {
    (m.c2.0 as int) * (m.c0.1 as int) - (m.c0.0 as int) * (m.c2.1 as int)
}

/// Entry (2,0) of the adjugate of `m`.
pub open spec fn adj20(m: Mat3) -> int {
    (m.c0.1 as int) * (m.c1.2 as int) - (m.c1.1 as int) * (m.c0.2 as int)
}

/// Entry (2,1) of the adjugate of `m`.
pub open spec fn adj21(m: Mat3) -> int {
    (m.c1.0 as int) * (m.c0.2 as int) - (m.c0.0 as int) * (m.c1.2 as int)
}

/// Entry (2,2) of the adjugate of `m`.
pub open spec fn adj22(m: Mat3) -> int {
    (m.c0.0 as int) * (m.c1.1 as int) - (m.c1.0 as int) * (m.c0.1 as int)
}

/// The determinant of `m`, by cofactor expansion along its first row.
pub open spec fn det(m: Mat3) -> int {
    (m.c0.0 as int) * adj00(m) + (m.c1.0 as int) * adj10(m) + (m.c2.0 as int) * adj20(m)
}

/// The first component of `adjugate(m) * sample`, i.e. the first barycentric
/// component scaled by `det(m)`.
pub open spec fn lam0(m: Mat3, sx: int, sy: int, sw: int) -> int {
    adj00(m) * sx + adj01(m) * sy + adj02(m) * sw
}

/// The second component of `adjugate(m) * sample`.
pub open spec fn lam1(m: Mat3, sx: int, sy: int, sw: int) -> int {
    adj10(m) * sx + adj11(m) * sy + adj12(m) * sw
}

/// The third component of `adjugate(m) * sample`.
pub open spec fn lam2(m: Mat3, sx: int, sy: int, sw: int) -> int {
    adj20(m) * sx + adj21(m) * sy + adj22(m) * sw
}

/// The inside test: the sample `(sx, sy, sw)` is covered by the face whose
/// matrix is `m` iff `m` is invertible and all three components of
/// `inverse(m) * sample` are at least zero. The components equal
/// `adjugate(m) * sample / det(m)`, so their signs are read off the exact
/// adjugate products. A degenerate face (determinant zero) covers nothing.
pub open spec fn inside(m: Mat3, sx: int, sy: int, sw: int) -> bool {
    &&& det(m) != 0
    &&& if det(m) > 0 {
        lam0(m, sx, sy, sw) >= 0 && lam1(m, sx, sy, sw) >= 0 && lam2(m, sx, sy, sw) >= 0
    } else {
        lam0(m, sx, sy, sw) <= 0 && lam1(m, sx, sy, sw) <= 0 && lam2(m, sx, sy, sw) <= 0
    }
}

/// The inversion identity behind the inside test, `adjugate(m) * m ==
/// det(m) * I`, read column by column: at the face's own vertices the scaled
/// barycentric vector `lambda` comes out as `det(m)` times a unit
/// coordinate. The sign test therefore reads the true solution of
/// `m * lambda = sample`, scaled by the determinant.
pub proof fn lemma_adjugate_inverts(m: Mat3)
    ensures
        lam0(m, m.c0.0 as int, m.c0.1 as int, m.c0.2 as int) == det(m),
        lam1(m, m.c0.0 as int, m.c0.1 as int, m.c0.2 as int) == 0,
        lam2(m, m.c0.0 as int, m.c0.1 as int, m.c0.2 as int) == 0,
        lam0(m, m.c1.0 as int, m.c1.1 as int, m.c1.2 as int) == 0,
        lam1(m, m.c1.0 as int, m.c1.1 as int, m.c1.2 as int) == det(m),
        lam2(m, m.c1.0 as int, m.c1.1 as int, m.c1.2 as int) == 0,
        lam0(m, m.c2.0 as int, m.c2.1 as int, m.c2.2 as int) == 0,
        lam1(m, m.c2.0 as int, m.c2.1 as int, m.c2.2 as int) == 0,
        lam2(m, m.c2.0 as int, m.c2.1 as int, m.c2.2 as int) == det(m),
{
    let a = m.c0.0 as int;
    let d = m.c0.1 as int;
    let g = m.c0.2 as int;
    let b = m.c1.0 as int;
    let e = m.c1.1 as int;
    let h = m.c1.2 as int;
    let c = m.c2.0 as int;
    let f = m.c2.1 as int;
    let k = m.c2.2 as int;
    // each product distributed over one cofactor, toward shared monomials
    assert(a * (e * k - f * h) == a * e * k - a * f * h) by (nonlinear_arith);
    assert(b * (f * g - d * k) == b * f * g - b * d * k) by (nonlinear_arith);
    assert(c * (d * h - e * g) == c * d * h - c * e * g) by (nonlinear_arith);
    assert((e * k - f * h) * a == a * e * k - a * f * h) by (nonlinear_arith);
    assert((c * h - b * k) * d == c * d * h - b * d * k) by (nonlinear_arith);
    assert((b * f - c * e) * g == b * f * g - c * e * g) by (nonlinear_arith);
    assert((f * g - d * k) * b == b * f * g - b * d * k) by (nonlinear_arith);
    assert((a * k - c * g) * e == a * e * k - c * e * g) by (nonlinear_arith);
    assert((c * d - a * f) * h == c * d * h - a * f * h) by (nonlinear_arith);
    assert((d * h - e * g) * c == c * d * h - c * e * g) by (nonlinear_arith);
    assert((b * g - a * h) * f == b * f * g - a * f * h) by (nonlinear_arith);
    assert((a * e - b * d) * k == a * e * k - b * d * k) by (nonlinear_arith);
    // the diagonal entries of adjugate(m) * m each sum to the determinant
    assert((e * k - f * h) * a + (c * h - b * k) * d + (b * f - c * e) * g == a * (e * k - f * h)
        + b * (f * g - d * k) + c * (d * h - e * g));
    assert((f * g - d * k) * b + (a * k - c * g) * e + (c * d - a * f) * h == a * (e * k - f * h)
        + b * (f * g - d * k) + c * (d * h - e * g));
    assert((d * h - e * g) * c + (b * g - a * h) * f + (a * e - b * d) * k == a * (e * k - f * h)
        + b * (f * g - d * k) + c * (d * h - e * g));
    // the off-diagonal entries each cancel to zero
    assert((e * k - f * h) * b + (c * h - b * k) * e + (b * f - c * e) * h == 0)
        by (nonlinear_arith);
    assert((e * k - f * h) * c + (c * h - b * k) * f + (b * f - c * e) * k == 0)
        by (nonlinear_arith);
    assert((f * g - d * k) * a + (a * k - c * g) * d + (c * d - a * f) * g == 0)
        by (nonlinear_arith);
    assert((f * g - d * k) * c + (a * k - c * g) * f + (c * d - a * f) * k == 0)
        by (nonlinear_arith);
    assert((d * h - e * g) * a + (b * g - a * h) * d + (a * e - b * d) * g == 0)
        by (nonlinear_arith);
    assert((d * h - e * g) * b + (b * g - a * h) * e + (a * e - b * d) * h == 0)
        by (nonlinear_arith);
}

/// Whether one of the first `k` faces covers the centre of pixel `(x, y)`.
/// The pixel-centre sample `(x + 1/2, y + 1/2, 1)` is carried scaled by two,
/// as `(2x + 1, 2y + 1, 2)`, which leaves every sign unchanged.
pub open spec fn covered_upto(verts: Seq<Pos>, faces: Seq<Face>, k: int, x: int, y: int) -> bool {
    exists|j: int|
        0 <= j < k && inside(face_matrix_of(verts, #[trigger] faces[j]), 2 * x + 1, 2 * y + 1, 2)
}

/// Whether any face of the store covers the centre of pixel `(x, y)`.
pub open spec fn pixel_covered(verts: Seq<Pos>, faces: Seq<Face>, x: int, y: int) -> bool {
    covered_upto(verts, faces, faces.len() as int, x, y)
}

/// How many of the first `k` faces are degenerate (determinant zero).
pub open spec fn degen_count(verts: Seq<Pos>, faces: Seq<Face>, k: int) -> int
    decreases k,
{
    if k <= 0 {
        0
    } else {
        degen_count(verts, faces, k - 1) + if det(face_matrix_of(verts, faces[k - 1])) == 0 {
            1int
        } else {
            0int
        }
    }
}

/// The value pixel `(x, y)` holds once the first `k` faces are painted over
/// a `background` frame: `fill` where some nondegenerate face among them
/// covers the pixel centre, `background` elsewhere.
pub open spec fn pixel_val(
    verts: Seq<Pos>,
    faces: Seq<Face>,
    k: int,
    fill: u32,
    background: u32,
    x: int,
    y: int,
) -> u32 {
    if covered_upto(verts, faces, k, x, y) {
        fill
    } else {
        background
    }
}

/// Painting one more face extends coverage by exactly that face's own
/// inside test at the pixel centre.
proof fn lemma_covered_unfold(verts: Seq<Pos>, faces: Seq<Face>, k: int, x: int, y: int)
    requires
        0 <= k < faces.len(),
    ensures
        covered_upto(verts, faces, k + 1, x, y) == (covered_upto(verts, faces, k, x, y) || inside(
            face_matrix_of(verts, faces[k]),
            2 * x + 1,
            2 * y + 1,
            2,
        )),
{
    if covered_upto(verts, faces, k + 1, x, y) {
        let j = choose|j: int|
            0 <= j < k + 1 && inside(
                face_matrix_of(verts, #[trigger] faces[j]),
                2 * x + 1,
                2 * y + 1,
                2,
            );
        if j < k {
            assert(covered_upto(verts, faces, k, x, y));
        }
    }
    if covered_upto(verts, faces, k, x, y) {
        let j = choose|j: int|
            0 <= j < k && inside(face_matrix_of(verts, #[trigger] faces[j]), 2 * x + 1, 2 * y + 1, 2);
        assert(0 <= j < k + 1 && inside(face_matrix_of(verts, faces[j]), 2 * x + 1, 2 * y + 1, 2));
    }
    if inside(face_matrix_of(verts, faces[k]), 2 * x + 1, 2 * y + 1, 2) {
        assert(covered_upto(verts, faces, k + 1, x, y));
    }
}

/// An empty store covers no pixel: a redraw over it paints every pixel the
/// background value.
pub proof fn lemma_empty_store_uncovered(verts: Seq<Pos>, faces: Seq<Face>, x: int, y: int)
    requires
        faces.len() == 0,
    ensures
        !pixel_covered(verts, faces, x, y),
{
}

/// A degenerate face — determinant zero, as for collinear or coincident
/// vertices — covers no sample at all.
pub proof fn lemma_degenerate_covers_nothing(m: Mat3, sx: int, sy: int, sw: int)
    requires
        det(m) == 0,
    ensures
        !inside(m, sx, sy, sw),
{
}

/// A product of two bounded factors is bounded by the product of the bounds.
proof fn lemma_mul_bound(x: int, y: int, bx: int, by: int)
    requires
        0 <= bx,
        0 <= by,
        -bx <= x <= bx,
        -by <= y <= by,
    ensures
        -(bx * by) <= x * y <= bx * by,
{
    assert(-(bx * by) <= x * y <= bx * by) by (nonlinear_arith)
        requires
            0 <= bx,
            0 <= by,
            -bx <= x <= bx,
            -by <= y <= by,
    ;
}

/// Bound on every entry of the adjugate of a matrix of `i32` entries.
pub const ADJ_BOUND: i128 = 0x8000_0000_0000_0000;

/// Bound on the determinant of a matrix of `i32` entries.
pub const DET_BOUND: i128 = 0x1_8000_0000_0000_0000_0000_0000;

/// Bound accepted for a sample component handed to the inside test.
pub const SAMPLE_BOUND: i64 = 0x4_0000_0000;

/// The 2x2 minor `u * v - s * t` of four `i32` entries, computed exactly.
fn diff_prod(u: i32, v: i32, s: i32, t: i32) -> (r: i128)
    ensures
        r == (u as int) * (v as int) - (s as int) * (t as int),
        -ADJ_BOUND <= r <= ADJ_BOUND,
{
    proof {
        lemma_mul_bound(u as int, v as int, 0x8000_0000, 0x8000_0000);
        lemma_mul_bound(s as int, t as int, 0x8000_0000, 0x8000_0000);
    }
    (u as i128) * (v as i128) - (s as i128) * (t as i128)
}

/// The once-per-face product of inverting a face matrix: the nine exact
/// adjugate entries and the exact determinant. `lambda` for a sample is the
/// adjugate rows dotted with the sample, divided by the determinant; the
/// sign test below never needs the division.
struct EdgeTests {
    det: i128,
    t00: i128,
    t01: i128,
    t02: i128,
    t10: i128,
    t11: i128,
    t12: i128,
    t20: i128,
    t21: i128,
    t22: i128,
}

impl EdgeTests {
    /// Every field within the bounds that a matrix of `i32` entries allows.
    spec fn bounded(self) -> bool {
        &&& -ADJ_BOUND <= self.t00 <= ADJ_BOUND
        &&& -ADJ_BOUND <= self.t01 <= ADJ_BOUND
        &&& -ADJ_BOUND <= self.t02 <= ADJ_BOUND
        &&& -ADJ_BOUND <= self.t10 <= ADJ_BOUND
        &&& -ADJ_BOUND <= self.t11 <= ADJ_BOUND
        &&& -ADJ_BOUND <= self.t12 <= ADJ_BOUND
        &&& -ADJ_BOUND <= self.t20 <= ADJ_BOUND
        &&& -ADJ_BOUND <= self.t21 <= ADJ_BOUND
        &&& -ADJ_BOUND <= self.t22 <= ADJ_BOUND
        &&& -DET_BOUND <= self.det <= DET_BOUND
    }

    /// The fields hold exactly the adjugate and determinant of `m`.
    spec fn matches_matrix(self, m: Mat3) -> bool {
        &&& self.det == det(m)
        &&& self.t00 == adj00(m)
        &&& self.t01 == adj01(m)
        &&& self.t02 == adj02(m)
        &&& self.t10 == adj10(m)
        &&& self.t11 == adj11(m)
        &&& self.t12 == adj12(m)
        &&& self.t20 == adj20(m)
        &&& self.t21 == adj21(m)
        &&& self.t22 == adj22(m)
    }
}

/// Inverts the face matrix `m`, up to the scale factor `det(m)`: computes
/// the exact adjugate and determinant. Fails with `DegenerateGeometry` — and
/// only then — when the determinant is zero, i.e. when `m` is singular.
fn invert(m: &Mat3) -> (r: Result<EdgeTests, RasterError>)
    ensures
        det(*m) == 0 ==> r == Err::<EdgeTests, RasterError>(RasterError::DegenerateGeometry),
        det(*m) != 0 ==> (r matches Ok(et) && et.matches_matrix(*m) && et.bounded() && et.det != 0),
{
    let t00: i128 = diff_prod(m.c1.1, m.c2.2, m.c2.1, m.c1.2);
    let t01: i128 = diff_prod(m.c2.0, m.c1.2, m.c1.0, m.c2.2);
    let t02: i128 = diff_prod(m.c1.0, m.c2.1, m.c2.0, m.c1.1);
    let t10: i128 = diff_prod(m.c2.1, m.c0.2, m.c0.1, m.c2.2);
    let t11: i128 = diff_prod(m.c0.0, m.c2.2, m.c2.0, m.c0.2);
    let t12: i128 = diff_prod(m.c2.0, m.c0.1, m.c0.0, m.c2.1);
    let t20: i128 = diff_prod(m.c0.1, m.c1.2, m.c1.1, m.c0.2);
    let t21: i128 = diff_prod(m.c1.0, m.c0.2, m.c0.0, m.c1.2);
    let t22: i128 = diff_prod(m.c0.0, m.c1.1, m.c1.0, m.c0.1);
    proof {
        lemma_mul_bound(m.c0.0 as int, t00 as int, 0x8000_0000, ADJ_BOUND as int);
        lemma_mul_bound(m.c1.0 as int, t10 as int, 0x8000_0000, ADJ_BOUND as int);
        lemma_mul_bound(m.c2.0 as int, t20 as int, 0x8000_0000, ADJ_BOUND as int);
    }
    let d: i128 = (m.c0.0 as i128) * t00 + (m.c1.0 as i128) * t10 + (m.c2.0 as i128) * t20;
    if d == 0 {
        Err(RasterError::DegenerateGeometry)
    } else {
        Ok(EdgeTests { det: d, t00, t01, t02, t10, t11, t12, t20, t21, t22 })
    }
}

/// Whether the sample `(sx, sy, sw)` lies inside the face whose inverted
/// matrix `et` holds: all three components of `inverse * sample` are at
/// least zero, read as sign tests on the adjugate products.
fn edge_tests_inside(et: &EdgeTests, sx: i64, sy: i64, sw: i64) -> (r: bool)
    requires
        et.bounded(),
        et.det != 0,
        -SAMPLE_BOUND <= sx <= SAMPLE_BOUND,
        -SAMPLE_BOUND <= sy <= SAMPLE_BOUND,
        -SAMPLE_BOUND <= sw <= SAMPLE_BOUND,
    ensures
        r == (if et.det > 0 {
            et.t00 * sx + et.t01 * sy + et.t02 * sw >= 0 && et.t10 * sx + et.t11 * sy + et.t12 * sw
                >= 0 && et.t20 * sx + et.t21 * sy + et.t22 * sw >= 0
        } else {
            et.t00 * sx + et.t01 * sy + et.t02 * sw <= 0 && et.t10 * sx + et.t11 * sy + et.t12 * sw
                <= 0 && et.t20 * sx + et.t21 * sy + et.t22 * sw <= 0
        }),
{
    proof {
        lemma_mul_bound(et.t00 as int, sx as int, ADJ_BOUND as int, SAMPLE_BOUND as int);
        lemma_mul_bound(et.t01 as int, sy as int, ADJ_BOUND as int, SAMPLE_BOUND as int);
        lemma_mul_bound(et.t02 as int, sw as int, ADJ_BOUND as int, SAMPLE_BOUND as int);
        lemma_mul_bound(et.t10 as int, sx as int, ADJ_BOUND as int, SAMPLE_BOUND as int);
        lemma_mul_bound(et.t11 as int, sy as int, ADJ_BOUND as int, SAMPLE_BOUND as int);
        lemma_mul_bound(et.t12 as int, sw as int, ADJ_BOUND as int, SAMPLE_BOUND as int);
        lemma_mul_bound(et.t20 as int, sx as int, ADJ_BOUND as int, SAMPLE_BOUND as int);
        lemma_mul_bound(et.t21 as int, sy as int, ADJ_BOUND as int, SAMPLE_BOUND as int);
        lemma_mul_bound(et.t22 as int, sw as int, ADJ_BOUND as int, SAMPLE_BOUND as int);
    }
    let l0: i128 = et.t00 * (sx as i128) + et.t01 * (sy as i128) + et.t02 * (sw as i128);
    let l1: i128 = et.t10 * (sx as i128) + et.t11 * (sy as i128) + et.t12 * (sw as i128);
    let l2: i128 = et.t20 * (sx as i128) + et.t21 * (sy as i128) + et.t22 * (sw as i128);
    if et.det > 0 {
        l0 >= 0 && l1 >= 0 && l2 >= 0
    } else {
        l0 <= 0 && l1 <= 0 && l2 <= 0
    }
}

/// Pixel `(x, y)` of a `width`-by-`height` row-major grid lies inside the
/// backing buffer.
proof fn lemma_row_major_index(width: int, height: int, x: int, y: int)
    requires
        0 <= x < width,
        0 <= y < height,
    ensures
        0 <= y * width + x < width * height,
{
    assert(0 <= y * width + x < width * height) by (nonlinear_arith)
        requires
            0 <= x < width,
            0 <= y < height,
    ;
}

/// Distinct pixels of one row-major grid have distinct buffer indices.
proof fn lemma_row_major_distinct(width: int, x1: int, y1: int, x2: int, y2: int)
    requires
        0 <= x1 < width,
        0 <= x2 < width,
        0 <= y1,
        0 <= y2,
        !(x1 == x2 && y1 == y2),
    ensures
        y1 * width + x1 != y2 * width + x2,
{
    assert(y1 * width + x1 != y2 * width + x2) by (nonlinear_arith)
        requires
            0 <= x1 < width,
            0 <= x2 < width,
            0 <= y1,
            0 <= y2,
            !(x1 == x2 && y1 == y2),
    ;
}

/// Classifies one homogeneous sample against one face matrix: `Ok(true)`
/// when every barycentric component of `inverse(m) * sample` is at least
/// zero, `Ok(false)` when some component is negative, and
/// `DegenerateGeometry` — exactly when `det(m) == 0` — for a face that
/// cannot be inverted.
pub fn classify_sample(m: &Mat3, sx: i64, sy: i64, sw: i64) -> (r: Result<bool, RasterError>)
    requires
        -SAMPLE_BOUND <= sx <= SAMPLE_BOUND,
        -SAMPLE_BOUND <= sy <= SAMPLE_BOUND,
        -SAMPLE_BOUND <= sw <= SAMPLE_BOUND,
    ensures
        det(*m) == 0 ==> r == Err::<bool, RasterError>(RasterError::DegenerateGeometry),
        det(*m) != 0 ==> r == Ok::<bool, RasterError>(inside(*m, sx as int, sy as int, sw as int)),
{
    match invert(m) {
        Err(e) => Err(e),
        Ok(et) => {
            let cov = edge_tests_inside(&et, sx, sy, sw);
            Ok(cov)
        },
    }
}

/// Fully repaints one frame: every pixel of the row-major `width * height`
/// buffer is first set to `background`, then the faces are painted in store
/// order, later faces overwriting earlier ones at shared pixels (no depth
/// test). A pixel ends up `fill` exactly when some nondegenerate face covers
/// its centre. A degenerate face is skipped and tallied — never fatal to the
/// frame — and the returned count reports how many faces were skipped, so no
/// error path is silent. The dimension bounds are those of the windowing
/// collaborator, which hands dimensions as 32-bit values.
#[verifier::loop_isolation(false)]
pub fn redraw(
    buffer: &mut Vec<u32>,
    store: &RasterBuffer,
    width: usize,
    height: usize,
    fill: u32,
    background: u32,
) -> (degenerate: usize)
    requires
        store.wf(),
        old(buffer)@.len() == width * height,
        width <= 0xffff_ffff,
        height <= 0xffff_ffff,
    ensures
        final(buffer)@.len() == width * height,
        forall|x: int, y: int|
            0 <= x < width && 0 <= y < height ==> final(buffer)@[y * width + x] == (
            if pixel_covered(store.verts(), store.faces(), x, y) {
                fill
            } else {
                background
            }),
        degenerate == degen_count(store.verts(), store.faces(), store.faces().len() as int),
{
    let ghost verts = store.verts();
    let ghost faces = store.faces();
    let len: usize = buffer.len();

    let mut p: usize = 0;
    while p < len
        invariant
            p <= len,
            buffer@.len() == len,
            forall|q: int| 0 <= q < p ==> buffer@[q] == background,
        decreases len - p,
    {
        buffer.set(p, background);
        p += 1;
    }

    proof {
        assert forall|x: int, y: int| 0 <= x < width && 0 <= y < height implies buffer@[y * width
            + x] == #[trigger] pixel_val(verts, faces, 0, fill, background, x, y) by {
            lemma_row_major_index(width as int, height as int, x, y);
            assert(buffer@[y * width + x] == background);
        };
    }

    let nfaces: usize = store.face_count();
    let mut degenerate: usize = 0;
    let mut k: usize = 0;
    while k < nfaces
        invariant
            k <= nfaces,
            degenerate <= k,
            degenerate == degen_count(verts, faces, k as int),
            buffer@.len() == len,
            forall|x: int, y: int|
                0 <= x < width && 0 <= y < height ==> buffer@[y * width + x] == #[trigger] pixel_val(
                    verts,
                    faces,
                    k as int,
                    fill,
                    background,
                    x,
                    y,
                ),
        decreases nfaces - k,
    {
        let m = match store.face_to_matrix(k) {
            Ok(m) => m,
            Err(_) => {
                // k < nfaces, so the query cannot be out of range
                proof {
                    assert(false);
                }
                Mat3::from_cols((0, 0, 0), (0, 0, 0), (0, 0, 0))
            },
        };
        proof {
            assert(m == face_matrix_of(verts, faces[k as int]));
        }
        match invert(&m) {
            Err(_) => {
                proof {
                    assert forall|x: int, y: int| 0 <= x < width && 0 <= y < height implies
                        pixel_val(verts, faces, k as int + 1, fill, background, x, y) == #[trigger] pixel_val(
                        verts,
                        faces,
                        k as int,
                        fill,
                        background,
                        x,
                        y,
                    ) by {
                        lemma_covered_unfold(verts, faces, k as int, x, y);
                    };
                    assert forall|x: int, y: int| 0 <= x < width && 0 <= y < height implies
                        buffer@[y * width + x] == #[trigger] pixel_val(
                        verts,
                        faces,
                        k as int + 1,
                        fill,
                        background,
                        x,
                        y,
                    ) by {
                        assert(buffer@[y * width + x] == pixel_val(
                            verts,
                            faces,
                            k as int,
                            fill,
                            background,
                            x,
                            y,
                        ));
                    };
                }
                degenerate += 1;
            },
            Ok(et) => {
                proof {
                    assert(degen_count(verts, faces, k as int + 1) == degen_count(
                        verts,
                        faces,
                        k as int,
                    ));
                }
                let mut y: usize = 0;
                while y < height
                    invariant
                        y <= height,
                        buffer@.len() == len,
                        forall|xx: int, yy: int|
                            0 <= xx < width && 0 <= yy < y ==> buffer@[yy * width + xx]
                                == #[trigger] pixel_val(verts, faces, k as int + 1, fill, background, xx, yy),
                        forall|xx: int, yy: int|
                            0 <= xx < width && y <= yy < height ==> buffer@[yy * width + xx]
                                == #[trigger] pixel_val(verts, faces, k as int, fill, background, xx, yy),
                    decreases height - y,
                {
                    let sy: i64 = 2 * (y as i64) + 1;
                    let mut x: usize = 0;
                    while x < width
                        invariant
                            x <= width,
                            y < height,
                            buffer@.len() == len,
                            forall|xx: int, yy: int|
                                0 <= xx < width && 0 <= yy < y ==> buffer@[yy * width + xx]
                                    == #[trigger] pixel_val(
                                    verts,
                                    faces,
                                    k as int + 1,
                                    fill,
                                    background,
                                    xx,
                                    yy,
                                ),
                            forall|xx: int|
                                0 <= xx < x ==> buffer@[y * width + xx] == #[trigger] pixel_val(
                                    verts,
                                    faces,
                                    k as int + 1,
                                    fill,
                                    background,
                                    xx,
                                    y as int,
                                ),
                            forall|xx: int|
                                x <= xx < width ==> buffer@[y * width + xx] == #[trigger] pixel_val(
                                    verts,
                                    faces,
                                    k as int,
                                    fill,
                                    background,
                                    xx,
                                    y as int,
                                ),
                            forall|xx: int, yy: int|
                                0 <= xx < width && y < yy < height ==> buffer@[yy * width + xx]
                                    == #[trigger] pixel_val(verts, faces, k as int, fill, background, xx, yy),
                        decreases width - x,
                    {
                        let sx: i64 = 2 * (x as i64) + 1;
                        let cov = edge_tests_inside(&et, sx, sy, 2);
                        proof {
                            lemma_row_major_index(width as int, height as int, x as int, y as int);
                            lemma_covered_unfold(verts, faces, k as int, x as int, y as int);
                            assert(cov == inside(
                                face_matrix_of(verts, faces[k as int]),
                                2 * (x as int) + 1,
                                2 * (y as int) + 1,
                                2,
                            ));
                        }
                        let idx: usize = y * width + x;
                        let ghost pre = buffer@;
                        if cov {
                            buffer.set(idx, fill);
                        }
                        proof {
                            assert forall|xx: int, yy: int|
                                0 <= xx < width && 0 <= yy < y implies buffer@[yy * width + xx]
                                == #[trigger] pixel_val(
                                verts,
                                faces,
                                k as int + 1,
                                fill,
                                background,
                                xx,
                                yy,
                            ) by {
                                lemma_row_major_index(width as int, height as int, xx, yy);
                                lemma_row_major_distinct(width as int, xx, yy, x as int, y as int);
                                assert(pre[yy * width + xx] == pixel_val(
                                    verts,
                                    faces,
                                    k as int + 1,
                                    fill,
                                    background,
                                    xx,
                                    yy,
                                ));
                            };
                            assert forall|xx: int, yy: int|
                                0 <= xx < width && y < yy < height implies buffer@[yy * width + xx]
                                == #[trigger] pixel_val(verts, faces, k as int, fill, background, xx, yy) by {
                                lemma_row_major_index(width as int, height as int, xx, yy);
                                lemma_row_major_distinct(width as int, xx, yy, x as int, y as int);
                                assert(pre[yy * width + xx] == pixel_val(
                                    verts,
                                    faces,
                                    k as int,
                                    fill,
                                    background,
                                    xx,
                                    yy,
                                ));
                            };
                            assert forall|xx: int| 0 <= xx < x + 1 implies buffer@[y * width + xx]
                                == #[trigger] pixel_val(
                                verts,
                                faces,
                                k as int + 1,
                                fill,
                                background,
                                xx,
                                y as int,
                            ) by {
                                lemma_row_major_index(width as int, height as int, xx, y as int);
                                if xx == x as int {
                                    if cov {
                                        assert(buffer@[y * width + xx] == fill);
                                    } else {
                                        assert(buffer@[y * width + xx] == pixel_val(
                                            verts,
                                            faces,
                                            k as int,
                                            fill,
                                            background,
                                            xx,
                                            y as int,
                                        ));
                                    }
                                } else {
                                    assert(pre[y * width + xx] == pixel_val(
                                        verts,
                                        faces,
                                        k as int + 1,
                                        fill,
                                        background,
                                        xx,
                                        y as int,
                                    ));
                                }
                            };
                            assert forall|xx: int| x + 1 <= xx < width implies buffer@[y * width
                                + xx] == #[trigger] pixel_val(
                                verts,
                                faces,
                                k as int,
                                fill,
                                background,
                                xx,
                                y as int,
                            ) by {
                                lemma_row_major_index(width as int, height as int, xx, y as int);
                                assert(pre[y * width + xx] == pixel_val(
                                    verts,
                                    faces,
                                    k as int,
                                    fill,
                                    background,
                                    xx,
                                    y as int,
                                ));
                            };
                        }
                        x += 1;
                    }
                    proof {
                        assert forall|xx: int, yy: int|
                            0 <= xx < width && 0 <= yy < y + 1 implies buffer@[yy * width + xx]
                            == #[trigger] pixel_val(verts, faces, k as int + 1, fill, background, xx, yy) by {
                            if yy == y as int {
                                assert(buffer@[y * width + xx] == pixel_val(
                                    verts,
                                    faces,
                                    k as int + 1,
                                    fill,
                                    background,
                                    xx,
                                    y as int,
                                ));
                            }
                        };
                    }
                    y += 1;
                }
                proof {
                    assert forall|x: int, y: int| 0 <= x < width && 0 <= y < height implies
                        buffer@[y * width + x] == #[trigger] pixel_val(
                        verts,
                        faces,
                        k as int + 1,
                        fill,
                        background,
                        x,
                        y,
                    ) by {
                        assert(buffer@[y * width + x] == pixel_val(
                            verts,
                            faces,
                            k as int + 1,
                            fill,
                            background,
                            x,
                            y,
                        ));
                    };
                }
            },
        }
        k += 1;
    }
    proof {
        assert forall|x: int, y: int| 0 <= x < width && 0 <= y < height implies buffer@[y * width
            + x] == (if pixel_covered(verts, faces, x, y) {
            fill
        } else {
            background
        }) by {
            assert(buffer@[y * width + x] == pixel_val(
                verts,
                faces,
                nfaces as int,
                fill,
                background,
                x,
                y,
            ));
        };
    }
    degenerate
}

} // verus!
