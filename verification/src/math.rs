//! Integer 3-vectors and the 3x3 signed axis-permutation matrices used as
//! cube rotations.
//!
//! Every rotation this library handles is one of the 24 symmetries of the
//! cube: a matrix whose rows are signed standard basis vectors with pairwise
//! distinct axes.  All vector arithmetic is exact `i64` arithmetic, guarded by
//! generous coordinate bounds so that no operation can overflow.

use vstd::prelude::*;

verus! {

/// Any coordinate this library accepts or produces stays well inside this
/// bound, which leaves headroom for every sum the pipeline forms.
pub const COORD_LIMIT: i64 = 0x2000_0000_0000_0000;

#[derive(Clone, Copy, PartialEq, Eq, Structural, Debug)]
pub struct V3 {
    pub x: i64,
    pub y: i64,
    pub z: i64,
}

impl V3 {
    /// All three components lie in `[-b, b]`.
    pub open spec fn bounded(self, b: int) -> bool {
        -b <= self.x <= b && -b <= self.y <= b && -b <= self.z <= b
    }

    pub fn new(x: i64, y: i64, z: i64) -> (r: V3)
        ensures
            r == (V3 { x, y, z }),
    {
        V3 { x, y, z }
    }

    pub fn zero() -> (r: V3)
        ensures
            r == (V3 { x: 0i64, y: 0i64, z: 0i64 }),
    {
        V3 { x: 0, y: 0, z: 0 }
    }

    pub fn one() -> (r: V3)
        ensures
            r == (V3 { x: 1i64, y: 1i64, z: 1i64 }),
    {
        V3 { x: 1, y: 1, z: 1 }
    }

    /// Componentwise sum; the bound keeps the additions exact.
    pub fn plus(self, o: V3) -> (r: V3)
        requires
            self.bounded(COORD_LIMIT as int),
            o.bounded(COORD_LIMIT as int),
        ensures
            r == svadd(self, o),
            r.x == self.x + o.x,
            r.y == self.y + o.y,
            r.z == self.z + o.z,
    {
        V3 { x: self.x + o.x, y: self.y + o.y, z: self.z + o.z }
    }
}

/// Componentwise sum at the specification level.  The casts are exact
/// whenever both vectors are bounded by `COORD_LIMIT`.
pub open spec fn svadd(a: V3, b: V3) -> V3 {
    V3 { x: (a.x + b.x) as i64, y: (a.y + b.y) as i64, z: (a.z + b.z) as i64 }
}

/// A row of a cube rotation: a signed standard basis vector.
pub open spec fn row_is_signed_axis(r: V3) -> bool {
    ||| r == (V3 { x: 1i64, y: 0i64, z: 0i64 })
    ||| r == (V3 { x: -1i64, y: 0i64, z: 0i64 })
    ||| r == (V3 { x: 0i64, y: 1i64, z: 0i64 })
    ||| r == (V3 { x: 0i64, y: -1i64, z: 0i64 })
    ||| r == (V3 { x: 0i64, y: 0i64, z: 1i64 })
    ||| r == (V3 { x: 0i64, y: 0i64, z: -1i64 })
}

/// Which input axis a signed basis row reads.
pub open spec fn axis_of(r: V3) -> int {
    if r.x != 0 {
        0
    } else if r.y != 0 {
        1
    } else {
        2
    }
}

/// What the dot product of a signed basis row with `v` selects: one
/// component of `v`, possibly negated.
pub open spec fn select_component(r: V3, v: V3) -> int {
    if r == (V3 { x: 1i64, y: 0i64, z: 0i64 }) {
        v.x as int
    } else if r == (V3 { x: -1i64, y: 0i64, z: 0i64 }) {
        -(v.x as int)
    } else if r == (V3 { x: 0i64, y: 1i64, z: 0i64 }) {
        v.y as int
    } else if r == (V3 { x: 0i64, y: -1i64, z: 0i64 }) {
        -(v.y as int)
    } else if r == (V3 { x: 0i64, y: 0i64, z: 1i64 }) {
        v.z as int
    } else {
        -(v.z as int)
    }
}

/// A 3x3 integer matrix, stored by rows.
#[derive(Clone, Copy, PartialEq, Eq, Structural, Debug)]
pub struct Mat3 {
    pub rx: V3,
    pub ry: V3,
    pub rz: V3,
}

/// One of the 24 cube rotations: rows are signed basis vectors reading
/// pairwise distinct input axes.
pub open spec fn is_signed_perm(m: Mat3) -> bool {
    &&& row_is_signed_axis(m.rx)
    &&& row_is_signed_axis(m.ry)
    &&& row_is_signed_axis(m.rz)
    &&& axis_of(m.rx) != axis_of(m.ry)
    &&& axis_of(m.rx) != axis_of(m.rz)
    &&& axis_of(m.ry) != axis_of(m.rz)
}

pub open spec fn sdot(a: V3, b: V3) -> int {
    a.x * b.x + a.y * b.y + a.z * b.z
}

/// The dot product of a signed basis row reduces to selecting a component.
pub proof fn lemma_sdot_select(r: V3, v: V3)
    requires
        row_is_signed_axis(r),
    ensures
        sdot(r, v) == select_component(r, v),
{
    assert(sdot(r, v) == select_component(r, v)) by (nonlinear_arith)
        requires
            row_is_signed_axis(r),
    ;
}

pub open spec fn colx(m: Mat3) -> V3 {
    V3 { x: m.rx.x, y: m.ry.x, z: m.rz.x }
}

pub open spec fn coly(m: Mat3) -> V3 {
    V3 { x: m.rx.y, y: m.ry.y, z: m.rz.y }
}

pub open spec fn colz(m: Mat3) -> V3 {
    V3 { x: m.rx.z, y: m.ry.z, z: m.rz.z }
}

pub open spec fn transpose(m: Mat3) -> Mat3 {
    Mat3 { rx: colx(m), ry: coly(m), rz: colz(m) }
}

/// Matrix-vector product at the specification level.
pub open spec fn smulv(m: Mat3, v: V3) -> V3 {
    V3 { x: sdot(m.rx, v) as i64, y: sdot(m.ry, v) as i64, z: sdot(m.rz, v) as i64 }
}

/// One row of a matrix product.
pub open spec fn prod_row(a: V3, b: Mat3) -> V3 {
    V3 { x: sdot(a, colx(b)) as i64, y: sdot(a, coly(b)) as i64, z: sdot(a, colz(b)) as i64 }
}

/// Matrix-matrix product at the specification level.
pub open spec fn smulm(a: Mat3, b: Mat3) -> Mat3 {
    Mat3 { rx: prod_row(a.rx, b), ry: prod_row(a.ry, b), rz: prod_row(a.rz, b) }
}

pub open spec fn sneg(v: V3) -> V3 {
    V3 { x: (-v.x) as i64, y: (-v.y) as i64, z: (-v.z) as i64 }
}

pub open spec fn sidentity() -> Mat3 {
    Mat3 {
        rx: V3 { x: 1i64, y: 0i64, z: 0i64 },
        ry: V3 { x: 0i64, y: 1i64, z: 0i64 },
        rz: V3 { x: 0i64, y: 0i64, z: 1i64 },
    }
}

/// Entrywise absolute value; entries of a cube rotation are -1, 0 or 1.
pub open spec fn sabs_mat(m: Mat3) -> Mat3 {
    Mat3 { rx: sabs_row(m.rx), ry: sabs_row(m.ry), rz: sabs_row(m.rz) }
}

pub open spec fn sabs_row(r: V3) -> V3 {
    V3 { x: sabs64(r.x), y: sabs64(r.y), z: sabs64(r.z) }
}

pub open spec fn sabs64(e: i64) -> i64 {
    if e < 0 {
        (-e) as i64
    } else {
        e
    }
}

pub open spec fn sdet(m: Mat3) -> int {
    m.rx.x * (m.ry.y * m.rz.z - m.ry.z * m.rz.y) - m.rx.y * (m.ry.x * m.rz.z - m.ry.z * m.rz.x)
        + m.rx.z * (m.ry.x * m.rz.y - m.ry.y * m.rz.x)
}

impl Mat3 {
    pub fn identity() -> (r: Mat3)
        ensures
            r == sidentity(),
            is_signed_perm(r),
    {
        Mat3 {
            rx: V3 { x: 1, y: 0, z: 0 },
            ry: V3 { x: 0, y: 1, z: 0 },
            rz: V3 { x: 0, y: 0, z: 1 },
        }
    }

    /// Applies the rotation to a vector.  Since each row reads exactly one
    /// component, the result is a signed permutation of the components.
    pub fn mul_vec(self, v: V3) -> (r: V3)
        requires
            is_signed_perm(self),
            v.bounded(COORD_LIMIT as int),
        ensures
            r == smulv(self, v),
            r.x == sdot(self.rx, v),
            r.y == sdot(self.ry, v),
            r.z == sdot(self.rz, v),
            forall|b: int| 0 <= b && v.bounded(b) ==> r.bounded(b),
    {
        let r = V3 {
            x: dot_signed_axis(self.rx, v),
            y: dot_signed_axis(self.ry, v),
            z: dot_signed_axis(self.rz, v),
        };
        proof {
            assert forall|b: int| 0 <= b && v.bounded(b) implies r.bounded(b) by {
                lemma_dot_signed_axis_bounded(self.rx, v, b);
                lemma_dot_signed_axis_bounded(self.ry, v, b);
                lemma_dot_signed_axis_bounded(self.rz, v, b);
            }
        }
        r
    }

    /// Composes two cube rotations; the product is again a cube rotation.
    pub fn mul_mat(self, o: Mat3) -> (r: Mat3)
        requires
            is_signed_perm(self),
            is_signed_perm(o),
        ensures
            r == smulm(self, o),
            is_signed_perm(r),
    {
        proof {
            lemma_entries_small(o);
            lemma_prod_row_signed(self.rx, o);
            lemma_prod_row_signed(self.ry, o);
            lemma_prod_row_signed(self.rz, o);
        }
        Mat3 {
            rx: V3 {
                x: dot_signed_axis(self.rx, col_x(o)),
                y: dot_signed_axis(self.rx, col_y(o)),
                z: dot_signed_axis(self.rx, col_z(o)),
            },
            ry: V3 {
                x: dot_signed_axis(self.ry, col_x(o)),
                y: dot_signed_axis(self.ry, col_y(o)),
                z: dot_signed_axis(self.ry, col_z(o)),
            },
            rz: V3 {
                x: dot_signed_axis(self.rz, col_x(o)),
                y: dot_signed_axis(self.rz, col_y(o)),
                z: dot_signed_axis(self.rz, col_z(o)),
            },
        }
    }

    /// Entrywise absolute value; used for the rotated extent of a model.
    pub fn abs_mat(self) -> (r: Mat3)
        requires
            is_signed_perm(self),
        ensures
            r == sabs_mat(self),
            is_signed_perm(r),
    {
        Mat3 { rx: abs_row(self.rx), ry: abs_row(self.ry), rz: abs_row(self.rz) }
    }
}

fn col_x(m: Mat3) -> (r: V3)
    ensures
        r == colx(m),
{
    V3 { x: m.rx.x, y: m.ry.x, z: m.rz.x }
}

fn col_y(m: Mat3) -> (r: V3)
    ensures
        r == coly(m),
{
    V3 { x: m.rx.y, y: m.ry.y, z: m.rz.y }
}

fn col_z(m: Mat3) -> (r: V3)
    ensures
        r == colz(m),
{
    V3 { x: m.rx.z, y: m.ry.z, z: m.rz.z }
}

fn abs_row(r: V3) -> (a: V3)
    requires
        row_is_signed_axis(r),
    ensures
        a == sabs_row(r),
        row_is_signed_axis(a),
        axis_of(a) == axis_of(r),
{
    V3 {
        x: if r.x < 0 { -r.x } else { r.x },
        y: if r.y < 0 { -r.y } else { r.y },
        z: if r.z < 0 { -r.z } else { r.z },
    }
}

/// Dot product of a signed basis row with an arbitrary vector: selects one
/// component, possibly negated.
fn dot_signed_axis(r: V3, v: V3) -> (d: i64)
    requires
        row_is_signed_axis(r),
        v.bounded(COORD_LIMIT as int),
    ensures
        d == sdot(r, v),
{
    proof {
        lemma_sdot_select(r, v);
    }
    let tx: i64 = if r.x == 1 { v.x } else if r.x == -1 { -v.x } else { 0 };
    let ty: i64 = if r.y == 1 { v.y } else if r.y == -1 { -v.y } else { 0 };
    let tz: i64 = if r.z == 1 { v.z } else if r.z == -1 { -v.z } else { 0 };
    tx + ty + tz
}

pub proof fn lemma_dot_signed_axis_bounded(r: V3, v: V3, b: int)
    requires
        row_is_signed_axis(r),
        v.bounded(b),
        0 <= b,
    ensures
        -b <= sdot(r, v) <= b,
{
    lemma_sdot_select(r, v);
}

/// Every entry of a cube rotation is -1, 0 or 1, so its columns are bounded
/// vectors.
pub proof fn lemma_entries_small(m: Mat3)
    requires
        is_signed_perm(m),
    ensures
        colx(m).bounded(1),
        coly(m).bounded(1),
        colz(m).bounded(1),
        colx(m).bounded(COORD_LIMIT as int),
        coly(m).bounded(COORD_LIMIT as int),
        colz(m).bounded(COORD_LIMIT as int),
{
}

/// A signed basis row times a cube rotation is a signed basis row again, and
/// it reads the axis that the selected row of the right factor reads.
pub proof fn lemma_prod_row_signed(a: V3, b: Mat3)
    requires
        row_is_signed_axis(a),
        is_signed_perm(b),
    ensures
        row_is_signed_axis(prod_row(a, b)),
        axis_of(prod_row(a, b)) == axis_of(
            if axis_of(a) == 0 {
                b.rx
            } else if axis_of(a) == 1 {
                b.ry
            } else {
                b.rz
            },
        ),
{
    lemma_sdot_select(a, colx(b));
    lemma_sdot_select(a, coly(b));
    lemma_sdot_select(a, colz(b));
    if a == (V3 { x: 1i64, y: 0i64, z: 0i64 }) {
        assert(prod_row(a, b) == b.rx);
    } else if a == (V3 { x: -1i64, y: 0i64, z: 0i64 }) {
        assert(prod_row(a, b) == sneg(b.rx));
    } else if a == (V3 { x: 0i64, y: 1i64, z: 0i64 }) {
        assert(prod_row(a, b) == b.ry);
    } else if a == (V3 { x: 0i64, y: -1i64, z: 0i64 }) {
        assert(prod_row(a, b) == sneg(b.ry));
    } else if a == (V3 { x: 0i64, y: 0i64, z: 1i64 }) {
        assert(prod_row(a, b) == b.rz);
    } else {
        assert(prod_row(a, b) == sneg(b.rz));
    }
}

/// The identity is neutral for the spec-level matrix-vector product.
pub proof fn lemma_identity_mul(v: V3)
    requires
        v.bounded(COORD_LIMIT as int),
    ensures
        smulv(sidentity(), v) == v,
{
    lemma_sdot_select(sidentity().rx, v);
    lemma_sdot_select(sidentity().ry, v);
    lemma_sdot_select(sidentity().rz, v);
}

} // verus!
