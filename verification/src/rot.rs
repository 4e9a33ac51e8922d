//! The rotation codec: decodes the compact 8-bit rotation encoding used by
//! voxel model files into one of the 24 cube rotations.
//!
//! Bits 0-1 select the input axis that the first output row reads, bits 2-3
//! the axis of the second row; the third row reads the remaining axis.  Bits
//! 4, 5 and 6 negate the first, second and third row.  An encoding is invalid
//! when either selector is the reserved value 3 or when both selectors name
//! the same axis; callers substitute the identity rotation for invalid
//! encodings.

use vstd::prelude::*;
use crate::math::{
    axis_of, colx, coly, colz, is_signed_perm, row_is_signed_axis, sdet, sdot, sidentity, smulm,
    transpose, Mat3, V3,
};

verus! {

/// The first-row axis selector of an encoded rotation.
pub open spec fn axis0_of_byte(b: u8) -> u8 {
    b & 3
}

/// The second-row axis selector of an encoded rotation.
pub open spec fn axis1_of_byte(b: u8) -> u8 {
    (b >> 2) & 3
}

/// A rotation byte is valid when both axis selectors name real, distinct
/// axes.
pub open spec fn valid_rot_byte(b: u8) -> bool {
    axis0_of_byte(b) < 3 && axis1_of_byte(b) < 3 && axis0_of_byte(b) != axis1_of_byte(b)
}

/// The signed basis vector that reads `axis`, negated when `neg` holds.
pub open spec fn signed_axis_row(axis: int, neg: bool) -> V3 {
    if axis == 0 {
        if neg {
            V3 { x: -1i64, y: 0i64, z: 0i64 }
        } else {
            V3 { x: 1i64, y: 0i64, z: 0i64 }
        }
    } else if axis == 1 {
        if neg {
            V3 { x: 0i64, y: -1i64, z: 0i64 }
        } else {
            V3 { x: 0i64, y: 1i64, z: 0i64 }
        }
    } else {
        if neg {
            V3 { x: 0i64, y: 0i64, z: -1i64 }
        } else {
            V3 { x: 0i64, y: 0i64, z: 1i64 }
        }
    }
}

/// The matrix a valid rotation byte denotes.
pub open spec fn spec_decode(b: u8) -> Mat3 {
    Mat3 {
        rx: signed_axis_row(axis0_of_byte(b) as int, b & 16 != 0),
        ry: signed_axis_row(axis1_of_byte(b) as int, b & 32 != 0),
        rz: signed_axis_row(3 - axis0_of_byte(b) - axis1_of_byte(b), b & 64 != 0),
    }
}

/// The rotation an optional encoding stands for: a valid byte decodes, a
/// missing or invalid one falls back to the identity.
pub open spec fn rot_of_code(code: Option<u8>) -> Mat3 {
    match code {
        Option::None => sidentity(),
        Option::Some(b) => if valid_rot_byte(b) {
            spec_decode(b)
        } else {
            sidentity()
        },
    }
}

/// Decodes a rotation byte, or reports an invalid encoding.
pub fn decode_rotation(b: u8) -> (r: Option<Mat3>)
    ensures
        r is Some <==> valid_rot_byte(b),
        r is Some ==> r->0 == spec_decode(b) && is_signed_perm(r->0),
{
    let a0: u8 = b & 3;
    let a1: u8 = (b >> 2) & 3;
    proof {
        assert(b & 3 < 4) by (bit_vector);
        assert((b >> 2) & 3 < 4) by (bit_vector);
    }
    if a0 >= 3 || a1 >= 3 || a0 == a1 {
        return None;
    }
    let a2: u8 = 3 - a0 - a1;
    let m = Mat3 {
        rx: exec_signed_axis_row(a0, b & 16 != 0),
        ry: exec_signed_axis_row(a1, b & 32 != 0),
        rz: exec_signed_axis_row(a2, b & 64 != 0),
    };
    Some(m)
}

/// Decodes a rotation byte, substituting the identity for a missing or
/// invalid encoding.
pub fn decode_rotation_or_identity(code: Option<u8>) -> (r: Mat3)
    ensures
        r == rot_of_code(code),
        is_signed_perm(r),
{
    match code {
        None => Mat3::identity(),
        Some(b) => match decode_rotation(b) {
            Some(m) => m,
            None => Mat3::identity(),
        },
    }
}

fn exec_signed_axis_row(axis: u8, neg: bool) -> (r: V3)
    requires
        axis < 3,
    ensures
        r == signed_axis_row(axis as int, neg),
        row_is_signed_axis(r),
        axis_of(r) == axis as int,
{
    if axis == 0 {
        if neg { V3 { x: -1, y: 0, z: 0 } } else { V3 { x: 1, y: 0, z: 0 } }
    } else if axis == 1 {
        if neg { V3 { x: 0, y: -1, z: 0 } } else { V3 { x: 0, y: 1, z: 0 } }
    } else {
        if neg { V3 { x: 0, y: 0, z: -1 } } else { V3 { x: 0, y: 0, z: 1 } }
    }
}

/// Every cube rotation is orthogonal with determinant 1 or -1, and each of
/// its rows and columns holds exactly one nonzero entry, which is 1 or -1.
/// In particular this holds of every decoded rotation matrix.
pub proof fn lemma_signed_perm_orthogonal(m: Mat3)
    requires
        is_signed_perm(m),
    ensures
        smulm(m, transpose(m)) == sidentity(),
        sdet(m) == 1 || sdet(m) == -1,
        row_is_signed_axis(colx(m)),
        row_is_signed_axis(coly(m)),
        row_is_signed_axis(colz(m)),
        axis_of(colx(m)) != axis_of(coly(m)),
        axis_of(colx(m)) != axis_of(colz(m)),
        axis_of(coly(m)) != axis_of(colz(m)),
{
    assert(sdot(m.rx, m.rx) == 1) by (nonlinear_arith)
        requires
            row_is_signed_axis(m.rx),
    ;
    assert(sdot(m.ry, m.ry) == 1) by (nonlinear_arith)
        requires
            row_is_signed_axis(m.ry),
    ;
    assert(sdot(m.rz, m.rz) == 1) by (nonlinear_arith)
        requires
            row_is_signed_axis(m.rz),
    ;
    assert(sdot(m.rx, m.ry) == 0 && sdot(m.ry, m.rx) == 0) by (nonlinear_arith)
        requires
            row_is_signed_axis(m.rx),
            row_is_signed_axis(m.ry),
            axis_of(m.rx) != axis_of(m.ry),
    ;
    assert(sdot(m.rx, m.rz) == 0 && sdot(m.rz, m.rx) == 0) by (nonlinear_arith)
        requires
            row_is_signed_axis(m.rx),
            row_is_signed_axis(m.rz),
            axis_of(m.rx) != axis_of(m.rz),
    ;
    assert(sdot(m.ry, m.rz) == 0 && sdot(m.rz, m.ry) == 0) by (nonlinear_arith)
        requires
            row_is_signed_axis(m.ry),
            row_is_signed_axis(m.rz),
            axis_of(m.ry) != axis_of(m.rz),
    ;
    assert(colx(transpose(m)) == m.rx);
    assert(coly(transpose(m)) == m.ry);
    assert(colz(transpose(m)) == m.rz);
    assert(smulm(m, transpose(m)) == sidentity());
    assert(sdet(m) == 1 || sdet(m) == -1) by (nonlinear_arith)
        requires
            is_signed_perm(m),
    ;
}

/// The decoded matrix of every valid rotation byte is a cube rotation, so it
/// enjoys all the properties above.
pub proof fn lemma_decode_valid_is_rotation(b: u8)
    requires
        valid_rot_byte(b),
    ensures
        is_signed_perm(spec_decode(b)),
        smulm(spec_decode(b), transpose(spec_decode(b))) == sidentity(),
        sdet(spec_decode(b)) == 1 || sdet(spec_decode(b)) == -1,
{
    lemma_signed_perm_orthogonal(spec_decode(b));
}

/// An encoding whose two axis selectors coincide is rejected: it never
/// silently produces a singular matrix, the identity is substituted instead.
pub proof fn lemma_same_axis_encoding_rejected(b: u8)
    requires
        axis0_of_byte(b) == axis1_of_byte(b),
    ensures
        !valid_rot_byte(b),
        rot_of_code(Some(b)) == sidentity(),
{
}

} // verus!
