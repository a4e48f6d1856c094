//! Matrices of the affine transformations, and the view transformation.

use vstd::prelude::*;
use crate::matrix::{
    cofactor3, cofactor4, det2, det3, det4, det_is_plain, identity_view, inverse_view,
    invertible, lemma_cofactor4_by_entries, product_view, submatrix_view, Matrix4, MatrixView,
};
use crate::scalar::{
    cos_raw, div_raw, lemma_div_by_whole, lemma_div_of_zero_and_self, lemma_mul_by_one,
    lemma_mul_by_zero, lemma_mul_in_range, mul_raw, sin_raw, Scalar, LIMIT, SCALE,
};
use crate::tuple::{Tuple, TupleView};

verus! {

/// The four-row matrix with the given rows.
pub open spec fn rows_view(r0: TupleView, r1: TupleView, r2: TupleView, r3: TupleView) -> MatrixView {
    seq![
        seq![r0.x, r0.y, r0.z, r0.w],
        seq![r1.x, r1.y, r1.z, r1.w],
        seq![r2.x, r2.y, r2.z, r2.w],
        seq![r3.x, r3.y, r3.z, r3.w],
    ]
}

/// The last row of every affine transformation: `(0, 0, 0, 1)`.
pub open spec fn affine_row() -> TupleView {
    TupleView { x: 0, y: 0, z: 0, w: SCALE as int }
}

/// The move by `(x, y, z)`.
pub open spec fn translation_view(x: int, y: int, z: int) -> MatrixView {
    rows_view(
        TupleView { x: SCALE as int, y: 0, z: 0, w: x },
        TupleView { x: 0, y: SCALE as int, z: 0, w: y },
        TupleView { x: 0, y: 0, z: SCALE as int, w: z },
        affine_row(),
    )
}

/// The scaling by `x`, `y` and `z` along the axes.
pub open spec fn scaling_view(x: int, y: int, z: int) -> MatrixView {
    rows_view(
        TupleView { x: x, y: 0, z: 0, w: 0 },
        TupleView { x: 0, y: y, z: 0, w: 0 },
        TupleView { x: 0, y: 0, z: z, w: 0 },
        affine_row(),
    )
}

/// Rotation about the x axis by an angle in radians.
pub open spec fn rotation_x_view(t: int) -> MatrixView {
    let sine = sin_raw(t);
    let cosine = cos_raw(t);
    rows_view(
        TupleView { x: SCALE as int, y: 0, z: 0, w: 0 },
        TupleView { x: 0, y: cosine, z: -sine, w: 0 },
        TupleView { x: 0, y: sine, z: cosine, w: 0 },
        affine_row(),
    )
}

/// Rotation about the y axis by an angle in radians.
pub open spec fn rotation_y_view(t: int) -> MatrixView {
    let sine = sin_raw(t);
    let cosine = cos_raw(t);
    rows_view(
        TupleView { x: cosine, y: 0, z: sine, w: 0 },
        TupleView { x: 0, y: SCALE as int, z: 0, w: 0 },
        TupleView { x: -sine, y: 0, z: cosine, w: 0 },
        affine_row(),
    )
}

/// Rotation about the z axis by an angle in radians.
pub open spec fn rotation_z_view(t: int) -> MatrixView {
    let sine = sin_raw(t);
    let cosine = cos_raw(t);
    rows_view(
        TupleView { x: cosine, y: -sine, z: 0, w: 0 },
        TupleView { x: sine, y: cosine, z: 0, w: 0 },
        TupleView { x: 0, y: 0, z: SCALE as int, w: 0 },
        affine_row(),
    )
}

/// The shearing that moves x in proportion to y and z, y in proportion to x
/// and z, and z in proportion to x and y.
pub open spec fn shearing_view(xy: int, xz: int, yx: int, yz: int, zx: int, zy: int) -> MatrixView {
    rows_view(
        TupleView { x: SCALE as int, y: xy, z: xz, w: 0 },
        TupleView { x: yx, y: SCALE as int, z: yz, w: 0 },
        TupleView { x: zx, y: zy, z: SCALE as int, w: 0 },
        affine_row(),
    )
}

/// The orientation of an eye at `from` looking at `to`, followed by the move
/// of the eye into the origin.
pub open spec fn view_transform_view(from: TupleView, to: TupleView, up: TupleView) -> MatrixView {
    let forward = to.minus(from).normalized();
    let left = forward.cross(up.normalized());
    let true_up = left.cross(forward);
    product_view(
        rows_view(left, true_up, forward.negated(), affine_row()),
        translation_view(-from.x, -from.y, -from.z),
    )
}

fn from_rows(r0: Tuple, r1: Tuple, r2: Tuple, r3: Tuple) -> (m: Matrix4)
    ensures
        m@ == rows_view(r0@, r1@, r2@, r3@),
{
    let m = Matrix4 {
        m: [
            [r0.x, r0.y, r0.z, r0.w],
            [r1.x, r1.y, r1.z, r1.w],
            [r2.x, r2.y, r2.z, r2.w],
            [r3.x, r3.y, r3.z, r3.w],
        ],
    };
    assert(m@ =~~= rows_view(r0@, r1@, r2@, r3@));
    m
}

/// The move by `(x, y, z)`.
pub fn translation(x: Scalar, y: Scalar, z: Scalar) -> (m: Matrix4)
    ensures
        m@ == translation_view(x@, y@, z@),
{
    let o = Scalar::one();
    let n = Scalar::zero();
    from_rows(
        Tuple::new(o, n, n, x),
        Tuple::new(n, o, n, y),
        Tuple::new(n, n, o, z),
        Tuple::new(n, n, n, o),
    )
}

/// The scaling by `x`, `y` and `z` along the axes.
pub fn scaling(x: Scalar, y: Scalar, z: Scalar) -> (m: Matrix4)
    ensures
        m@ == scaling_view(x@, y@, z@),
{
    let o = Scalar::one();
    let n = Scalar::zero();
    from_rows(
        Tuple::new(x, n, n, n),
        Tuple::new(n, y, n, n),
        Tuple::new(n, n, z, n),
        Tuple::new(n, n, n, o),
    )
}

/// Rotation about the x axis by `t` radians.
pub fn rotation_x(t: Scalar) -> (m: Matrix4)
    ensures
        m@ == rotation_x_view(t@),
{
    let sine = t.sin();
    let cosine = t.cos();
    let o = Scalar::one();
    let n = Scalar::zero();
    from_rows(
        Tuple::new(o, n, n, n),
        Tuple::new(n, cosine, sine.neg(), n),
        Tuple::new(n, sine, cosine, n),
        Tuple::new(n, n, n, o),
    )
}

/// Rotation about the y axis by `t` radians.
pub fn rotation_y(t: Scalar) -> (m: Matrix4)
    ensures
        m@ == rotation_y_view(t@),
{
    let sine = t.sin();
    let cosine = t.cos();
    let o = Scalar::one();
    let n = Scalar::zero();
    from_rows(
        Tuple::new(cosine, n, sine, n),
        Tuple::new(n, o, n, n),
        Tuple::new(sine.neg(), n, cosine, n),
        Tuple::new(n, n, n, o),
    )
}

/// Rotation about the z axis by `t` radians.
pub fn rotation_z(t: Scalar) -> (m: Matrix4)
    ensures
        m@ == rotation_z_view(t@),
{
    let sine = t.sin();
    let cosine = t.cos();
    let o = Scalar::one();
    let n = Scalar::zero();
    from_rows(
        Tuple::new(cosine, sine.neg(), n, n),
        Tuple::new(sine, cosine, n, n),
        Tuple::new(n, n, o, n),
        Tuple::new(n, n, n, o),
    )
}

/// The shearing that moves x in proportion to y and z, y in proportion to x
/// and z, and z in proportion to x and y.
pub fn shearing(xy: Scalar, xz: Scalar, yx: Scalar, yz: Scalar, zx: Scalar, zy: Scalar) -> (m:
    Matrix4)
    ensures
        m@ == shearing_view(xy@, xz@, yx@, yz@, zx@, zy@),
{
    let o = Scalar::one();
    let n = Scalar::zero();
    from_rows(
        Tuple::new(o, xy, xz, n),
        Tuple::new(yx, o, yz, n),
        Tuple::new(zx, zy, o, n),
        Tuple::new(n, n, n, o),
    )
}

/// The transformation that puts an eye at `from`, looking at `to`, with `up`
/// pointing upward, into the origin looking down the negative z axis.
pub fn view(from: Tuple, to: Tuple, up: Tuple) -> (m: Matrix4)
    ensures
        m@ == view_transform_view(from@, to@, up@),
{
    let forward = to.subtract(from).normalize();
    let up_normalized = up.normalize();
    let left = forward.cross(up_normalized);
    let true_up = left.cross(forward);
    let o = Scalar::one();
    let n = Scalar::zero();
    let orientation = from_rows(left, true_up, forward.negate(), Tuple::new(n, n, n, o));
    let backward = translation(from.x.neg(), from.y.neg(), from.z.neg());
    orientation.multiply_matrix(backward)
}

/// Every move can be undone: the determinant of its matrix is one. The
/// identity is the move by nothing.
pub proof fn lemma_translation_is_invertible(x: int, y: int, z: int)
    ensures
        det4(translation_view(x, y, z)) == SCALE,
        invertible(translation_view(x, y, z)),
{
    let s = SCALE as int;
    let m = translation_view(x, y, z);
    lemma_mul_by_one(s);
    lemma_mul_by_zero(s);
    lemma_mul_by_zero(x);
    lemma_mul_by_zero(y);
    lemma_mul_by_zero(z);
    lemma_mul_by_zero(0);
    // without the first row and column: ones on the diagonal, the move in
    // the last column
    let a = submatrix_view(m, 0, 0);
    assert(a[0] =~= seq![s, 0, y] && a[1] =~= seq![0, s, z] && a[2] =~= seq![0, 0, s]);
    let a00 = submatrix_view(a, 0, 0);
    assert(a00[0] =~= seq![s, z] && a00[1] =~= seq![0, s]);
    let a20 = submatrix_view(a, 2, 0);
    assert(a20[0] =~= seq![0, s] && a20[1] =~= seq![0, 0]);
    reveal(det2);
    assert(det2(a00) == s);
    assert(det2(a20) == 0);
    assert(cofactor3(a, 0, 0) == s);
    assert(cofactor3(a, 2, 0) == 0);
    lemma_mul_by_zero(cofactor3(a, 1, 0));
    reveal(det3);
    assert(det3(a) == s);
    assert(cofactor4(m, 0, 0) == s);
    // without the first row and the last column: nothing on the diagonal
    let b = submatrix_view(m, 3, 0);
    assert(b[0] =~= seq![0, s, 0] && b[1] =~= seq![0, 0, s] && b[2] =~= seq![0, 0, 0]);
    let b10 = submatrix_view(b, 1, 0);
    assert(b10[0] =~= seq![0, s] && b10[1] =~= seq![0, 0]);
    assert(det2(b10) == 0);
    assert(cofactor3(b, 1, 0) == 0);
    lemma_mul_by_zero(cofactor3(b, 0, 0));
    lemma_mul_by_zero(cofactor3(b, 2, 0));
    assert(det3(b) == 0);
    assert(cofactor4(m, 3, 0) == 0);
    lemma_mul_by_zero(cofactor4(m, 1, 0));
    lemma_mul_by_zero(cofactor4(m, 2, 0));
    reveal(det4);
    assert(m[0] =~= seq![s, 0, 0, x]);
}

/// The identity can be undone.
pub proof fn lemma_identity_is_invertible()
    ensures
        det4(identity_view()) == SCALE,
        invertible(identity_view()),
{
    lemma_translation_is_invertible(0, 0, 0);
    assert(identity_view() =~~= translation_view(0, 0, 0));
}

/// The determinant of a scaling is the product of its three factors, so that
/// a scaling can be undone exactly where that product, as it is rounded, is
/// not zero.
pub proof fn lemma_scaling_determinant(x: int, y: int, z: int)
    requires
        -LIMIT <= z <= LIMIT,
    ensures
        det4(scaling_view(x, y, z)) == mul_raw(x, mul_raw(y, z)),
        det_is_plain(mul_raw(x, mul_raw(y, z))) ==> invertible(scaling_view(x, y, z)),
{
    let s = SCALE as int;
    let m = scaling_view(x, y, z);
    lemma_mul_by_one(z);
    lemma_mul_by_zero(0);
    // without the first row and column: the factors of y and z, and one
    let a = submatrix_view(m, 0, 0);
    assert(a[0] =~= seq![y, 0, 0] && a[1] =~= seq![0, z, 0] && a[2] =~= seq![0, 0, s]);
    let a00 = submatrix_view(a, 0, 0);
    assert(a00[0] =~= seq![z, 0] && a00[1] =~= seq![0, s]);
    reveal(det2);
    assert(det2(a00) == z);
    assert(cofactor3(a, 0, 0) == z);
    lemma_mul_by_zero(cofactor3(a, 1, 0));
    lemma_mul_by_zero(cofactor3(a, 2, 0));
    lemma_mul_in_range(y, z);
    reveal(det3);
    assert(det3(a) == mul_raw(y, z));
    assert(cofactor4(m, 0, 0) == mul_raw(y, z));
    lemma_mul_by_zero(cofactor4(m, 1, 0));
    lemma_mul_by_zero(cofactor4(m, 2, 0));
    lemma_mul_by_zero(cofactor4(m, 3, 0));
    lemma_mul_in_range(x, mul_raw(y, z));
    reveal(det4);
    assert(m[0] =~= seq![x, 0, 0, 0]);
}

/// The cofactors of the matrix of a move: one on the diagonal, the move
/// negated in the last column, zero elsewhere.
proof fn lemma_translation_cofactors(x: int, y: int, z: int, col: int, row: int)
    requires
        -LIMIT <= x <= LIMIT,
        -LIMIT <= y <= LIMIT,
        -LIMIT <= z <= LIMIT,
        0 <= col < 4,
        0 <= row < 4,
    ensures
        cofactor4(translation_view(x, y, z), col, row) == translation_view(-x, -y, -z)[col][row],
{
    let m = translation_view(x, y, z);
    assert forall|a: int| #[trigger] mul_raw(0, a) == 0 by {
        lemma_mul_by_zero(a);
    }
    assert forall|a: int| #[trigger] mul_raw(a, 0) == 0 by {
        lemma_mul_by_zero(a);
    }
    lemma_mul_by_one(SCALE as int);
    lemma_mul_by_one(x);
    lemma_mul_by_one(y);
    lemma_mul_by_one(z);
    lemma_mul_by_one(-x);
    lemma_mul_by_one(-y);
    lemma_mul_by_one(-z);
    lemma_cofactor4_by_entries(m, col, row);
}

/// A move is undone by the move back.
pub proof fn lemma_inverse_of_translation(x: int, y: int, z: int)
    requires
        -LIMIT <= x <= LIMIT,
        -LIMIT <= y <= LIMIT,
        -LIMIT <= z <= LIMIT,
    ensures
        inverse_view(translation_view(x, y, z)) == translation_view(-x, -y, -z),
{
    let m = translation_view(x, y, z);
    let back = translation_view(-x, -y, -z);
    lemma_translation_is_invertible(x, y, z);
    assert forall|r: int, c: int| 0 <= r < 4 && 0 <= c < 4 implies #[trigger] inverse_view(
        m,
    )[r][c] == back[r][c] by {
        lemma_translation_cofactors(x, y, z, r, c);
        lemma_div_by_whole(1, back[r][c]);
        assert(1 * back[r][c] == back[r][c] && 1 * SCALE == SCALE);
    }
    assert(inverse_view(m) =~~= back);
}

/// The identity is undone by itself.
pub proof fn lemma_inverse_of_identity()
    ensures
        inverse_view(identity_view()) == identity_view(),
{
    let still = translation_view(0, 0, 0);
    assert(identity_view() == still) by {
        assert(identity_view() =~~= still);
    }
    assert(inverse_view(still) == still) by {
        lemma_inverse_of_translation(0, 0, 0);
    }
}

/// The matrix that undoes a scaling: on the diagonal, for each axis, the
/// product of the factors of the two other axes over the product of all
/// three, which is about one over the factor of the axis itself.
pub open spec fn inverse_scaling_view(x: int, y: int, z: int) -> MatrixView {
    let all = mul_raw(x, mul_raw(y, z));
    rows_view(
        TupleView { x: div_raw(mul_raw(y, z), all), y: 0, z: 0, w: 0 },
        TupleView { x: 0, y: div_raw(mul_raw(x, z), all), z: 0, w: 0 },
        TupleView { x: 0, y: 0, z: div_raw(mul_raw(x, y), all), w: 0 },
        affine_row(),
    )
}

/// The cofactors of the matrix of a scaling: on the diagonal the products of
/// the other entries of the diagonal, zero elsewhere.
proof fn lemma_scaling_cofactors(x: int, y: int, z: int, col: int, row: int)
    requires
        -LIMIT <= x <= LIMIT,
        -LIMIT <= y <= LIMIT,
        -LIMIT <= z <= LIMIT,
        0 <= col < 4,
        0 <= row < 4,
    ensures
        cofactor4(scaling_view(x, y, z), col, row) == rows_view(
            TupleView { x: mul_raw(y, z), y: 0, z: 0, w: 0 },
            TupleView { x: 0, y: mul_raw(x, z), z: 0, w: 0 },
            TupleView { x: 0, y: 0, z: mul_raw(x, y), w: 0 },
            TupleView { x: 0, y: 0, z: 0, w: mul_raw(x, mul_raw(y, z)) },
        )[col][row],
{
    let m = scaling_view(x, y, z);
    assert forall|a: int| #[trigger] mul_raw(0, a) == 0 by {
        lemma_mul_by_zero(a);
    }
    assert forall|a: int| #[trigger] mul_raw(a, 0) == 0 by {
        lemma_mul_by_zero(a);
    }
    lemma_mul_by_one(x);
    lemma_mul_by_one(y);
    lemma_mul_by_one(z);
    lemma_mul_in_range(y, z);
    lemma_mul_in_range(x, z);
    lemma_mul_in_range(x, y);
    lemma_mul_in_range(x, mul_raw(y, z));
    lemma_cofactor4_by_entries(m, col, row);
}

/// A scaling with a determinant of a plain size is undone by the scaling
/// with the factors of `inverse_scaling_view`.
pub proof fn lemma_inverse_of_scaling(x: int, y: int, z: int)
    requires
        -LIMIT <= x <= LIMIT,
        -LIMIT <= y <= LIMIT,
        -LIMIT <= z <= LIMIT,
        det_is_plain(mul_raw(x, mul_raw(y, z))),
    ensures
        inverse_view(scaling_view(x, y, z)) == inverse_scaling_view(x, y, z),
{
    let m = scaling_view(x, y, z);
    let back = inverse_scaling_view(x, y, z);
    let all = mul_raw(x, mul_raw(y, z));
    lemma_scaling_determinant(x, y, z);
    lemma_div_of_zero_and_self(all);
    assert forall|r: int, c: int| 0 <= r < 4 && 0 <= c < 4 implies #[trigger] inverse_view(
        m,
    )[r][c] == back[r][c] by {
        lemma_scaling_cofactors(x, y, z, r, c);
    }
    assert(inverse_view(m) =~~= back);
}

} // verus!
