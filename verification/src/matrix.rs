//! Square matrices of two, three and four rows, with determinants by
//! cofactor expansion and the inverse of a four-row matrix.

use vstd::prelude::*;
use crate::scalar::{
    add_raw, div_raw, lemma_mul_by_one, lemma_mul_by_zero, magnitude, mul_raw, sub_raw, Scalar,
    EPSILON_RAW, LIMIT, SCALE,
};
use crate::tuple::{Tuple, TupleView};

verus! {

/// The raw entries of a matrix, row by row.
pub type MatrixView = Seq<Seq<int>>;

/// A matrix of two rows and columns.
#[derive(Clone, Copy, Debug, PartialEq, Eq)]
pub struct Matrix2 {
    pub m: [[Scalar; 2]; 2],
}

/// A matrix of three rows and columns.
#[derive(Clone, Copy, Debug, PartialEq, Eq)]
pub struct Matrix3 {
    pub m: [[Scalar; 3]; 3],
}

/// A matrix of four rows and columns.
#[derive(Clone, Copy, Debug, PartialEq, Eq)]
pub struct Matrix4 {
    pub m: [[Scalar; 4]; 4],
}

impl View for Matrix2 {
    type V = MatrixView;

    open spec fn view(&self) -> MatrixView {
        Seq::new(2, |r: int| Seq::new(2, |c: int| self.m[r][c]@))
    }
}

impl View for Matrix3 {
    type V = MatrixView;

    open spec fn view(&self) -> MatrixView {
        Seq::new(3, |r: int| Seq::new(3, |c: int| self.m[r][c]@))
    }
}

impl View for Matrix4 {
    type V = MatrixView;

    open spec fn view(&self) -> MatrixView {
        Seq::new(4, |r: int| Seq::new(4, |c: int| self.m[r][c]@))
    }
}

/// Index in the larger matrix of row or column `k` of a submatrix from which
/// index `removed` was taken out.
pub open spec fn skip(k: int, removed: int) -> int {
    if k >= removed {
        k + 1
    } else {
        k
    }
}

/// The matrix without column `col` and row `row`.
pub open spec fn submatrix_view(m: MatrixView, col: int, row: int) -> MatrixView {
    Seq::new(
        (m.len() - 1) as nat,
        |r: int| Seq::new((m.len() - 1) as nat, |c: int| m[skip(r, row)][skip(c, col)]),
    )
}

/// The determinant of a matrix of two rows: `m00 m11 - m01 m10`.
#[verifier::opaque]
pub open spec fn det2(m: MatrixView) -> int {
    sub_raw(mul_raw(m[0][0], m[1][1]), mul_raw(m[0][1], m[1][0]))
}

/// The determinant of a matrix of three rows without column `col` and row
/// `row`.
pub open spec fn minor3(m: MatrixView, col: int, row: int) -> int {
    det2(submatrix_view(m, col, row))
}

/// The minor, negated when column and row index add up to an odd number.
pub open spec fn cofactor3(m: MatrixView, col: int, row: int) -> int {
    if (col + row) % 2 == 0 {
        minor3(m, col, row)
    } else {
        -minor3(m, col, row)
    }
}

/// Expansion along the first row, summed from the left starting at zero.
#[verifier::opaque]
pub open spec fn det3(m: MatrixView) -> int {
    add_raw(
        add_raw(
            add_raw(0, mul_raw(m[0][0], cofactor3(m, 0, 0))),
            mul_raw(m[0][1], cofactor3(m, 1, 0)),
        ),
        mul_raw(m[0][2], cofactor3(m, 2, 0)),
    )
}

/// The determinant of a matrix of four rows without column `col` and row
/// `row`.
pub open spec fn minor4(m: MatrixView, col: int, row: int) -> int {
    det3(submatrix_view(m, col, row))
}

/// The minor, negated when column and row index add up to an odd number.
pub open spec fn cofactor4(m: MatrixView, col: int, row: int) -> int {
    if (col + row) % 2 == 0 {
        minor4(m, col, row)
    } else {
        -minor4(m, col, row)
    }
}

/// Expansion along the first row, summed from the left starting at zero.
#[verifier::opaque]
pub open spec fn det4(m: MatrixView) -> int {
    add_raw(
        add_raw(
            add_raw(
                add_raw(0, mul_raw(m[0][0], cofactor4(m, 0, 0))),
                mul_raw(m[0][1], cofactor4(m, 1, 0)),
            ),
            mul_raw(m[0][2], cofactor4(m, 2, 0)),
        ),
        mul_raw(m[0][3], cofactor4(m, 3, 0)),
    )
}

/// Row `r` of a four-row matrix as a tuple.
pub open spec fn row_of(m: MatrixView, r: int) -> TupleView {
    TupleView { x: m[r][0], y: m[r][1], z: m[r][2], w: m[r][3] }
}

/// Column `c` of a four-row matrix as a tuple.
pub open spec fn column_of(m: MatrixView, c: int) -> TupleView {
    TupleView { x: m[0][c], y: m[1][c], z: m[2][c], w: m[3][c] }
}

/// Ones on the diagonal, zeros elsewhere.
pub open spec fn identity_view() -> MatrixView {
    Seq::new(4, |r: int| Seq::new(4, |c: int| if r == c { SCALE as int } else { 0 }))
}

/// Rows and columns exchanged.
pub open spec fn transpose_view(m: MatrixView) -> MatrixView {
    Seq::new(4, |r: int| Seq::new(4, |c: int| m[c][r]))
}

/// Entry `(r, c)` is row `r` of `a` times column `c` of `b`.
pub open spec fn product_view(a: MatrixView, b: MatrixView) -> MatrixView {
    Seq::new(4, |r: int| Seq::new(4, |c: int| row_of(a, r).dot(column_of(b, c))))
}

/// The matrix applied to a tuple: each component is a row times the tuple.
pub open spec fn apply_view(m: MatrixView, t: TupleView) -> TupleView {
    TupleView {
        x: row_of(m, 0).dot(t),
        y: row_of(m, 1).dot(t),
        z: row_of(m, 2).dot(t),
        w: row_of(m, 3).dot(t),
    }
}

/// Whether a determinant is of a size at which the matrix is inverted as it
/// stands: between a thousandth and a thousand in magnitude. A smaller one
/// has lost its digits to rounding, and a larger one may be clamped.
pub open spec fn det_is_plain(d: int) -> bool {
    SCALE / 1000 <= magnitude(d) <= 1000 * SCALE
}

/// The scale of row `r`: the largest magnitude among its first three
/// entries, or, where these are all zero, the magnitude of the fourth.
pub open spec fn row_scale(m: MatrixView, r: int) -> int {
    if row_of(m, r).largest_component() > 0 {
        row_of(m, r).largest_component()
    } else {
        magnitude(m[r][3])
    }
}

/// The matrix with every row divided by its scale.
pub open spec fn row_scaled_view(m: MatrixView) -> MatrixView {
    Seq::new(4, |r: int| Seq::new(4, |c: int| div_raw(m[r][c], row_scale(m, r))))
}

/// The transposed matrix of cofactors, each divided by the determinant.
pub open spec fn cofactor_inverse_view(m: MatrixView) -> MatrixView {
    Seq::new(4, |r: int| Seq::new(4, |c: int| div_raw(cofactor4(m, r, c), det4(m))))
}

/// Whether a four-row matrix has an inverse: its determinant is not zero.
/// Where the determinant of the matrix as it stands is not of a plain size,
/// the determinant of the matrix with scaled rows decides: it is zero if it
/// does not reach the tolerance, below which it is lost in the rounding of
/// its products.
pub open spec fn invertible(m: MatrixView) -> bool {
    det_is_plain(det4(m)) || magnitude(det4(row_scaled_view(m))) >= EPSILON_RAW
}

/// The inverse: the cofactors over the determinant. Where the determinant
/// is not of a plain size, the matrix with scaled rows is inverted in this
/// way, and every column of the result is divided by the scale of the row
/// that it belongs to.
pub open spec fn inverse_view(m: MatrixView) -> MatrixView {
    if det_is_plain(det4(m)) {
        cofactor_inverse_view(m)
    } else {
        Seq::new(
            4,
            |r: int|
                Seq::new(
                    4,
                    |c: int|
                        div_raw(cofactor_inverse_view(row_scaled_view(m))[r][c], row_scale(m, c)),
                ),
        )
    }
}

/// Row-wise equality up to the tolerance.
pub open spec fn near_view(a: MatrixView, b: MatrixView) -> bool {
    forall|r: int| 0 <= r < 4 ==> (#[trigger] row_of(a, r)).near(row_of(b, r))
}

fn skip_index(k: usize, removed: usize) -> (r: usize)
    requires
        k < usize::MAX,
    ensures
        r == skip(k as int, removed as int),
{
    if k >= removed {
        k + 1
    } else {
        k
    }
}

impl Matrix2 {
    /// `m00 m11 - m01 m10`
    pub fn determinant(&self) -> (d: Scalar)
        ensures
            d@ == det2(self@),
    {
        reveal(det2);
        self.m[0][0].mul(self.m[1][1]).sub(self.m[0][1].mul(self.m[1][0]))
    }
}

impl Matrix3 {
    /// The matrix without column `i` and row `j`.
    pub fn submatrix(&self, i: usize, j: usize) -> (s: Matrix2)
        requires
            i < 3,
            j < 3,
        ensures
            s@ == submatrix_view(self@, i as int, j as int),
    {
        let r0 = skip_index(0, j);
        let r1 = skip_index(1, j);
        let c0 = skip_index(0, i);
        let c1 = skip_index(1, i);
        let s = Matrix2 {
            m: [[self.m[r0][c0], self.m[r0][c1]], [self.m[r1][c0], self.m[r1][c1]]],
        };
        assert(s@ =~~= submatrix_view(self@, i as int, j as int));
        s
    }

    /// The determinant of the matrix without column `i` and row `j`.
    pub fn minor(&self, i: usize, j: usize) -> (d: Scalar)
        requires
            i < 3,
            j < 3,
        ensures
            d@ == minor3(self@, i as int, j as int),
    {
        self.submatrix(i, j).determinant()
    }

    /// The minor, negated when `i` and `j` add up to an odd number.
    pub fn cofactor(&self, i: usize, j: usize) -> (d: Scalar)
        requires
            i < 3,
            j < 3,
        ensures
            d@ == cofactor3(self@, i as int, j as int),
    {
        let minor = self.minor(i, j);
        if (i + j) % 2 == 0 {
            minor
        } else {
            minor.neg()
        }
    }

    /// The determinant, by expansion along the first row.
    pub fn determinant(&self) -> (d: Scalar)
        ensures
            d@ == det3(self@),
    {
        reveal(det3);
        let mut d = Scalar::zero();
        d = d.add(self.m[0][0].mul(self.cofactor(0, 0)));
        d = d.add(self.m[0][1].mul(self.cofactor(1, 0)));
        d = d.add(self.m[0][2].mul(self.cofactor(2, 0)));
        d
    }
}

impl Matrix4 {
    /// The matrix that maps every tuple to itself.
    pub fn identity() -> (r: Matrix4)
        ensures
            r@ == identity_view(),
    {
        let o = Scalar::one();
        let z = Scalar::zero();
        let r = Matrix4 { m: [[o, z, z, z], [z, o, z, z], [z, z, o, z], [z, z, z, o]] };
        assert(r@ =~~= identity_view());
        r
    }

    /// Row `r` as a tuple.
    pub fn row(&self, r: usize) -> (t: Tuple)
        requires
            r < 4,
        ensures
            t@ == row_of(self@, r as int),
    {
        Tuple { x: self.m[r][0], y: self.m[r][1], z: self.m[r][2], w: self.m[r][3] }
    }

    /// Column `c` as a tuple.
    pub fn column(&self, c: usize) -> (t: Tuple)
        requires
            c < 4,
        ensures
            t@ == column_of(self@, c as int),
    {
        Tuple { x: self.m[0][c], y: self.m[1][c], z: self.m[2][c], w: self.m[3][c] }
    }

    /// Whether every entry equals that of the other matrix up to the
    /// tolerance.
    pub fn is_equal(&self, other: Matrix4) -> (r: bool)
        ensures
            r == near_view(self@, other@),
    {
        let r = self.row(0).is_equal(other.row(0)) && self.row(1).is_equal(other.row(1))
            && self.row(2).is_equal(other.row(2)) && self.row(3).is_equal(other.row(3));
        proof {
            if r {
                assert forall|k: int| 0 <= k < 4 implies (#[trigger] row_of(self@, k)).near(
                    row_of(other@, k),
                ) by {
                    if k == 0 {
                    } else if k == 1 {
                    } else if k == 2 {
                    } else {
                    }
                }
            } else {
                if !row_of(self@, 0).near(row_of(other@, 0)) {
                } else if !row_of(self@, 1).near(row_of(other@, 1)) {
                } else if !row_of(self@, 2).near(row_of(other@, 2)) {
                } else {
                    assert(!row_of(self@, 3).near(row_of(other@, 3)));
                }
            }
        }
        r
    }

    fn product_row(&self, other: &Matrix4, r: usize) -> (t: [Scalar; 4])
        requires
            r < 4,
        ensures
            forall|c: int| 0 <= c < 4 ==> (#[trigger] t[c])@ == row_of(self@, r as int).dot(column_of(other@, c)),
    {
        let row = self.row(r);
        [
            row.dot(other.column(0)),
            row.dot(other.column(1)),
            row.dot(other.column(2)),
            row.dot(other.column(3)),
        ]
    }

    /// The product of this matrix with another.
    pub fn multiply_matrix(&self, other: Matrix4) -> (r: Matrix4)
        ensures
            r@ == product_view(self@, other@),
    {
        let r = Matrix4 {
            m: [
                self.product_row(&other, 0),
                self.product_row(&other, 1),
                self.product_row(&other, 2),
                self.product_row(&other, 3),
            ],
        };
        assert(r@ =~~= product_view(self@, other@));
        r
    }

    /// The matrix applied to a tuple.
    pub fn multiply_tuple(&self, t: Tuple) -> (r: Tuple)
        ensures
            r@ == apply_view(self@, t@),
    {
        Tuple {
            x: self.row(0).dot(t),
            y: self.row(1).dot(t),
            z: self.row(2).dot(t),
            w: self.row(3).dot(t),
        }
    }

    /// The matrix with rows and columns exchanged.
    pub fn transpose(&self) -> (r: Matrix4)
        ensures
            r@ == transpose_view(self@),
    {
        let r = Matrix4 {
            m: [
                [self.m[0][0], self.m[1][0], self.m[2][0], self.m[3][0]],
                [self.m[0][1], self.m[1][1], self.m[2][1], self.m[3][1]],
                [self.m[0][2], self.m[1][2], self.m[2][2], self.m[3][2]],
                [self.m[0][3], self.m[1][3], self.m[2][3], self.m[3][3]],
            ],
        };
        assert(r@ =~~= transpose_view(self@));
        r
    }

    fn submatrix_row(&self, r: usize, i: usize) -> (t: [Scalar; 3])
        requires
            r < 4,
            i < 4,
        ensures
            forall|c: int| 0 <= c < 3 ==> (#[trigger] t[c])@ == self@[r as int][skip(c, i as int)],
    {
        let c0 = skip_index(0, i);
        let c1 = skip_index(1, i);
        let c2 = skip_index(2, i);
        [self.m[r][c0], self.m[r][c1], self.m[r][c2]]
    }

    /// The matrix without column `i` and row `j`.
    pub fn submatrix(&self, i: usize, j: usize) -> (s: Matrix3)
        requires
            i < 4,
            j < 4,
        ensures
            s@ == submatrix_view(self@, i as int, j as int),
    {
        let r0 = skip_index(0, j);
        let r1 = skip_index(1, j);
        let r2 = skip_index(2, j);
        let s = Matrix3 {
            m: [self.submatrix_row(r0, i), self.submatrix_row(r1, i), self.submatrix_row(r2, i)],
        };
        assert(s@ =~~= submatrix_view(self@, i as int, j as int));
        s
    }

    /// The determinant of the matrix without column `i` and row `j`.
    pub fn minor(&self, i: usize, j: usize) -> (d: Scalar)
        requires
            i < 4,
            j < 4,
        ensures
            d@ == minor4(self@, i as int, j as int),
    {
        self.submatrix(i, j).determinant()
    }

    /// The minor, negated when `i` and `j` add up to an odd number.
    pub fn cofactor(&self, i: usize, j: usize) -> (d: Scalar)
        requires
            i < 4,
            j < 4,
        ensures
            d@ == cofactor4(self@, i as int, j as int),
    {
        let minor = self.minor(i, j);
        if (i + j) % 2 == 0 {
            minor
        } else {
            minor.neg()
        }
    }

    /// The determinant, by expansion along the first row.
    pub fn determinant(&self) -> (d: Scalar)
        ensures
            d@ == det4(self@),
    {
        reveal(det4);
        let mut d = Scalar::zero();
        d = d.add(self.m[0][0].mul(self.cofactor(0, 0)));
        d = d.add(self.m[0][1].mul(self.cofactor(1, 0)));
        d = d.add(self.m[0][2].mul(self.cofactor(2, 0)));
        d = d.add(self.m[0][3].mul(self.cofactor(3, 0)));
        d
    }

    fn inverse_row(&self, r: usize, d: Scalar) -> (t: [Scalar; 4])
        requires
            r < 4,
        ensures
            forall|c: int| 0 <= c < 4 ==> (#[trigger] t[c])@ == div_raw(cofactor4(self@, r as int, c), d@),
    {
        [
            self.cofactor(r, 0).div(d),
            self.cofactor(r, 1).div(d),
            self.cofactor(r, 2).div(d),
            self.cofactor(r, 3).div(d),
        ]
    }

    /// The cofactors over the determinant `d`.
    fn cofactor_inverse(&self, d: Scalar) -> (r: Matrix4)
        requires
            d@ == det4(self@),
        ensures
            r@ == cofactor_inverse_view(self@),
    {
        let inv = Matrix4 {
            m: [
                self.inverse_row(0, d),
                self.inverse_row(1, d),
                self.inverse_row(2, d),
                self.inverse_row(3, d),
            ],
        };
        assert(inv@ =~~= cofactor_inverse_view(self@));
        inv
    }

    /// The scale of row `r`.
    fn scale_of_row(&self, r: usize) -> (scale: Scalar)
        requires
            r < 4,
        ensures
            scale@ == row_scale(self@, r as int),
    {
        let spatial = self.m[r][0].abs().max(self.m[r][1].abs()).max(self.m[r][2].abs());
        if spatial.gt(Scalar::zero()) {
            spatial
        } else {
            self.m[r][3].abs()
        }
    }

    /// Row `r` with every entry divided by `scale`.
    fn scaled_row(&self, r: usize, scale: Scalar) -> (t: [Scalar; 4])
        requires
            r < 4,
        ensures
            forall|c: int| 0 <= c < 4 ==> (#[trigger] t[c])@ == div_raw(self@[r as int][c], scale@),
    {
        [
            self.m[r][0].div(scale),
            self.m[r][1].div(scale),
            self.m[r][2].div(scale),
            self.m[r][3].div(scale),
        ]
    }

    /// Row `r` with the entry of every column divided by the scale that
    /// belongs to the column.
    fn unscaled_row(&self, r: usize, scales: &[Scalar; 4]) -> (t: [Scalar; 4])
        requires
            r < 4,
        ensures
            forall|c: int| 0 <= c < 4 ==> (#[trigger] t[c])@ == div_raw(self@[r as int][c], scales[c]@),
    {
        [
            self.m[r][0].div(scales[0]),
            self.m[r][1].div(scales[1]),
            self.m[r][2].div(scales[2]),
            self.m[r][3].div(scales[3]),
        ]
    }

    /// The inverse, or `None` for a matrix that has none.
    pub fn inverse(&self) -> (r: Option<Matrix4>)
        ensures
            r is Some <==> invertible(self@),
            r matches Some(inv) ==> inv@ == inverse_view(self@),
    {
        let d = self.determinant();
        let size = d.abs();
        if size.ge(Scalar::from_raw(SCALE / 1000)) && size.le(Scalar::from_int(1000)) {
            Some(self.cofactor_inverse(d))
        } else {
            let scales = [
                self.scale_of_row(0),
                self.scale_of_row(1),
                self.scale_of_row(2),
                self.scale_of_row(3),
            ];
            let scaled = Matrix4 {
                m: [
                    self.scaled_row(0, scales[0]),
                    self.scaled_row(1, scales[1]),
                    self.scaled_row(2, scales[2]),
                    self.scaled_row(3, scales[3]),
                ],
            };
            assert(scaled@ =~~= row_scaled_view(self@));
            let scaled_d = scaled.determinant();
            if scaled_d.abs().lt(Scalar::epsilon()) {
                None
            } else {
                let inner = scaled.cofactor_inverse(scaled_d);
                let inv = Matrix4 {
                    m: [
                        inner.unscaled_row(0, &scales),
                        inner.unscaled_row(1, &scales),
                        inner.unscaled_row(2, &scales),
                        inner.unscaled_row(3, &scales),
                    ],
                };
                assert(inv@ =~~= inverse_view(self@));
                Some(inv)
            }
        }
    }
}

/// The identity maps every tuple to itself.
pub proof fn lemma_identity_applies(t: TupleView)
    requires
        -LIMIT <= t.x <= LIMIT,
        -LIMIT <= t.y <= LIMIT,
        -LIMIT <= t.z <= LIMIT,
        -LIMIT <= t.w <= LIMIT,
    ensures
        apply_view(identity_view(), t) == t,
{
    lemma_mul_by_one(t.x);
    lemma_mul_by_one(t.y);
    lemma_mul_by_one(t.z);
    lemma_mul_by_one(t.w);
    lemma_mul_by_zero(t.x);
    lemma_mul_by_zero(t.y);
    lemma_mul_by_zero(t.z);
    lemma_mul_by_zero(t.w);
}

/// The determinant of the matrix of three rows with the entries `a` to `i`,
/// row by row, as the expansion along the first row computes it.
pub open spec fn det3_of(a: int, b: int, c: int, d: int, e: int, f: int, g: int, h: int, i: int)
    -> int {
    add_raw(
        add_raw(
            add_raw(0, mul_raw(a, sub_raw(mul_raw(e, i), mul_raw(f, h)))),
            mul_raw(b, -sub_raw(mul_raw(d, i), mul_raw(f, g))),
        ),
        mul_raw(c, sub_raw(mul_raw(d, h), mul_raw(e, g))),
    )
}

/// The determinant of a matrix of three rows, by its entries.
pub proof fn lemma_det3_by_entries(m: MatrixView)
    requires
        m.len() == 3,
    ensures
        det3(m) == det3_of(
            m[0][0],
            m[0][1],
            m[0][2],
            m[1][0],
            m[1][1],
            m[1][2],
            m[2][0],
            m[2][1],
            m[2][2],
        ),
{
    reveal(det3);
    reveal(det2);
    let m0 = submatrix_view(m, 0, 0);
    let m1 = submatrix_view(m, 1, 0);
    let m2 = submatrix_view(m, 2, 0);
    assert(m0[0][0] == m[1][1] && m0[0][1] == m[1][2] && m0[1][0] == m[2][1] && m0[1][1]
        == m[2][2]);
    assert(m1[0][0] == m[1][0] && m1[0][1] == m[1][2] && m1[1][0] == m[2][0] && m1[1][1]
        == m[2][2]);
    assert(m2[0][0] == m[1][0] && m2[0][1] == m[1][1] && m2[1][0] == m[2][0] && m2[1][1]
        == m[2][1]);
}

/// A cofactor of a matrix of four rows, by the entries that are left without
/// column `col` and row `row`.
pub proof fn lemma_cofactor4_by_entries(m: MatrixView, col: int, row: int)
    requires
        m.len() == 4,
        0 <= col < 4,
        0 <= row < 4,
    ensures
        cofactor4(m, col, row) == ({
            let r0 = skip(0, row);
            let r1 = skip(1, row);
            let r2 = skip(2, row);
            let c0 = skip(0, col);
            let c1 = skip(1, col);
            let c2 = skip(2, col);
            let minor = det3_of(
                m[r0][c0],
                m[r0][c1],
                m[r0][c2],
                m[r1][c0],
                m[r1][c1],
                m[r1][c2],
                m[r2][c0],
                m[r2][c1],
                m[r2][c2],
            );
            if (col + row) % 2 == 0 {
                minor
            } else {
                -minor
            }
        }),
{
    let sub = submatrix_view(m, col, row);
    lemma_det3_by_entries(sub);
    assert(sub[0][0] == m[skip(0, row)][skip(0, col)]);
    assert(sub[0][1] == m[skip(0, row)][skip(1, col)]);
    assert(sub[0][2] == m[skip(0, row)][skip(2, col)]);
    assert(sub[1][0] == m[skip(1, row)][skip(0, col)]);
    assert(sub[1][1] == m[skip(1, row)][skip(1, col)]);
    assert(sub[1][2] == m[skip(1, row)][skip(2, col)]);
    assert(sub[2][0] == m[skip(2, row)][skip(0, col)]);
    assert(sub[2][1] == m[skip(2, row)][skip(1, col)]);
    assert(sub[2][2] == m[skip(2, row)][skip(2, col)]);
}

} // verus!
