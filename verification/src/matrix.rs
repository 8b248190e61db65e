use vstd::prelude::*;

use crate::errors::{ConstructionError, DimensionError};
use crate::floatops::{add_bits, fadd, fmul, mul_bits};
use vstd::std_specs::cmp::PartialEqSpec;

verus! {

/// The sequence of row sequences held by a vector of row vectors.
pub open spec fn rows_view(d: Seq<Vec<u64>>) -> Seq<Seq<u64>> {
    Seq::new(d.len(), |i: int| d[i]@)
}

/// A well-shaped constructor input: at least one row, a non-empty first row,
/// and every row as long as the first.
pub open spec fn valid_rows(d: Seq<Seq<u64>>) -> bool {
    &&& d.len() >= 1
    &&& d[0].len() >= 1
    &&& forall|i: int| 0 <= i < d.len() ==> (#[trigger] d[i]).len() == d[0].len()
}

/// Running sum of the products of `row` with column `j` of `b` over the
/// first `k` indices, accumulated in ascending index order starting from the
/// bit pattern of positive zero, exactly as the multiplication loops do.
pub open spec fn dot_prefix(row: Seq<u64>, b: Seq<Seq<u64>>, j: int, k: int) -> u64
    decreases k,
{
    if k <= 0 {
        0u64
    } else {
        fadd(dot_prefix(row, b, j, k - 1), fmul(row[k - 1], b[k - 1][j]))
    }
}

/// Cell `(i, j)` of the product: row `i` of `a` against column `j` of `b`.
pub open spec fn product_cell(a: Seq<Seq<u64>>, b: Seq<Seq<u64>>, i: int, j: int) -> u64 {
    dot_prefix(a[i], b, j, b.len() as int)
}

/// Row `i` of the product of `a` and `b`, where `b` has `cols_b` columns.
pub open spec fn product_row(a: Seq<Seq<u64>>, b: Seq<Seq<u64>>, i: int, cols_b: nat) -> Seq<u64> {
    Seq::new(cols_b, |j: int| product_cell(a, b, i, j))
}

/// The whole product of `a` and `b`, where `b` has `cols_b` columns.
pub open spec fn product(a: Seq<Seq<u64>>, b: Seq<Seq<u64>>, cols_b: nat) -> Seq<Seq<u64>> {
    Seq::new(a.len(), |i: int| product_row(a, b, i, cols_b))
}

/// A dense row-major matrix of IEEE-754 binary64 values, each element held
/// as its 64-bit pattern. `new` is the validating constructor; every
/// operation requires the well-formedness it establishes, and none mutates
/// the matrix afterwards.
#[derive(Debug)]
pub struct Matrix {
    pub data: Vec<Vec<u64>>,
    pub rows: usize,
    pub cols: usize,
}

impl View for Matrix {
    type V = Seq<Seq<u64>>;

    open spec fn view(&self) -> Seq<Seq<u64>> {
        rows_view(self.data@)
    }
}

/// `m` is the product of `a` and `b`: `a.rows` by `b.cols`, and cell for
/// cell the bit patterns of the ordered accumulation.
pub open spec fn is_product_of(m: Matrix, a: Matrix, b: Matrix) -> bool {
    &&& m.wf()
    &&& m.rows == a.rows
    &&& m.cols == b.cols
    &&& m@ == product(a@, b@, b.cols as nat)
}

impl Matrix {
    /// The construction invariant: row and column counts are at least one,
    /// `rows` counts the stored rows, and every row holds `cols` elements.
    pub open spec fn wf(&self) -> bool {
        &&& self.rows == self.data@.len()
        &&& self.rows >= 1
        &&& self.cols >= 1
        &&& forall|i: int| 0 <= i < self.data@.len() ==> (#[trigger] self.data@[i])@.len() == self.cols
    }

    /// Validating constructor: accepts exactly the rectangular, non-empty
    /// inputs and stores them unchanged; anything ragged or empty is
    /// rejected.
    pub fn new(data: Vec<Vec<u64>>) -> (r: Result<Matrix, ConstructionError>)
        ensures
            r.is_ok() == valid_rows(rows_view(data@)),
            r matches Ok(m) ==> m.wf() && m@ == rows_view(data@) && m.rows == data@.len()
                && m.cols == rows_view(data@)[0].len(),
            r matches Err(e) ==> e == ConstructionError::RaggedRows,
    {
        if data.len() == 0 {
            return Err(ConstructionError::RaggedRows);
        }
        let cols: usize = data[0].len();
        if cols == 0 {
            return Err(ConstructionError::RaggedRows);
        }
        let rows: usize = data.len();
        let mut i: usize = 1;
        while i < rows
            invariant
                1 <= i <= rows,
                rows == data@.len(),
                cols == data@[0]@.len(),
                cols >= 1,
                forall|k: int| 0 <= k < i ==> (#[trigger] data@[k])@.len() == cols,
            decreases rows - i,
        {
            if data[i].len() != cols {
                proof {
                    let d = rows_view(data@);
                    assert(d[i as int].len() != d[0].len());
                }
                return Err(ConstructionError::RaggedRows);
            }
            i += 1;
        }
        Ok(Matrix { data, rows, cols })
    }

    /// Sequential multiplication: the classic triple loop, rows outermost,
    /// the accumulation index innermost and ascending. Fails exactly when
    /// the operands' inner dimensions disagree, reporting both.
    pub fn mul(&self, other: &Matrix) -> (r: Result<Matrix, DimensionError>)
        requires
            self.wf(),
            other.wf(),
        ensures
            r.is_ok() == (self.cols == other.rows),
            r matches Ok(m) ==> is_product_of(m, *self, *other),
            r matches Err(e) ==> e == (DimensionError { left_cols: self.cols, right_rows: other.rows }),
    {
        if self.cols != other.rows {
            return Err(DimensionError { left_cols: self.cols, right_rows: other.rows });
        }
        let data = mul_block(self, other, 0, self.rows);
        proof {
            let full = product(self@, other@, other.cols as nat);
            assert(full.subrange(0, self.rows as int) =~= full);
            assert(valid_rows(rows_view(data@)));
        }
        match Matrix::new(data) {
            Ok(m) => Ok(m),
            Err(_) => unreached(),
        }
    }
}

/// Bitwise matrix equality: the same row and column counts and, element for
/// element, identical bit patterns.
pub open spec fn matrix_eq(m1: Matrix, m2: Matrix) -> bool {
    &&& m1.rows == m2.rows
    &&& m1.cols == m2.cols
    &&& m1@ == m2@
}

impl PartialEq for Matrix {
    /// Bitwise comparison: counts and element bit patterns, nothing else.
    fn eq(&self, other: &Matrix) -> (r: bool) {
        let counts = self.rows == other.rows && self.cols == other.cols;
        let same_data = self.data == other.data;
        proof {
            if same_data {
                assert forall|i: int| 0 <= i < self.data@.len() implies self@[i] == other@[i] by {
                    assert(self.data@[i].eq_spec(&other.data@[i]));
                    assert(self.data@[i]@ =~= other.data@[i]@);
                }
                assert(self@ =~= other@);
            }
            if self@ == other@ {
                assert(self@.len() == self.data@.len());
                assert(other@.len() == other.data@.len());
                assert(self.data@.len() == other.data@.len());
                assert forall|i: int| 0 <= i < self.data@.len() implies #[trigger] self.data@[i]
                    .eq_spec(&other.data@[i]) by {
                    assert(self.data@[i]@ == self@[i]);
                    assert(other.data@[i]@ == other@[i]);
                }
            }
        }
        counts && same_data
    }
}

impl vstd::std_specs::cmp::PartialEqSpecImpl for Matrix {
    open spec fn obeys_eq_spec() -> bool {
        true
    }

    open spec fn eq_spec(&self, other: &Matrix) -> bool {
        matrix_eq(*self, *other)
    }
}

/// One product cell: `row` against column `j` of `b`, summed in ascending
/// index order into an accumulator starting at the bit pattern of zero.
fn dot_cell(row: &Vec<u64>, b: &Vec<Vec<u64>>, j: usize) -> (r: u64)
    requires
        b@.len() <= row@.len(),
        forall|k: int| 0 <= k < b@.len() ==> j < (#[trigger] b@[k])@.len(),
    ensures
        r == dot_prefix(row@, rows_view(b@), j as int, b@.len() as int),
{
    let n: usize = b.len();
    let mut acc: u64 = 0;
    let mut k: usize = 0;
    while k < n
        invariant
            k <= n,
            n == b@.len(),
            b@.len() <= row@.len(),
            forall|t: int| 0 <= t < b@.len() ==> j < (#[trigger] b@[t])@.len(),
            acc == dot_prefix(row@, rows_view(b@), j as int, k as int),
        decreases n - k,
    {
        let term: u64 = mul_bits(row[k], b[k][j]);
        acc = add_bits(acc, term);
        k += 1;
    }
    acc
}

/// Row `i` of the product of `a` and `b`, cells computed left to right.
pub(crate) fn mul_row(a: &Matrix, b: &Matrix, i: usize) -> (r: Vec<u64>)
    requires
        a.wf(),
        b.wf(),
        a.cols == b.rows,
        i < a.rows,
    ensures
        r@ == product_row(a@, b@, i as int, b.cols as nat),
{
    let cols_b: usize = b.cols;
    let mut r: Vec<u64> = Vec::new();
    let mut j: usize = 0;
    while j < cols_b
        invariant
            j <= cols_b,
            cols_b == b.cols,
            a.wf(),
            b.wf(),
            a.cols == b.rows,
            i < a.rows,
            r@.len() == j,
            forall|t: int| 0 <= t < j ==> r@[t] == product_cell(a@, b@, i as int, t),
        decreases cols_b - j,
    {
        let c: u64 = dot_cell(&a.data[i], &b.data, j);
        r.push(c);
        j += 1;
    }
    proof {
        assert(r@ =~= product_row(a@, b@, i as int, b.cols as nat));
    }
    r
}

/// The block of product rows `start..end`, computed in ascending row order.
pub(crate) fn mul_block(a: &Matrix, b: &Matrix, start: usize, end: usize) -> (r: Vec<Vec<u64>>)
    requires
        a.wf(),
        b.wf(),
        a.cols == b.rows,
        start <= end,
        end <= a.rows,
    ensures
        r@.len() == end - start,
        rows_view(r@) == product(a@, b@, b.cols as nat).subrange(start as int, end as int),
{
    let mut r: Vec<Vec<u64>> = Vec::new();
    let mut i: usize = start;
    while i < end
        invariant
            start <= i <= end,
            a.wf(),
            b.wf(),
            a.cols == b.rows,
            end <= a.rows,
            r@.len() == i - start,
            forall|t: int| 0 <= t < r@.len() ==> (#[trigger] r@[t])@ == product_row(a@, b@, start + t, b.cols as nat),
        decreases end - i,
    {
        let row = mul_row(a, b, i);
        r.push(row);
        i += 1;
    }
    proof {
        assert(rows_view(r@) =~= product(a@, b@, b.cols as nat).subrange(start as int, end as int));
    }
    r
}

} // verus!
