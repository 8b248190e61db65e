use vstd::prelude::*;

use crate::matrix::{is_product_of, matrix_eq, Matrix};

verus! {

/// Sequential and parallel multiplication agree bit for bit: any two
/// matrices that satisfy the product contract shared by `mul`, `mul_par`
/// and `mul_par_workers` for the same operands are equal — same counts and
/// identical element bit patterns.
pub proof fn lemma_mul_mul_par_agree(a: Matrix, b: Matrix, m1: Matrix, m2: Matrix)
    requires
        is_product_of(m1, a, b),
        is_product_of(m2, a, b),
    ensures
        matrix_eq(m1, m2),
{
}

} // verus!
