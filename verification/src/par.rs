use vstd::prelude::*;

use rayon::iter::{IntoParallelRefIterator, ParallelIterator};

use crate::errors::DimensionError;
use crate::matrix::{is_product_of, mul_block, product, rows_view, valid_rows, Matrix};
use crate::plan::{chunk_plan, tiles};

verus! {

/// Relies on `num_cpus::get`: the number of logical processors available to
/// this process, documented to always be at least one.
#[verifier::external_body]
fn worker_count() -> (r: usize)
    ensures
        r >= 1,
{
    num_cpus::get()
}

/// Relies on rayon's `par_iter().map(..).collect()` over the chunk list:
/// one parallel task per chunk, each handing its bounds to the verified
/// block kernel, with the per-chunk results collected in the chunks' order;
/// every task is joined before the call returns, and a panicking task
/// aborts the whole call rather than yield a truncated result.
#[verifier::external_body]
fn par_blocks(a: &Matrix, b: &Matrix, plan: &Vec<(usize, usize)>) -> (r: Vec<Vec<Vec<u64>>>)
    requires
        a.wf(),
        b.wf(),
        a.cols == b.rows,
        forall|t: int| 0 <= t < plan@.len() ==> (#[trigger] plan@[t]).0 <= plan@[t].1
            && plan@[t].1 <= a.rows,
    ensures
        r@.len() == plan@.len(),
        forall|t: int| 0 <= t < plan@.len() ==> rows_view((#[trigger] r@[t])@)
            == product(a@, b@, b.cols as nat).subrange(plan@[t].0 as int, plan@[t].1 as int),
{
    plan.par_iter().map(|c| mul_block(a, b, c.0, c.1)).collect()
}

/// The rows of the given blocks, block after block in the given order.
pub open spec fn flat_view(bs: Seq<Vec<Vec<u64>>>) -> Seq<Seq<u64>>
    decreases bs.len(),
{
    if bs.len() == 0 {
        Seq::empty()
    } else {
        flat_view(bs.drop_last()) + rows_view(bs.last()@)
    }
}

proof fn lemma_flat_view_step(bs: Seq<Vec<Vec<u64>>>, t: int)
    requires
        0 <= t < bs.len(),
    ensures
        flat_view(bs.subrange(0, t + 1)) == flat_view(bs.subrange(0, t)) + rows_view(bs[t]@),
{
    let pre = bs.subrange(0, t + 1);
    assert(pre.drop_last() =~= bs.subrange(0, t));
    assert(pre.last() == bs[t]);
}

proof fn lemma_chunk_ends_bounded(plan: Seq<(usize, usize)>, rows: int, t: int)
    requires
        tiles(plan, rows),
        0 <= t < plan.len(),
    ensures
        plan[t].1 <= rows,
    decreases plan.len() - t,
{
    if t < plan.len() - 1 {
        lemma_chunk_ends_bounded(plan, rows, t + 1);
    }
}

#[verifier::rlimit(50)]
proof fn lemma_flat_prefix(
    blocks: Seq<Vec<Vec<u64>>>,
    plan: Seq<(usize, usize)>,
    full: Seq<Seq<u64>>,
    k: int,
)
    requires
        tiles(plan, full.len() as int),
        blocks.len() == plan.len(),
        forall|t: int| 0 <= t < plan.len() ==> rows_view((#[trigger] blocks[t])@)
            == full.subrange(plan[t].0 as int, plan[t].1 as int),
        1 <= k <= plan.len(),
    ensures
        flat_view(blocks.subrange(0, k)) == full.subrange(0, plan[k - 1].1 as int),
    decreases k,
{
    lemma_chunk_ends_bounded(plan, full.len() as int, k - 1);
    if k == 1 {
        let one = blocks.subrange(0, 1);
        assert(one.drop_last() =~= Seq::<Vec<Vec<u64>>>::empty());
        assert(one.last() == blocks[0]);
        assert(flat_view(Seq::<Vec<Vec<u64>>>::empty()) == Seq::<Seq<u64>>::empty());
        assert(rows_view(blocks[0]@) == full.subrange(plan[0].0 as int, plan[0].1 as int));
        assert(flat_view(one) == Seq::<Seq<u64>>::empty() + rows_view(blocks[0]@));
        assert(Seq::<Seq<u64>>::empty() + rows_view(blocks[0]@) =~= rows_view(blocks[0]@));
        assert(flat_view(one) =~= full.subrange(0, plan[0].1 as int));
    } else {
        lemma_flat_prefix(blocks, plan, full, k - 1);
        lemma_flat_view_step(blocks, k - 1);
        assert(full.subrange(0, plan[k - 2].1 as int)
            + full.subrange(plan[k - 1].0 as int, plan[k - 1].1 as int)
            =~= full.subrange(0, plan[k - 1].1 as int));
    }
}

/// Chunk placement never perturbs the assembled product: whenever a plan
/// tiles the row range and each block holds exactly its chunk's rows of
/// `full`, the blocks joined in chunk order are exactly `full`, wherever
/// the chunk boundaries happen to lie.
pub proof fn lemma_tiled_blocks_flatten(
    blocks: Seq<Vec<Vec<u64>>>,
    plan: Seq<(usize, usize)>,
    full: Seq<Seq<u64>>,
)
    requires
        tiles(plan, full.len() as int),
        blocks.len() == plan.len(),
        forall|t: int| 0 <= t < plan.len() ==> rows_view((#[trigger] blocks[t])@)
            == full.subrange(plan[t].0 as int, plan[t].1 as int),
    ensures
        flat_view(blocks) == full,
{
    lemma_flat_prefix(blocks, plan, full, plan.len() as int);
    assert(blocks.subrange(0, blocks.len() as int) =~= blocks);
    assert(full.subrange(0, full.len() as int) =~= full);
}

/// Copies one row of bit patterns.
fn copy_row(src: &Vec<u64>) -> (r: Vec<u64>)
    ensures
        r@ == src@,
{
    let mut r: Vec<u64> = Vec::new();
    let mut e: usize = 0;
    while e < src.len()
        invariant
            e <= src@.len(),
            r@ == src@.subrange(0, e as int),
        decreases src@.len() - e,
    {
        r.push(src[e]);
        proof {
            assert(r@ =~= src@.subrange(0, e + 1));
        }
        e += 1;
    }
    proof {
        assert(src@.subrange(0, src@.len() as int) =~= src@);
    }
    r
}

/// Joins the per-chunk row blocks into one row list, in chunk order.
fn concat_blocks(blocks: &Vec<Vec<Vec<u64>>>) -> (r: Vec<Vec<u64>>)
    ensures
        rows_view(r@) == flat_view(blocks@),
{
    let mut r: Vec<Vec<u64>> = Vec::new();
    proof {
        assert(blocks@.subrange(0, 0) =~= Seq::<Vec<Vec<u64>>>::empty());
        assert(rows_view(r@) =~= flat_view(blocks@.subrange(0, 0)));
    }
    let mut t: usize = 0;
    while t < blocks.len()
        invariant
            t <= blocks@.len(),
            rows_view(r@) == flat_view(blocks@.subrange(0, t as int)),
        decreases blocks@.len() - t,
    {
        let m: usize = blocks[t].len();
        proof {
            assert(blocks@[t as int]@.subrange(0, 0) =~= Seq::<Vec<u64>>::empty());
            assert(rows_view(r@) =~= flat_view(blocks@.subrange(0, t as int))
                + rows_view(blocks@[t as int]@.subrange(0, 0)));
        }
        let mut i: usize = 0;
        while i < m
            invariant
                t < blocks@.len(),
                m == blocks@[t as int]@.len(),
                i <= m,
                rows_view(r@) == flat_view(blocks@.subrange(0, t as int))
                    + rows_view(blocks@[t as int]@.subrange(0, i as int)),
            decreases m - i,
        {
            let row = copy_row(&blocks[t][i]);
            let ghost prior = r@;
            r.push(row);
            proof {
                let brow = blocks@[t as int]@;
                let flatpart = flat_view(blocks@.subrange(0, t as int));
                let target = flatpart + rows_view(brow.subrange(0, i + 1));
                assert(r@ == prior.push(row));
                assert(rows_view(r@).len() == prior.len() + 1);
                assert(rows_view(prior).len() == prior.len());
                assert(rows_view(prior) == flatpart + rows_view(brow.subrange(0, i as int)));
                assert(rows_view(brow.subrange(0, i as int)).len() == i);
                assert(prior.len() == flatpart.len() + i);
                assert forall|k: int| 0 <= k < prior.len() + 1 implies rows_view(r@)[k]
                    == target[k] by {
                    if k < prior.len() {
                        assert(rows_view(r@)[k] == rows_view(prior)[k]);
                        if k >= flatpart.len() {
                            let k2: int = k - flatpart.len();
                            assert(rows_view(prior)[k] == rows_view(brow.subrange(0, i as int))[k2]);
                            assert(rows_view(brow.subrange(0, i as int))[k2] == brow[k2]@);
                            assert(target[k] == rows_view(brow.subrange(0, i + 1))[k2]);
                            assert(rows_view(brow.subrange(0, i + 1))[k2] == brow[k2]@);
                        }
                    } else {
                        assert(rows_view(r@)[k] == row@);
                        assert(target[k] == rows_view(brow.subrange(0, i + 1))[i as int]);
                        assert(rows_view(brow.subrange(0, i + 1))[i as int] == brow[i as int]@);
                    }
                }
                assert(rows_view(r@) =~= target);
            }
            i += 1;
        }
        proof {
            assert(blocks@[t as int]@.subrange(0, m as int) =~= blocks@[t as int]@);
            lemma_flat_view_step(blocks@, t as int);
            assert(rows_view(r@) =~= flat_view(blocks@.subrange(0, t + 1)));
        }
        t += 1;
    }
    proof {
        assert(blocks@.subrange(0, blocks@.len() as int) =~= blocks@);
    }
    r
}

impl Matrix {
    /// Parallel multiplication with an explicit worker count: the same
    /// dimension contract and, bit for bit, the same result as `mul`,
    /// computed by one task per planned chunk of rows. Every task is joined
    /// before the call returns; a failing task aborts the whole call, so a
    /// truncated result is never returned.
    pub fn mul_par_workers(&self, other: &Matrix, workers: usize) -> (r: Result<
        Matrix,
        DimensionError,
    >)
        requires
            self.wf(),
            other.wf(),
            workers >= 1,
        ensures
            r.is_ok() == (self.cols == other.rows),
            r matches Ok(m) ==> is_product_of(m, *self, *other),
            r matches Err(e) ==> e == (DimensionError {
                left_cols: self.cols,
                right_rows: other.rows,
            }),
    {
        if self.cols != other.rows {
            return Err(DimensionError { left_cols: self.cols, right_rows: other.rows });
        }
        let plan = chunk_plan(self.rows, workers);
        proof {
            assert forall|t: int| 0 <= t < plan@.len() implies (#[trigger] plan@[t]).0
                <= plan@[t].1 && plan@[t].1 <= self.rows by {
                lemma_chunk_ends_bounded(plan@, self.rows as int, t);
            }
        }
        let blocks = par_blocks(self, other, &plan);
        let ghost full = product(self@, other@, other.cols as nat);
        proof {
            lemma_tiled_blocks_flatten(blocks@, plan@, full);
        }
        let data = concat_blocks(&blocks);
        proof {
            assert(valid_rows(rows_view(data@)));
        }
        match Matrix::new(data) {
            Ok(m) => Ok(m),
            Err(_) => unreached(),
        }
    }

    /// Parallel multiplication: plans one chunk of rows per logical
    /// processor detected at call time, and otherwise behaves exactly as
    /// `mul_par_workers`.
    pub fn mul_par(&self, other: &Matrix) -> (r: Result<Matrix, DimensionError>)
        requires
            self.wf(),
            other.wf(),
        ensures
            r.is_ok() == (self.cols == other.rows),
            r matches Ok(m) ==> is_product_of(m, *self, *other),
            r matches Err(e) ==> e == (DimensionError {
                left_cols: self.cols,
                right_rows: other.rows,
            }),
    {
        let workers: usize = worker_count();
        self.mul_par_workers(other, workers)
    }
}

} // verus!
