use vstd::prelude::*;

use vstd::arithmetic::div_mod::lemma_fundamental_div_mod;

verus! {

/// Integer ceiling of `a / b`.
pub open spec fn ceil_div(a: int, b: int) -> int {
    a / b + if a % b == 0 { 0int } else { 1int }
}

/// `plan` tiles the row range `[0, rows)`: at least one chunk, every chunk
/// non-empty, each starting where the one before it ended, the first at
/// zero and the last ending at `rows` — no gaps and no overlaps.
pub open spec fn tiles(plan: Seq<(usize, usize)>, rows: int) -> bool {
    &&& plan.len() >= 1
    &&& plan[0].0 == 0
    &&& plan[plan.len() - 1].1 == rows
    &&& forall|t: int| 0 <= t < plan.len() ==> (#[trigger] plan[t]).0 < plan[t].1
    &&& forall|t: int| 0 < t < plan.len() ==> (#[trigger] plan[t]).0 == plan[t - 1].1
}

/// The planner's full promise: a tiling of `[0, rows)` whose chunks all span
/// ceil(`rows` / `workers`) rows except the last, which takes what remains,
/// with never more chunks than workers.
pub open spec fn plan_shape(plan: Seq<(usize, usize)>, rows: int, workers: int) -> bool {
    &&& tiles(plan, rows)
    &&& forall|t: int| 0 <= t < plan.len() - 1 ==> (#[trigger] plan[t]).1 - plan[t].0
        == ceil_div(rows, workers)
    &&& plan[plan.len() - 1].1 - plan[plan.len() - 1].0 <= ceil_div(rows, workers)
    &&& plan.len() <= workers
}

/// Splits `rows` output rows into contiguous chunks of
/// ceil(`rows` / `workers`) rows each, one chunk per worker that gets any
/// rows: the last chunk absorbs the remainder, and a worker whose chunk
/// would start at or past `rows` gets none.
pub fn chunk_plan(rows: usize, workers: usize) -> (plan: Vec<(usize, usize)>)
    requires
        rows >= 1,
        workers >= 1,
    ensures
        plan_shape(plan@, rows as int, workers as int),
{
    let quot: usize = rows / workers;
    let rem: usize = rows % workers;
    proof {
        lemma_fundamental_div_mod(rows as int, workers as int);
        if rem > 0 {
            assert(quot + 1 <= rows) by (nonlinear_arith)
                requires
                    rows as int == workers as int * quot as int + rem as int,
                    1 <= rem as int,
                    (rem as int) < workers as int,
                    quot >= 0,
            ;
        }
    }
    let size: usize = if rem > 0 { quot + 1 } else { quot };
    proof {
        assert(size as int == ceil_div(rows as int, workers as int));
        assert(1 <= size as int && rows as int <= workers as int * size as int)
            by (nonlinear_arith)
            requires
                rows as int == workers as int * quot as int + rem as int,
                0 <= rem as int,
                (rem as int) < workers as int,
                quot >= 0,
                1 <= rows,
                1 <= workers,
                rem == 0 ==> size as int == quot as int,
                rem != 0 ==> size as int == quot as int + 1,
        ;
    }
    let ghost s: int = size as int;
    let mut plan: Vec<(usize, usize)> = Vec::new();
    let mut start: usize = 0;
    while start < rows
        invariant
            1 <= rows,
            1 <= workers,
            s == size as int,
            s == ceil_div(rows as int, workers as int),
            1 <= s,
            rows as int <= workers as int * s,
            start <= rows,
            plan@.len() == 0 ==> start == 0,
            plan@.len() >= 1 ==> plan@[0].0 == 0,
            plan@.len() >= 1 ==> plan@[plan@.len() - 1].1 == start,
            plan@.len() >= 1 ==> plan@[plan@.len() - 1].0 == (plan@.len() - 1) * s
                && (plan@.len() - 1) * s < rows,
            forall|t: int| 0 <= t < plan@.len() ==> (#[trigger] plan@[t]).0 < plan@[t].1,
            forall|t: int| 0 < t < plan@.len() ==> (#[trigger] plan@[t]).0 == plan@[t - 1].1,
            forall|t: int| 0 <= t < plan@.len() - 1 ==> (#[trigger] plan@[t]).1 - plan@[t].0 == s,
            plan@.len() >= 1 ==> plan@[plan@.len() - 1].1 - plan@[plan@.len() - 1].0 <= s,
            start < rows ==> start as int == plan@.len() * s,
        decreases rows - start,
    {
        let ghost n: int = plan@.len() as int;
        let end: usize = if rows - start <= size { rows } else { start + size };
        plan.push((start, end));
        proof {
            assert((n + 1 - 1) * s == n * s);
            assert(n * s + s == (n + 1) * s) by (nonlinear_arith);
            assert((n - 1) * s + s == n * s) by (nonlinear_arith);
        }
        start = end;
    }
    proof {
        assert(plan@.len() >= 1);
        assert(plan@.len() <= workers) by (nonlinear_arith)
            requires
                (plan@.len() - 1) * s < rows as int,
                rows as int <= workers as int * s,
                1 <= s,
        ;
    }
    plan
}

} // verus!
