//! Bubble sort: neighbours are compared pass by pass over a shrinking prefix,
//! and exchanged where they are out of order.

use vstd::prelude::*;
use crate::sequence::{permutes, sorted, sorted_between};
use crate::sorting::trace::{
    compare, finish, lemma_follows_chain, lemma_follows_compare, lemma_follows_finish,
    lemma_follows_self, lemma_follows_swap, swap, Run,
};
use crate::sorting::{AlgorithmContext, Operation};

verus! {

pub const NAME: &'static str = "bubble sort";

/// The rest of one pass: the neighbours from `j` up to `bound` are compared
/// in turn. Gives the run after the pass and whether anything was exchanged.
pub open spec fn pass(run: Run, j: int, bound: int, swapped: bool) -> (Run, bool)
    decreases bound - j,
{
    if j >= bound {
        (run, swapped)
    } else {
        let seen = run.compare(j, j + 1);
        if seen.nums[j] > seen.nums[j + 1] {
            pass(seen.swap(j, j + 1), j + 1, bound, true)
        } else {
            pass(seen, j + 1, bound, swapped)
        }
    }
}

/// The passes from the `i`-th on, over a sequence of `n` elements. A pass
/// that exchanges nothing is the last one.
pub open spec fn passes(run: Run, i: int, n: int) -> Run
    decreases n - i,
{
    if i >= n {
        run
    } else {
        let (after, swapped) = pass(run, 0, n - i - 1, false);
        if swapped {
            passes(after, i + 1, n)
        } else {
            after
        }
    }
}

/// The whole run of bubble sort on `nums`, closing entry included.
pub open spec fn run(nums: Seq<i32>) -> Run {
    passes(Run::start(nums), 0, nums.len() as int).finish()
}

/// Everything up to `bound` is at most what lies beyond it.
spec fn below_tail(s: Seq<i32>, bound: int) -> bool {
    forall|k: int, m: int| 0 <= k <= bound < m < s.len() ==> s[k] <= s[m]
}

proof fn lemma_pass(run: Run, j: int, bound: int, swapped: bool)
    requires
        0 <= j <= bound < run.nums.len(),
        forall|k: int| 0 <= k <= j ==> run.nums[k] <= run.nums[j],
        !swapped ==> sorted_between(run.nums, 0, j + 1),
        below_tail(run.nums, bound),
    ensures
        ({
            let (after, moved) = pass(run, j, bound, swapped);
            &&& after.follows(run)
            &&& forall|k: int| 0 <= k <= bound ==> after.nums[k] <= after.nums[bound]
            &&& !moved ==> sorted_between(after.nums, 0, bound + 1)
            &&& forall|k: int| bound < k < run.nums.len() ==> after.nums[k] == run.nums[k]
            &&& below_tail(after.nums, bound)
        }),
    decreases bound - j,
{
    if j >= bound {
        lemma_follows_self(run);
    } else {
        let seen = run.compare(j, j + 1);
        lemma_follows_compare(run, j, j + 1);
        if seen.nums[j] > seen.nums[j + 1] {
            let next = seen.swap(j, j + 1);
            lemma_follows_swap(seen, j, j + 1);
            lemma_follows_chain(next, seen, run);
            lemma_pass(next, j + 1, bound, true);
            lemma_follows_chain(pass(next, j + 1, bound, true).0, next, run);
        } else {
            lemma_pass(seen, j + 1, bound, swapped);
            lemma_follows_chain(pass(seen, j + 1, bound, swapped).0, seen, run);
        }
    }
}

proof fn lemma_passes(run: Run, i: int, n: int)
    requires
        n == run.nums.len(),
        0 <= i <= n,
        sorted_between(run.nums, n - i, n),
        below_tail(run.nums, n - i - 1),
    ensures
        passes(run, i, n).follows(run),
        sorted(passes(run, i, n).nums),
    decreases n - i,
{
    if i >= n {
        lemma_follows_self(run);
    } else {
        let (after, swapped) = pass(run, 0, n - i - 1, false);
        lemma_pass(run, 0, n - i - 1, false);
        if swapped {
            lemma_passes(after, i + 1, n);
            lemma_follows_chain(passes(after, i + 1, n), after, run);
        }
    }
}

/// Bubble sort ends with the sorted rearrangement of its input, and every
/// entry of its trace shows a rearrangement of the input.
pub proof fn lemma_run(nums: Seq<i32>)
    ensures
        run(nums).follows(Run::start(nums)),
        sorted(run(nums).nums),
        run(nums).steps.last() == (Operation::Noop(), run(nums).nums),
{
    let before = passes(Run::start(nums), 0, nums.len() as int);
    lemma_passes(Run::start(nums), 0, nums.len() as int);
    lemma_follows_finish(before);
    lemma_follows_chain(run(nums), before, Run::start(nums));
}

/// Sorts `nums` in place and publishes every comparison and exchange, then
/// the closing entry.
pub fn sort<C: AlgorithmContext>(nums: &mut [i32], ctx: &mut C)
    ensures
        final(nums)@ == run(old(nums)@).nums,
        final(ctx).recorded() == old(ctx).recorded() + run(old(nums)@).steps,
        sorted(final(nums)@),
        permutes(final(nums)@, old(nums)@),
        run(old(nums)@).steps.last() == (Operation::Noop(), final(nums)@),
{
    let len = nums.len();
    let ghost base = ctx.recorded();
    let ghost mut at = Run::start(nums@);
    let ghost whole = passes(at, 0, len as int);
    assert(base + at.steps =~= base);
    let mut i: usize = 0;
    while i < len
        invariant_except_break
            passes(at, i as int, len as int) == whole,
        invariant
            i <= len,
            len == nums@.len(),
            nums@ == at.nums,
            ctx.recorded() == base + at.steps,
        ensures
            at == whole,
        decreases len - i,
    {
        let bound = len - i - 1;
        let ghost first = at;
        let mut swapped = false;
        let mut j: usize = 0;
        while j < bound
            invariant
                j <= bound < len,
                len == nums@.len(),
                nums@ == at.nums,
                ctx.recorded() == base + at.steps,
                pass(at, j as int, bound as int, swapped) == pass(first, 0, bound as int, false),
            decreases bound - j,
        {
            compare(nums, j, j + 1, ctx, Ghost(base), Ghost(at));
            proof {
                at = at.compare(j as int, j + 1);
            }
            if nums[j] > nums[j + 1] {
                swap(nums, j, j + 1, ctx, Ghost(base), Ghost(at));
                proof {
                    at = at.swap(j as int, j + 1);
                }
                swapped = true;
            }
            j += 1;
        }
        if !swapped {
            break;
        }
        i += 1;
    }
    finish(nums, ctx, Ghost(base), Ghost(at));
    proof {
        lemma_run(old(nums)@);
    }
}

} // verus!
