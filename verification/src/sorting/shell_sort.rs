//! Shell sort: the distance between compared elements starts at half the
//! length and is halved round by round; in each round every element sinks
//! towards the front in steps of that distance while it is out of order.

use vstd::prelude::*;
use crate::sequence::{permutes, sorted, sorted_between};
use crate::sorting::trace::{
    compare, finish, lemma_follows_chain, lemma_follows_compare, lemma_follows_finish,
    lemma_follows_self, lemma_follows_swap, swap, Run,
};
use crate::sorting::{AlgorithmContext, Operation};

verus! {

pub const NAME: &'static str = "shell sort";

/// Sinking the element at `j`: while the element `gap` places before it is
/// greater, the two are exchanged and the element is followed.
pub open spec fn sink(run: Run, gap: int, j: int) -> Run
    decreases j,
    when gap >= 1
{
    if j >= gap {
        let seen = run.compare(j - gap, j);
        if seen.nums[j - gap] > seen.nums[j] {
            sink(seen.swap(j - gap, j), gap, j - gap)
        } else {
            seen
        }
    } else {
        run
    }
}

/// The rest of the round at distance `gap`: the elements from `i` on sink
/// in turn.
pub open spec fn round(run: Run, gap: int, i: int, n: int) -> Run
    decreases n - i,
{
    if i < n {
        round(sink(run, gap, i), gap, i + 1, n)
    } else {
        run
    }
}

/// The rounds at the distances `gap`, half of it, and so on down to one.
pub open spec fn rounds(run: Run, gap: int, n: int) -> Run
    decreases gap,
{
    if gap > 0 {
        rounds(round(run, gap, gap, n), gap / 2, n)
    } else {
        run
    }
}

/// The whole run of shell sort on `nums`, closing entry included.
pub open spec fn run(nums: Seq<i32>) -> Run {
    let n = nums.len() as int;
    rounds(Run::start(nums), n / 2, n).finish()
}

/// The places up to `i` are in order but for the element at `j`, which may
/// be smaller than what stands before it.
spec fn sinking(s: Seq<i32>, j: int, i: int) -> bool {
    &&& sorted_between(s, 0, j)
    &&& sorted_between(s, j, i + 1)
    &&& forall|a: int, b: int| 0 <= a < j < b <= i ==> s[a] <= s[b]
}

proof fn lemma_sink(run: Run, gap: int, j: int, i: int)
    requires
        1 <= gap,
        0 <= j <= i < run.nums.len(),
        gap == 1 ==> sinking(run.nums, j, i),
    ensures
        sink(run, gap, j).follows(run),
        gap == 1 ==> sorted_between(sink(run, gap, j).nums, 0, i + 1),
    decreases j,
{
    let s = run.nums;
    if j >= gap {
        let seen = run.compare(j - gap, j);
        lemma_follows_compare(run, j - gap, j);
        if s[j - gap] > s[j] {
            let next = seen.swap(j - gap, j);
            let t = next.nums;
            lemma_follows_swap(seen, j - gap, j);
            lemma_follows_chain(next, seen, run);
            if gap == 1 {
                assert forall|a: int, b: int| 0 <= a <= b < j - 1 implies t[a] <= t[b] by {
                    assert(s[a] <= s[b]);
                }
                assert forall|a: int, b: int| j - 1 <= a <= b < i + 1 implies t[a] <= t[b] by {
                    if a == j - 1 && b > j {
                        assert(s[j - 1] <= s[b]);
                    } else if a == j && b > j {
                        assert(s[j - 1] <= s[b]);
                    } else if a > j {
                        assert(s[a] <= s[b]);
                    }
                }
                assert forall|a: int, b: int| 0 <= a < j - 1 < b <= i implies t[a] <= t[b] by {
                    if b == j {
                        assert(s[a] <= s[j - 1]);
                    } else {
                        assert(s[a] <= s[b]);
                    }
                }
            }
            lemma_sink(next, gap, j - gap, i);
            lemma_follows_chain(sink(next, gap, j - gap), next, run);
        } else {
            if gap == 1 {
                assert forall|a: int, b: int| 0 <= a <= b < i + 1 implies s[a] <= s[b] by {
                    if a < j && j <= b {
                        assert(s[a] <= s[j - 1]);
                        assert(s[j] <= s[b]);
                    }
                }
            }
        }
    } else {
        lemma_follows_self(run);
        if gap == 1 {
            assert forall|a: int, b: int| 0 <= a <= b < i + 1 implies s[a] <= s[b] by {}
        }
    }
}

proof fn lemma_round(run: Run, gap: int, i: int, n: int)
    requires
        n == run.nums.len(),
        1 <= gap <= i <= n,
        gap == 1 ==> sorted_between(run.nums, 0, i),
    ensures
        round(run, gap, i, n).follows(run),
        gap == 1 ==> sorted(round(run, gap, i, n).nums),
    decreases n - i,
{
    if i < n {
        let next = sink(run, gap, i);
        lemma_sink(run, gap, i, i);
        lemma_round(next, gap, i + 1, n);
        lemma_follows_chain(round(next, gap, i + 1, n), next, run);
    } else {
        lemma_follows_self(run);
    }
}

proof fn lemma_rounds(run: Run, gap: int, n: int)
    requires
        n == run.nums.len(),
        0 <= gap <= n,
        gap == 0 ==> sorted(run.nums),
    ensures
        rounds(run, gap, n).follows(run),
        sorted(rounds(run, gap, n).nums),
    decreases gap,
{
    if gap > 0 {
        let next = round(run, gap, gap, n);
        lemma_round(run, gap, gap, n);
        lemma_rounds(next, gap / 2, n);
        lemma_follows_chain(rounds(next, gap / 2, n), next, run);
    } else {
        lemma_follows_self(run);
    }
}

/// Shell sort ends with the sorted rearrangement of its input, and every
/// entry of its trace shows a rearrangement of the input.
pub proof fn lemma_run(nums: Seq<i32>)
    ensures
        run(nums).follows(Run::start(nums)),
        sorted(run(nums).nums),
        run(nums).steps.last() == (Operation::Noop(), run(nums).nums),
{
    let n = nums.len() as int;
    let begin = Run::start(nums);
    let done = rounds(begin, n / 2, n);
    lemma_rounds(begin, n / 2, n);
    lemma_follows_finish(done);
    lemma_follows_chain(run(nums), done, begin);
}

/// Sorts `nums` in place and publishes every comparison and exchange, then
/// the closing entry.
pub fn sort<C: AlgorithmContext>(nums: &mut [i32], ctx: &mut C)
    ensures
        final(nums)@ == run(old(nums)@).nums,
        final(ctx).recorded() == old(ctx).recorded() + run(old(nums)@).steps,
        sorted(final(nums)@),
        permutes(final(nums)@, old(nums)@),
        run(old(nums)@).steps.last() == (Operation::Noop(), final(nums)@),
{
    let n = nums.len();
    let ghost base = ctx.recorded();
    let ghost mut at = Run::start(nums@);
    let ghost whole = rounds(at, n as int / 2, n as int);
    assert(base + at.steps =~= base);
    let mut gap: usize = n / 2;
    while gap > 0
        invariant
            n == nums@.len(),
            nums@ == at.nums,
            ctx.recorded() == base + at.steps,
            rounds(at, gap as int, n as int) == whole,
        decreases gap,
    {
        let ghost first = at;
        let mut i: usize = gap;
        while i < n
            invariant
                1 <= gap <= i,
                n == nums@.len(),
                nums@ == at.nums,
                ctx.recorded() == base + at.steps,
                round(at, gap as int, i as int, n as int) == round(
                    first,
                    gap as int,
                    gap as int,
                    n as int,
                ),
            decreases n - i,
        {
            let ghost before = at;
            let mut j: usize = i;
            while j >= gap
                invariant_except_break
                    sink(at, gap as int, j as int) == sink(before, gap as int, i as int),
                invariant
                    1 <= gap,
                    j <= i < n,
                    n == nums@.len(),
                    nums@ == at.nums,
                    ctx.recorded() == base + at.steps,
                ensures
                    at == sink(before, gap as int, i as int),
                decreases j,
            {
                compare(nums, j - gap, j, ctx, Ghost(base), Ghost(at));
                proof {
                    at = at.compare(j - gap, j as int);
                }
                if nums[j - gap] > nums[j] {
                    swap(nums, j - gap, j, ctx, Ghost(base), Ghost(at));
                    proof {
                        at = at.swap(j - gap, j as int);
                    }
                    j -= gap;
                } else {
                    break;
                }
            }
            i += 1;
        }
        gap /= 2;
    }
    finish(nums, ctx, Ghost(base), Ghost(at));
    proof {
        lemma_run(old(nums)@);
    }
}

} // verus!
