//! Merge sort, in place: a range is split at its midpoint, both halves are
//! sorted, and the halves are merged by moving each element of the right
//! half that is due ahead of the rest of the left half.

use vstd::prelude::*;
use crate::sequence::{lemma_moved, moved, permutes, sorted, sorted_between};
use crate::sorting::trace::{
    compare, finish, insert, lemma_follows_chain, lemma_follows_compare, lemma_follows_finish,
    lemma_follows_insert, lemma_follows_self, Run,
};
use crate::sorting::{AlgorithmContext, Operation, Step};

verus! {

pub const NAME: &'static str = "merge sort";

/// The rest of a merge. The left half has been merged up to `i` and now
/// ends at `mid`; the right half begins behind `mid` and ends at `high`.
pub open spec fn merge_from(run: Run, i: int, mid: int, high: int) -> Run
    decreases high - i,
{
    if i <= mid && mid + 1 <= high {
        let seen = run.compare(i, mid + 1);
        if seen.nums[i] <= seen.nums[mid + 1] {
            merge_from(seen, i + 1, mid, high)
        } else {
            merge_from(seen.insert(mid + 1, i), i + 1, mid + 1, high)
        }
    } else {
        run
    }
}

/// Sorting the places `low` to `high`, both included.
pub open spec fn sort_range(run: Run, low: int, high: int) -> Run
    decreases high - low,
{
    if low < high {
        let mid = low + (high - low) / 2;
        merge_from(sort_range(sort_range(run, low, mid), mid + 1, high), low, mid, high)
    } else {
        run
    }
}

/// The whole run of merge sort on `nums`, closing entry included.
pub open spec fn run(nums: Seq<i32>) -> Run {
    sort_range(Run::start(nums), 0, nums.len() - 1).finish()
}

/// Everything at the places `low..i` is at most everything at `i..end`.
spec fn settled(s: Seq<i32>, low: int, i: int, end: int) -> bool {
    forall|a: int, b: int| low <= a < i <= b < end ==> s[a] <= s[b]
}

/// `t` equals `s` outside the places `low` to `high`.
spec fn same_outside(t: Seq<i32>, s: Seq<i32>, low: int, high: int) -> bool {
    forall|k: int| 0 <= k < s.len() && (k < low || high < k) ==> t[k] == s[k]
}

proof fn lemma_merge_from(run: Run, low: int, i: int, mid: int, high: int)
    requires
        0 <= low <= i <= mid + 1,
        mid <= high < run.nums.len(),
        sorted_between(run.nums, low, i),
        sorted_between(run.nums, i, mid + 1),
        sorted_between(run.nums, mid + 1, high + 1),
        settled(run.nums, low, i, high + 1),
    ensures
        merge_from(run, i, mid, high).follows(run),
        sorted_between(merge_from(run, i, mid, high).nums, low, high + 1),
        same_outside(merge_from(run, i, mid, high).nums, run.nums, low, high),
    decreases high - i,
{
    let s = run.nums;
    if i <= mid && mid + 1 <= high {
        let seen = run.compare(i, mid + 1);
        lemma_follows_compare(run, i, mid + 1);
        if s[i] <= s[mid + 1] {
            assert forall|a: int, b: int| low <= a < i + 1 <= b < high + 1 implies s[a]
                <= s[b] by {
                if a == i && b > mid {
                    assert(s[mid + 1] <= s[b]);
                }
            }
            lemma_merge_from(seen, low, i + 1, mid, high);
            lemma_follows_chain(merge_from(seen, i + 1, mid, high), seen, run);
        } else {
            let next = seen.insert(mid + 1, i);
            let t = next.nums;
            lemma_follows_insert(seen, mid + 1, i);
            lemma_follows_chain(next, seen, run);
            lemma_moved(s, mid + 1, i);
            assert forall|k: int| 0 <= k < s.len() implies t[k] == if k < i {
                s[k]
            } else if k == i {
                s[mid + 1]
            } else if k <= mid + 1 {
                s[k - 1]
            } else {
                s[k]
            } by {
                assert(t[k] == moved(s, mid + 1, i)[k]);
            }
            assert forall|a: int, b: int| low <= a <= b < i + 1 implies t[a] <= t[b] by {
                if a < i && b == i {
                    assert(s[a] <= s[mid + 1]);
                }
            }
            assert forall|a: int, b: int| i + 1 <= a <= b < mid + 2 implies t[a] <= t[b] by {
                assert(s[a - 1] <= s[b - 1]);
            }
            assert forall|a: int, b: int| mid + 2 <= a <= b < high + 1 implies t[a] <= t[b] by {
                assert(s[a] <= s[b]);
            }
            assert forall|a: int, b: int| low <= a < i + 1 <= b < high + 1 implies t[a]
                <= t[b] by {
                if a < i {
                    if b <= mid + 1 {
                        assert(s[a] <= s[b - 1]);
                    } else {
                        assert(s[a] <= s[b]);
                    }
                } else {
                    if b <= mid + 1 {
                        assert(s[i] <= s[b - 1]);
                    } else {
                        assert(s[mid + 1] <= s[b]);
                    }
                }
            }
            lemma_merge_from(next, low, i + 1, mid + 1, high);
            lemma_follows_chain(merge_from(next, i + 1, mid + 1, high), next, run);
            assert forall|k: int| 0 <= k < s.len() && (k < low || high < k) implies merge_from(
                run,
                i,
                mid,
                high,
            ).nums[k] == s[k] by {
                assert(merge_from(next, i + 1, mid + 1, high).nums[k] == t[k]);
            }
        }
    } else {
        lemma_follows_self(run);
        assert forall|a: int, b: int| low <= a <= b < high + 1 implies s[a] <= s[b] by {}
    }
}

proof fn lemma_sort_range(run: Run, low: int, high: int)
    requires
        0 <= low,
        high < run.nums.len(),
    ensures
        sort_range(run, low, high).follows(run),
        sorted_between(sort_range(run, low, high).nums, low, high + 1),
        same_outside(sort_range(run, low, high).nums, run.nums, low, high),
    decreases high - low,
{
    if low < high {
        let mid = low + (high - low) / 2;
        let left = sort_range(run, low, mid);
        lemma_sort_range(run, low, mid);
        let both = sort_range(left, mid + 1, high);
        lemma_sort_range(left, mid + 1, high);
        lemma_follows_chain(both, left, run);
        assert forall|a: int, b: int| low <= a <= b < mid + 1 implies both.nums[a]
            <= both.nums[b] by {
            assert(both.nums[a] == left.nums[a] && both.nums[b] == left.nums[b]);
        }
        let merged = merge_from(both, low, mid, high);
        lemma_merge_from(both, low, low, mid, high);
        lemma_follows_chain(merged, both, run);
        assert forall|k: int| 0 <= k < run.nums.len() && (k < low || high < k) implies merged.nums[k]
            == run.nums[k] by {
            assert(merged.nums[k] == both.nums[k]);
            assert(both.nums[k] == left.nums[k]);
        }
    } else {
        lemma_follows_self(run);
    }
}

/// Merge sort ends with the sorted rearrangement of its input, and every
/// entry of its trace shows a rearrangement of the input.
pub proof fn lemma_run(nums: Seq<i32>)
    ensures
        run(nums).follows(Run::start(nums)),
        sorted(run(nums).nums),
        run(nums).steps.last() == (Operation::Noop(), run(nums).nums),
{
    let begin = Run::start(nums);
    let done = sort_range(begin, 0, nums.len() - 1);
    lemma_sort_range(begin, 0, nums.len() - 1);
    lemma_follows_finish(done);
    lemma_follows_chain(run(nums), done, begin);
}

/// Merges the sorted places `low..=mid` and `mid + 1..=high`.
fn merge<C: AlgorithmContext>(
    nums: &mut [i32],
    low: usize,
    mid: usize,
    high: usize,
    ctx: &mut C,
    Ghost(base): Ghost<Seq<Step>>,
    Ghost(run): Ghost<Run>,
)
    requires
        low <= mid < high < old(nums)@.len(),
        old(nums)@ == run.nums,
        old(ctx).recorded() == base + run.steps,
    ensures
        final(nums)@ == merge_from(run, low as int, mid as int, high as int).nums,
        final(nums)@.len() == old(nums)@.len(),
        final(ctx).recorded() == base + merge_from(
            run,
            low as int,
            mid as int,
            high as int,
        ).steps,
{
    let ghost mut at = run;
    let ghost whole = merge_from(run, low as int, mid as int, high as int);
    let mut mid: usize = mid;
    let mut i: usize = low;
    let mut j: usize = mid + 1;
    while i <= mid && j <= high
        invariant
            j == mid + 1,
            i <= j,
            mid <= high < nums@.len(),
            nums@.len() == old(nums)@.len(),
            nums@ == at.nums,
            ctx.recorded() == base + at.steps,
            merge_from(at, i as int, mid as int, high as int) == whole,
        decreases high - i,
    {
        compare(nums, i, j, ctx, Ghost(base), Ghost(at));
        proof {
            at = at.compare(i as int, j as int);
        }
        if nums[i] <= nums[j] {
            i += 1;
        } else {
            insert(nums, j, i, ctx, Ghost(base), Ghost(at));
            proof {
                lemma_moved(at.nums, j as int, i as int);
                at = at.insert(j as int, i as int);
            }
            i += 1;
            j += 1;
            mid += 1;
        }
    }
}

/// Sorts the places `low..=high`.
fn merge_sort<C: AlgorithmContext>(
    nums: &mut [i32],
    low: usize,
    high: usize,
    ctx: &mut C,
    Ghost(base): Ghost<Seq<Step>>,
    Ghost(run): Ghost<Run>,
)
    requires
        low <= high < old(nums)@.len(),
        old(nums)@ == run.nums,
        old(ctx).recorded() == base + run.steps,
    ensures
        final(nums)@ == sort_range(run, low as int, high as int).nums,
        final(nums)@.len() == old(nums)@.len(),
        final(ctx).recorded() == base + sort_range(run, low as int, high as int).steps,
    decreases high - low,
{
    if low < high {
        let mid: usize = low + (high - low) / 2;
        merge_sort(nums, low, mid, ctx, Ghost(base), Ghost(run));
        let ghost left = sort_range(run, low as int, mid as int);
        merge_sort(nums, mid + 1, high, ctx, Ghost(base), Ghost(left));
        let ghost both = sort_range(left, mid + 1, high as int);
        merge(nums, low, mid, high, ctx, Ghost(base), Ghost(both));
    }
}

/// Sorts `nums` in place and publishes every comparison and move, then the
/// closing entry.
pub fn sort<C: AlgorithmContext>(nums: &mut [i32], ctx: &mut C)
    ensures
        final(nums)@ == run(old(nums)@).nums,
        final(ctx).recorded() == old(ctx).recorded() + run(old(nums)@).steps,
        sorted(final(nums)@),
        permutes(final(nums)@, old(nums)@),
        run(old(nums)@).steps.last() == (Operation::Noop(), final(nums)@),
{
    let ghost base = ctx.recorded();
    let ghost begin = Run::start(nums@);
    assert(base + begin.steps =~= base);
    if nums.len() > 0 {
        merge_sort(nums, 0, nums.len() - 1, ctx, Ghost(base), Ghost(begin));
    }
    let ghost done = sort_range(begin, 0, old(nums)@.len() - 1);
    finish(nums, ctx, Ghost(base), Ghost(done));
    proof {
        lemma_run(old(nums)@);
    }
}

} // verus!
