//! Quick sort with the partition scheme of Lomuto: the last element of a
//! range is the pivot, the elements not above it are gathered at the front,
//! the pivot is put behind them, and both sides are sorted in turn.

use vstd::prelude::*;
use crate::sequence::{permutes, sorted, sorted_between};
use crate::sorting::trace::{
    compare, finish, lemma_follows_chain, lemma_follows_compare, lemma_follows_finish,
    lemma_follows_self, lemma_follows_swap, swap, Run,
};
use crate::sorting::{AlgorithmContext, Operation, Step};

verus! {

pub const NAME: &'static str = "quick sort";

/// The rest of the scan of a partition whose pivot lies at `high`: the
/// places from `j` on are compared with the pivot, and each element not
/// above it is brought to `i`, the end of the front part. Gives the run
/// after the scan and the end of the front part.
pub open spec fn scan(run: Run, i: int, j: int, high: int) -> (Run, int)
    decreases high - j,
{
    if j >= high {
        (run, i)
    } else {
        let seen = run.compare(j, high);
        if seen.nums[j] <= seen.nums[high] {
            scan(
                if i != j {
                    seen.swap(i, j)
                } else {
                    seen
                },
                i + 1,
                j + 1,
                high,
            )
        } else {
            scan(seen, i, j + 1, high)
        }
    }
}

/// Partitioning the places `low` to `high` around the element at `high`.
/// Gives the run after it and the place where the pivot came to rest.
pub open spec fn partition_of(run: Run, low: int, high: int) -> (Run, int) {
    let (scanned, i) = scan(run, low, low, high);
    (
        if i != high {
            scanned.swap(i, high)
        } else {
            scanned
        },
        i,
    )
}

/// Sorting the places `low` to `high`, both included.
pub open spec fn sort_range(run: Run, low: int, high: int) -> Run
    decreases high - low + 1,
    via sort_range_decreases
{
    if low < high {
        let (parted, p) = partition_of(run, low, high);
        sort_range(sort_range(parted, low, p - 1), p + 1, high)
    } else {
        run
    }
}

#[via_fn]
proof fn sort_range_decreases(run: Run, low: int, high: int) {
    if low < high {
        lemma_scan_ends(run, low, low, high);
    }
}

/// The whole run of quick sort on `nums`, closing entry included.
pub open spec fn run(nums: Seq<i32>) -> Run {
    sort_range(Run::start(nums), 0, nums.len() - 1).finish()
}

proof fn lemma_scan_ends(run: Run, i: int, j: int, high: int)
    requires
        i <= j <= high,
    ensures
        i <= scan(run, i, j, high).1 <= high,
    decreases high - j,
{
    if j < high {
        let seen = run.compare(j, high);
        if seen.nums[j] <= seen.nums[high] {
            lemma_scan_ends(
                if i != j {
                    seen.swap(i, j)
                } else {
                    seen
                },
                i + 1,
                j + 1,
                high,
            );
        } else {
            lemma_scan_ends(seen, i, j + 1, high);
        }
    }
}

/// `t` equals `s` outside the places `low` to `high`.
spec fn same_outside(t: Seq<i32>, s: Seq<i32>, low: int, high: int) -> bool {
    forall|k: int| 0 <= k < s.len() && (k < low || high < k) ==> t[k] == s[k]
}

/// Every element at the places `low` to `high` lies between `least` and `most`.
spec fn within(s: Seq<i32>, low: int, high: int, least: int, most: int) -> bool {
    forall|k: int| low <= k <= high ==> least <= #[trigger] s[k] <= most
}

proof fn lemma_scan(run: Run, low: int, i: int, j: int, high: int, least: int, most: int)
    requires
        0 <= low <= i <= j <= high < run.nums.len(),
        within(run.nums, low, i - 1, least, run.nums[high] as int),
        within(run.nums, i, j - 1, run.nums[high] + 1, most),
        within(run.nums, low, high, least, most),
    ensures
        ({
            let (after, p) = scan(run, i, j, high);
            &&& after.follows(run)
            &&& i <= p <= high
            &&& after.nums[high] == run.nums[high]
            &&& within(after.nums, low, p - 1, least, run.nums[high] as int)
            &&& within(after.nums, p, high - 1, run.nums[high] + 1, most)
            &&& within(after.nums, low, high, least, most)
            &&& same_outside(after.nums, run.nums, low, high)
        }),
    decreases high - j,
{
    let s = run.nums;
    if j >= high {
        lemma_follows_self(run);
    } else {
        let seen = run.compare(j, high);
        lemma_follows_compare(run, j, high);
        if s[j] <= s[high] {
            let next = if i != j {
                seen.swap(i, j)
            } else {
                seen
            };
            if i != j {
                lemma_follows_swap(seen, i, j);
            } else {
                lemma_follows_self(seen);
            }
            lemma_follows_chain(next, seen, run);
            lemma_scan(next, low, i + 1, j + 1, high, least, most);
            let (after, p) = scan(next, i + 1, j + 1, high);
            lemma_follows_chain(after, next, run);
            assert forall|k: int| 0 <= k < s.len() && (k < low || high < k) implies after.nums[k]
                == s[k] by {
                assert(after.nums[k] == next.nums[k]);
            }
        } else {
            lemma_scan(seen, low, i, j + 1, high, least, most);
            lemma_follows_chain(scan(seen, i, j + 1, high).0, seen, run);
        }
    }
}

proof fn lemma_partition_of(run: Run, low: int, high: int, least: int, most: int)
    requires
        0 <= low <= high < run.nums.len(),
        within(run.nums, low, high, least, most),
    ensures
        ({
            let (after, p) = partition_of(run, low, high);
            &&& after.follows(run)
            &&& low <= p <= high
            &&& within(after.nums, low, p - 1, least, after.nums[p] as int)
            &&& within(after.nums, p + 1, high, after.nums[p] as int, most)
            &&& least <= after.nums[p] <= most
            &&& same_outside(after.nums, run.nums, low, high)
        }),
{
    let (scanned, p) = scan(run, low, low, high);
    lemma_scan(run, low, low, low, high, least, most);
    if p != high {
        lemma_follows_swap(scanned, p, high);
        lemma_follows_chain(scanned.swap(p, high), scanned, run);
        let after = scanned.swap(p, high);
        assert(scanned.nums[p] > scanned.nums[high]);
        assert forall|k: int| p + 1 <= k <= high implies after.nums[p] <= #[trigger] after.nums[k]
            <= most by {
            if k < high {
                assert(scanned.nums[k] > scanned.nums[high]);
            }
        }
        assert forall|k: int| low <= k <= p - 1 implies least <= #[trigger] after.nums[k]
            <= after.nums[p] by {
            assert(least <= scanned.nums[k] <= scanned.nums[high]);
        }
    }
}

proof fn lemma_sort_range(run: Run, low: int, high: int, least: int, most: int)
    requires
        0 <= low,
        high < run.nums.len(),
        within(run.nums, low, high, least, most),
    ensures
        sort_range(run, low, high).follows(run),
        sorted_between(sort_range(run, low, high).nums, low, high + 1),
        same_outside(sort_range(run, low, high).nums, run.nums, low, high),
        within(sort_range(run, low, high).nums, low, high, least, most),
    decreases high - low + 1,
{
    if low < high {
        let (parted, p) = partition_of(run, low, high);
        lemma_partition_of(run, low, high, least, most);
        let pivot = parted.nums[p] as int;
        let left = sort_range(parted, low, p - 1);
        lemma_sort_range(parted, low, p - 1, least, pivot);
        lemma_follows_chain(left, parted, run);
        assert forall|k: int| p + 1 <= k <= high implies pivot <= #[trigger] left.nums[k]
            <= most by {
            assert(left.nums[k] == parted.nums[k]);
        }
        let both = sort_range(left, p + 1, high);
        lemma_sort_range(left, p + 1, high, pivot, most);
        lemma_follows_chain(both, left, run);
        assert(both.nums[p] == left.nums[p] == parted.nums[p]);
        assert forall|k: int| low <= k <= p - 1 implies least <= #[trigger] both.nums[k]
            <= pivot by {
            assert(both.nums[k] == left.nums[k]);
        }
        assert forall|a: int, b: int| low <= a <= b < high + 1 implies both.nums[a]
            <= both.nums[b] by {
            if b < p {
                assert(both.nums[a] == left.nums[a] && both.nums[b] == left.nums[b]);
            }
        }
        assert forall|k: int| 0 <= k < run.nums.len() && (k < low || high < k) implies both.nums[k]
            == run.nums[k] by {
            assert(both.nums[k] == left.nums[k]);
            assert(left.nums[k] == parted.nums[k]);
        }
    } else {
        lemma_follows_self(run);
    }
}

/// Quick sort ends with the sorted rearrangement of its input, and every
/// entry of its trace shows a rearrangement of the input.
pub proof fn lemma_run(nums: Seq<i32>)
    ensures
        run(nums).follows(Run::start(nums)),
        sorted(run(nums).nums),
        run(nums).steps.last() == (Operation::Noop(), run(nums).nums),
{
    let begin = Run::start(nums);
    let done = sort_range(begin, 0, nums.len() - 1);
    lemma_sort_range(begin, 0, nums.len() - 1, i32::MIN as int, i32::MAX as int);
    lemma_follows_finish(done);
    lemma_follows_chain(run(nums), done, begin);
}

/// Partitions the places `low..=high` around the element at `high` and
/// returns the place where that element came to rest.
fn partition<C: AlgorithmContext>(
    nums: &mut [i32],
    low: usize,
    high: usize,
    ctx: &mut C,
    Ghost(base): Ghost<Seq<Step>>,
    Ghost(run): Ghost<Run>,
) -> (p: usize)
    requires
        low <= high < old(nums)@.len(),
        old(nums)@ == run.nums,
        old(ctx).recorded() == base + run.steps,
    ensures
        final(nums)@ == partition_of(run, low as int, high as int).0.nums,
        p == partition_of(run, low as int, high as int).1,
        low <= p <= high,
        final(nums)@.len() == old(nums)@.len(),
        final(ctx).recorded() == base + partition_of(run, low as int, high as int).0.steps,
{
    let ghost mut at = run;
    let ghost scanned = scan(run, low as int, low as int, high as int);
    let pivot: i32 = nums[high];
    let mut i: usize = low;
    let mut j: usize = low;
    while j < high
        invariant
            low <= i <= j <= high < nums@.len(),
            nums@.len() == old(nums)@.len(),
            nums@ == at.nums,
            pivot == nums@[high as int],
            ctx.recorded() == base + at.steps,
            scan(at, i as int, j as int, high as int) == scanned,
        decreases high - j,
    {
        compare(nums, j, high, ctx, Ghost(base), Ghost(at));
        proof {
            at = at.compare(j as int, high as int);
        }
        if nums[j] <= pivot {
            if i != j {
                swap(nums, i, j, ctx, Ghost(base), Ghost(at));
                proof {
                    at = at.swap(i as int, j as int);
                }
            }
            i += 1;
        }
        j += 1;
    }
    if i != high {
        swap(nums, i, high, ctx, Ghost(base), Ghost(at));
    }
    i
}

/// Sorts the places `low..=high`; an empty range has `high + 1 == low`.
fn quick_sort_recursive<C: AlgorithmContext>(
    nums: &mut [i32],
    low: usize,
    high: usize,
    ctx: &mut C,
    Ghost(base): Ghost<Seq<Step>>,
    Ghost(run): Ghost<Run>,
)
    requires
        low <= high + 1,
        high < old(nums)@.len(),
        old(nums)@ == run.nums,
        old(ctx).recorded() == base + run.steps,
    ensures
        final(nums)@ == sort_range(run, low as int, high as int).nums,
        final(nums)@.len() == old(nums)@.len(),
        final(ctx).recorded() == base + sort_range(run, low as int, high as int).steps,
    decreases high + 1 - low,
{
    if low < high {
        let pivot_index = partition(nums, low, high, ctx, Ghost(base), Ghost(run));
        let ghost parted = partition_of(run, low as int, high as int).0;
        if pivot_index > 0 {
            quick_sort_recursive(nums, low, pivot_index - 1, ctx, Ghost(base), Ghost(parted));
        }
        let ghost left = sort_range(parted, low as int, pivot_index - 1);
        assert(high < usize::MAX) by {
            assert(nums.len() == nums@.len());
        }
        quick_sort_recursive(nums, pivot_index + 1, high, ctx, Ghost(base), Ghost(left));
    }
}

/// Sorts `nums` in place and publishes every comparison and exchange, then
/// the closing entry.
pub fn sort<C: AlgorithmContext>(nums: &mut [i32], ctx: &mut C)
    ensures
        final(nums)@ == run(old(nums)@).nums,
        final(ctx).recorded() == old(ctx).recorded() + run(old(nums)@).steps,
        sorted(final(nums)@),
        permutes(final(nums)@, old(nums)@),
        run(old(nums)@).steps.last() == (Operation::Noop(), final(nums)@),
{
    let ghost base = ctx.recorded();
    let ghost begin = Run::start(nums@);
    assert(base + begin.steps =~= base);
    if nums.len() > 0 {
        quick_sort_recursive(nums, 0, nums.len() - 1, ctx, Ghost(base), Ghost(begin));
    }
    let ghost done = sort_range(begin, 0, old(nums)@.len() - 1);
    finish(nums, ctx, Ghost(base), Ghost(done));
    proof {
        lemma_run(old(nums)@);
    }
}

} // verus!
