//! Selection sort: for each place from the left, the smallest element from
//! there on is found and, unless it is there already, brought to the place.

use vstd::prelude::*;
use crate::sequence::{permutes, sorted, sorted_between};
use crate::sorting::trace::{
    compare, finish, lemma_follows_chain, lemma_follows_compare, lemma_follows_finish,
    lemma_follows_self, lemma_follows_swap, swap, Run,
};
use crate::sorting::{AlgorithmContext, Operation};

verus! {

pub const NAME: &'static str = "selection sort";

/// The rest of the search for the smallest element: the smallest found so
/// far lies at `smallest`, and the places from `right` on are still to be
/// compared with it. Gives the run after the search and the place found.
pub open spec fn search(run: Run, smallest: int, right: int, n: int) -> (Run, int)
    decreases n - right,
{
    if right >= n {
        (run, smallest)
    } else {
        let seen = run.compare(smallest, right);
        search(
            seen,
            if seen.nums[right] < seen.nums[smallest] {
                right
            } else {
                smallest
            },
            right + 1,
            n,
        )
    }
}

/// The selections for the places from `left` on.
pub open spec fn select_from(run: Run, left: int, n: int) -> Run
    decreases n - left,
{
    if left >= n {
        run
    } else {
        let (searched, smallest) = search(run, left, left + 1, n);
        select_from(
            if smallest != left {
                searched.swap(left, smallest)
            } else {
                searched
            },
            left + 1,
            n,
        )
    }
}

/// The whole run of selection sort on `nums`, closing entry included.
pub open spec fn run(nums: Seq<i32>) -> Run {
    select_from(Run::start(nums), 0, nums.len() as int).finish()
}

proof fn lemma_search(run: Run, left: int, smallest: int, right: int, n: int)
    requires
        n == run.nums.len(),
        0 <= left <= smallest < right <= n,
        forall|k: int| left <= k < right ==> run.nums[smallest] <= run.nums[k],
    ensures
        ({
            let (after, found) = search(run, smallest, right, n);
            &&& after.follows(run)
            &&& after.nums == run.nums
            &&& left <= found < n
            &&& forall|k: int| left <= k < n ==> run.nums[found] <= run.nums[k]
        }),
    decreases n - right,
{
    if right < n {
        let seen = run.compare(smallest, right);
        lemma_follows_compare(run, smallest, right);
        let next = if seen.nums[right] < seen.nums[smallest] {
            right
        } else {
            smallest
        };
        lemma_search(seen, left, next, right + 1, n);
        lemma_follows_chain(search(seen, next, right + 1, n).0, seen, run);
    } else {
        lemma_follows_self(run);
    }
}

/// Everything before `left` is at most everything from `left` on.
spec fn below_rest(s: Seq<i32>, left: int) -> bool {
    forall|a: int, b: int| 0 <= a < left <= b < s.len() ==> s[a] <= s[b]
}

proof fn lemma_select_from(run: Run, left: int, n: int)
    requires
        n == run.nums.len(),
        0 <= left <= n,
        sorted_between(run.nums, 0, left),
        below_rest(run.nums, left),
    ensures
        select_from(run, left, n).follows(run),
        sorted(select_from(run, left, n).nums),
    decreases n - left,
{
    let s = run.nums;
    if left >= n {
        lemma_follows_self(run);
    } else {
        let (searched, smallest) = search(run, left, left + 1, n);
        lemma_search(run, left, left, left + 1, n);
        let next = if smallest != left {
            searched.swap(left, smallest)
        } else {
            searched
        };
        if smallest != left {
            lemma_follows_swap(searched, left, smallest);
        } else {
            lemma_follows_self(searched);
        }
        lemma_follows_chain(next, searched, run);
        let t = next.nums;
        assert forall|a: int, b: int| 0 <= a <= b < left + 1 implies t[a] <= t[b] by {
            if b == left && a < left {
                assert(s[a] <= s[smallest]);
            } else if b < left {
                assert(s[a] <= s[b]);
            }
        }
        assert forall|a: int, b: int| 0 <= a < left + 1 <= b < t.len() implies t[a] <= t[b] by {
            if a < left {
                if b == smallest {
                    assert(s[a] <= s[left]);
                } else {
                    assert(s[a] <= s[b]);
                }
            } else {
                if b == smallest {
                    assert(s[smallest] <= s[left]);
                } else {
                    assert(s[smallest] <= s[b]);
                }
            }
        }
        lemma_select_from(next, left + 1, n);
        lemma_follows_chain(select_from(next, left + 1, n), next, run);
    }
}

/// Selection sort ends with the sorted rearrangement of its input, and
/// every entry of its trace shows a rearrangement of the input.
pub proof fn lemma_run(nums: Seq<i32>)
    ensures
        run(nums).follows(Run::start(nums)),
        sorted(run(nums).nums),
        run(nums).steps.last() == (Operation::Noop(), run(nums).nums),
{
    let n = nums.len() as int;
    let begin = Run::start(nums);
    let done = select_from(begin, 0, n);
    lemma_select_from(begin, 0, n);
    lemma_follows_finish(done);
    lemma_follows_chain(run(nums), done, begin);
}

/// Sorts `nums` in place and publishes every comparison and exchange, then
/// the closing entry.
pub fn sort<C: AlgorithmContext>(nums: &mut [i32], ctx: &mut C)
    ensures
        final(nums)@ == run(old(nums)@).nums,
        final(ctx).recorded() == old(ctx).recorded() + run(old(nums)@).steps,
        sorted(final(nums)@),
        permutes(final(nums)@, old(nums)@),
        run(old(nums)@).steps.last() == (Operation::Noop(), final(nums)@),
{
    let len = nums.len();
    let ghost base = ctx.recorded();
    let ghost mut at = Run::start(nums@);
    let ghost whole = select_from(at, 0, len as int);
    assert(base + at.steps =~= base);
    let mut left: usize = 0;
    while left < len
        invariant
            left <= len,
            len == nums@.len(),
            nums@ == at.nums,
            ctx.recorded() == base + at.steps,
            select_from(at, left as int, len as int) == whole,
        decreases len - left,
    {
        let ghost first = at;
        let mut smallest: usize = left;
        let mut right: usize = left + 1;
        while right < len
            invariant
                left <= smallest < right <= len,
                len == nums@.len(),
                nums@ == at.nums,
                ctx.recorded() == base + at.steps,
                search(at, smallest as int, right as int, len as int) == search(
                    first,
                    left as int,
                    left + 1,
                    len as int,
                ),
            decreases len - right,
        {
            compare(nums, smallest, right, ctx, Ghost(base), Ghost(at));
            proof {
                at = at.compare(smallest as int, right as int);
            }
            if nums[right] < nums[smallest] {
                smallest = right;
            }
            right += 1;
        }
        if smallest != left {
            swap(nums, left, smallest, ctx, Ghost(base), Ghost(at));
            proof {
                at = at.swap(left as int, smallest as int);
            }
        }
        left += 1;
    }
    finish(nums, ctx, Ghost(base), Ghost(at));
    proof {
        lemma_run(old(nums)@);
    }
}

} // verus!
