//! Insertion sort: each element in turn is compared with the elements before
//! it, from the nearest on, and moved in one step to the place it belongs.

use vstd::prelude::*;
use crate::sequence::{lemma_moved, moved, permutes, sorted, sorted_between};
use crate::sorting::trace::{
    compare, finish, insert, lemma_follows_chain, lemma_follows_compare, lemma_follows_finish,
    lemma_follows_insert, lemma_follows_self, Run,
};
use crate::sorting::{AlgorithmContext, Operation};

verus! {

pub const NAME: &'static str = "insertion sort";

/// The rest of the search for the place of the element at `i`: the elements
/// from `j` up to `i` are known to be greater. Gives the run after the
/// search and the place found.
pub open spec fn seek(run: Run, i: int, j: int) -> (Run, int)
    decreases j,
{
    if j > 0 {
        let seen = run.compare(j - 1, i);
        if seen.nums[j - 1] > seen.nums[i] {
            seek(seen, i, j - 1)
        } else {
            (seen, j)
        }
    } else {
        (run, j)
    }
}

/// The insertions of the elements from `i` on.
pub open spec fn insert_from(run: Run, i: int, n: int) -> Run
    decreases n - i,
{
    if i < n {
        let (sought, j) = seek(run, i, i);
        insert_from(
            if i != j {
                sought.insert(i, j)
            } else {
                sought
            },
            i + 1,
            n,
        )
    } else {
        run
    }
}

/// The whole run of insertion sort on `nums`, closing entry included.
pub open spec fn run(nums: Seq<i32>) -> Run {
    insert_from(Run::start(nums), 1, nums.len() as int).finish()
}

proof fn lemma_seek(run: Run, i: int, j: int)
    requires
        0 <= j <= i < run.nums.len(),
        forall|k: int| j <= k < i ==> run.nums[k] > run.nums[i],
    ensures
        ({
            let (after, found) = seek(run, i, j);
            &&& after.follows(run)
            &&& after.nums == run.nums
            &&& 0 <= found <= j
            &&& forall|k: int| found <= k < i ==> run.nums[k] > run.nums[i]
            &&& found > 0 ==> run.nums[found - 1] <= run.nums[i]
        }),
    decreases j,
{
    if j > 0 {
        let seen = run.compare(j - 1, i);
        lemma_follows_compare(run, j - 1, i);
        if seen.nums[j - 1] > seen.nums[i] {
            lemma_seek(seen, i, j - 1);
            lemma_follows_chain(seek(seen, i, j - 1).0, seen, run);
        }
    } else {
        lemma_follows_self(run);
    }
}

proof fn lemma_insert_from(run: Run, i: int, n: int)
    requires
        n == run.nums.len(),
        1 <= i,
        sorted_between(run.nums, 0, i),
    ensures
        insert_from(run, i, n).follows(run),
        sorted(insert_from(run, i, n).nums),
    decreases n - i,
{
    let s = run.nums;
    if i < n {
        let (sought, j) = seek(run, i, i);
        lemma_seek(run, i, i);
        let next = if i != j {
            sought.insert(i, j)
        } else {
            sought
        };
        if i != j {
            lemma_follows_insert(sought, i, j);
            lemma_moved(s, i, j);
        } else {
            lemma_follows_self(sought);
        }
        lemma_follows_chain(next, sought, run);
        let t = next.nums;
        assert forall|a: int, b: int| 0 <= a <= b < i + 1 implies t[a] <= t[b] by {
            if i != j {
                assert(t[a] == moved(s, i, j)[a]);
                assert(t[b] == moved(s, i, j)[b]);
                if a < j && b == j {
                    assert(s[a] <= s[j - 1]);
                } else if a < j && b > j {
                    assert(s[a] <= s[b - 1]);
                } else if a < j {
                    assert(s[a] <= s[b]);
                } else if a == j && b > j {
                    assert(s[b - 1] > s[i]);
                } else if a > j {
                    assert(s[a - 1] <= s[b - 1]);
                }
            } else {
                if b == i && a < i {
                    assert(s[a] <= s[i - 1]);
                } else if b < i {
                    assert(s[a] <= s[b]);
                }
            }
        }
        lemma_insert_from(next, i + 1, n);
        lemma_follows_chain(insert_from(next, i + 1, n), next, run);
    } else {
        lemma_follows_self(run);
        assert forall|a: int, b: int| 0 <= a <= b < s.len() implies s[a] <= s[b] by {}
    }
}

/// Insertion sort ends with the sorted rearrangement of its input, and
/// every entry of its trace shows a rearrangement of the input.
pub proof fn lemma_run(nums: Seq<i32>)
    ensures
        run(nums).follows(Run::start(nums)),
        sorted(run(nums).nums),
        run(nums).steps.last() == (Operation::Noop(), run(nums).nums),
{
    let n = nums.len() as int;
    let begin = Run::start(nums);
    let done = insert_from(begin, 1, n);
    lemma_insert_from(begin, 1, n);
    lemma_follows_finish(done);
    lemma_follows_chain(run(nums), done, begin);
}

/// Sorts `nums` in place and publishes every comparison and move, then the
/// closing entry.
pub fn sort<C: AlgorithmContext>(nums: &mut [i32], ctx: &mut C)
    ensures
        final(nums)@ == run(old(nums)@).nums,
        final(ctx).recorded() == old(ctx).recorded() + run(old(nums)@).steps,
        sorted(final(nums)@),
        permutes(final(nums)@, old(nums)@),
        run(old(nums)@).steps.last() == (Operation::Noop(), final(nums)@),
{
    let len = nums.len();
    let ghost base = ctx.recorded();
    let ghost mut at = Run::start(nums@);
    let ghost whole = insert_from(at, 1, len as int);
    assert(base + at.steps =~= base);
    let mut i: usize = 1;
    while i < len
        invariant
            1 <= i,
            len == nums@.len(),
            nums@ == at.nums,
            ctx.recorded() == base + at.steps,
            insert_from(at, i as int, len as int) == whole,
        decreases len - i,
    {
        let ghost first = at;
        let mut j: usize = i;
        while j > 0
            invariant_except_break
                seek(at, i as int, j as int) == seek(first, i as int, i as int),
            invariant
                j <= i < len,
                len == nums@.len(),
                nums@ == at.nums,
                ctx.recorded() == base + at.steps,
            ensures
                (at, j as int) == seek(first, i as int, i as int),
            decreases j,
        {
            compare(nums, j - 1, i, ctx, Ghost(base), Ghost(at));
            proof {
                at = at.compare(j - 1, i as int);
            }
            if nums[j - 1] > nums[i] {
                j -= 1;
            } else {
                break;
            }
        }
        if i != j {
            insert(nums, i, j, ctx, Ghost(base), Ghost(at));
            proof {
                lemma_moved(at.nums, i as int, j as int);
                at = at.insert(i as int, j as int);
            }
        }
        i += 1;
    }
    finish(nums, ctx, Ghost(base), Ghost(at));
    proof {
        lemma_run(old(nums)@);
    }
}

} // verus!
