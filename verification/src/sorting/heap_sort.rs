//! Heap sort: the sequence is first arranged as a max-heap; then the root is
//! exchanged with the last element of the heap, the heap shrinks by one, and
//! the new root is sifted down.

use vstd::prelude::*;
use crate::sequence::{permutes, sorted, sorted_between};
use crate::sorting::trace::{
    compare, finish, lemma_follows_chain, lemma_follows_compare, lemma_follows_finish,
    lemma_follows_self, lemma_follows_swap, swap, Run,
};
use crate::sorting::{AlgorithmContext, Operation};

verus! {

pub const NAME: &'static str = "heap sort";

/// Sifting the element at `i` down within the first `n` elements: it is
/// compared with its children, exchanged with the larger one if that is
/// greater, and followed to its new place.
pub open spec fn sift(run: Run, n: int, i: int) -> Run
    decreases n - i,
    when 0 <= i
{
    let left = 2 * i + 1;
    let right = 2 * i + 2;
    let first = if left < n {
        run.compare(left, i)
    } else {
        run
    };
    let larger = if left < n && run.nums[left] > run.nums[i] {
        left
    } else {
        i
    };
    let second = if right < n {
        first.compare(right, larger)
    } else {
        first
    };
    let largest = if right < n && run.nums[right] > run.nums[larger] {
        right
    } else {
        larger
    };
    if largest != i {
        sift(second.swap(i, largest), n, largest)
    } else {
        second
    }
}

/// Building the heap: the places `i - 1`, `i - 2`, down to the first are
/// sifted down in turn.
pub open spec fn build(run: Run, n: int, i: int) -> Run
    decreases i,
{
    if i <= 0 {
        run
    } else {
        build(sift(run, n, i - 1), n, i - 1)
    }
}

/// Emptying a heap of `i` elements: the root goes behind the heap, the heap
/// shrinks, the new root is sifted down, until one element is left.
pub open spec fn drain(run: Run, i: int) -> Run
    decreases i,
{
    if i <= 1 {
        run
    } else {
        drain(sift(run.swap(0, i - 1), i - 1, 0), i - 1)
    }
}

/// The whole run of heap sort on `nums`, closing entry included.
pub open spec fn run(nums: Seq<i32>) -> Run {
    let n = nums.len() as int;
    drain(build(Run::start(nums), n, n / 2), n).finish()
}

/// The element at `p` is at least each of its children among the first `n`.
spec fn dominates(s: Seq<i32>, p: int, n: int) -> bool {
    &&& 2 * p + 1 < n ==> s[p] >= s[2 * p + 1]
    &&& 2 * p + 2 < n ==> s[p] >= s[2 * p + 2]
}

/// From `start` on, every place but `hole` dominates its children.
spec fn heap_except(s: Seq<i32>, start: int, n: int, hole: int) -> bool {
    forall|p: int| start <= p < n && p != hole ==> #[trigger] dominates(s, p, n)
}

/// From `start` on, every place dominates its children.
spec fn heap_from(s: Seq<i32>, start: int, n: int) -> bool {
    forall|p: int| start <= p < n ==> #[trigger] dominates(s, p, n)
}

/// Where the parent of `hole` lies at `start` or after it, it is at least
/// each child of `hole`.
spec fn bridged(s: Seq<i32>, start: int, n: int, hole: int) -> bool {
    hole >= 1 && start <= (hole - 1) / 2 ==> {
        &&& 2 * hole + 1 < n ==> s[(hole - 1) / 2] >= s[2 * hole + 1]
        &&& 2 * hole + 2 < n ==> s[(hole - 1) / 2] >= s[2 * hole + 2]
    }
}

/// Nothing among the first `n` elements is above `bound`.
spec fn capped(s: Seq<i32>, n: int, bound: int) -> bool {
    forall|k: int| 0 <= k < n ==> #[trigger] s[k] <= bound
}

proof fn lemma_sift(run: Run, n: int, i: int, start: int, bound: int)
    requires
        0 <= start <= i < n <= run.nums.len(),
        heap_except(run.nums, start, n, i),
        bridged(run.nums, start, n, i),
        capped(run.nums, n, bound),
    ensures
        sift(run, n, i).follows(run),
        heap_from(sift(run, n, i).nums, start, n),
        capped(sift(run, n, i).nums, n, bound),
        forall|k: int|
            0 <= k < run.nums.len() && (k < i || n <= k) ==> sift(run, n, i).nums[k]
                == run.nums[k],
    decreases n - i,
{
    let s = run.nums;
    let left = 2 * i + 1;
    let right = 2 * i + 2;
    let first = if left < n {
        run.compare(left, i)
    } else {
        run
    };
    let larger = if left < n && s[left] > s[i] {
        left
    } else {
        i
    };
    let second = if right < n {
        first.compare(right, larger)
    } else {
        first
    };
    let largest = if right < n && s[right] > s[larger] {
        right
    } else {
        larger
    };
    lemma_follows_compare(run, left, i);
    lemma_follows_self(run);
    lemma_follows_compare(first, right, larger);
    lemma_follows_self(first);
    lemma_follows_chain(second, first, run);
    if largest != i {
        let next = second.swap(i, largest);
        let t = next.nums;
        lemma_follows_swap(second, i, largest);
        lemma_follows_chain(next, second, run);
        assert forall|p: int| start <= p < n && p != largest implies #[trigger] dominates(
            t,
            p,
            n,
        ) by {
            if p != i {
                assert(dominates(s, p, n));
            }
        }
        assert(dominates(s, largest, n));
        lemma_sift(next, n, largest, start, bound);
        lemma_follows_chain(sift(next, n, largest), next, run);
        assert forall|k: int| 0 <= k < s.len() && (k < i || n <= k) implies sift(
            run,
            n,
            i,
        ).nums[k] == s[k] by {
            assert(sift(next, n, largest).nums[k] == t[k]);
        }
    } else {
        assert forall|p: int| start <= p < n implies #[trigger] dominates(second.nums, p, n) by {
            if p != i {
                assert(dominates(s, p, n));
            }
        }
    }
}

proof fn lemma_root_largest(s: Seq<i32>, n: int, k: int)
    requires
        heap_from(s, 0, n),
        0 <= k < n <= s.len(),
    ensures
        s[k] <= s[0],
    decreases k,
{
    if k > 0 {
        let p = (k - 1) / 2;
        assert(dominates(s, p, n));
        lemma_root_largest(s, n, p);
    }
}

proof fn lemma_build(run: Run, n: int, i: int)
    requires
        n == run.nums.len(),
        0 <= i <= n,
        heap_from(run.nums, i, n),
    ensures
        build(run, n, i).follows(run),
        heap_from(build(run, n, i).nums, 0, n),
    decreases i,
{
    if i <= 0 {
        lemma_follows_self(run);
    } else {
        let next = sift(run, n, i - 1);
        assert forall|p: int| i - 1 <= p < n && p != i - 1 implies #[trigger] dominates(
            run.nums,
            p,
            n,
        ) by {
            assert(dominates(run.nums, p, n));
        }
        lemma_sift(run, n, i - 1, i - 1, i32::MAX as int);
        lemma_build(next, n, i - 1);
        lemma_follows_chain(build(next, n, i - 1), next, run);
    }
}

/// What lies before `i` is at most what lies from `i` on.
spec fn below_rest(s: Seq<i32>, i: int) -> bool {
    forall|k: int, m: int| 0 <= k < i <= m < s.len() ==> s[k] <= s[m]
}

proof fn lemma_drain(run: Run, i: int)
    requires
        0 <= i <= run.nums.len(),
        heap_from(run.nums, 0, i),
        sorted_between(run.nums, i, run.nums.len() as int),
        below_rest(run.nums, i),
    ensures
        drain(run, i).follows(run),
        sorted(drain(run, i).nums),
    decreases i,
{
    let s = run.nums;
    if i <= 1 {
        lemma_follows_self(run);
    } else {
        let last = i - 1;
        let moved = run.swap(0, last);
        let t = moved.nums;
        lemma_follows_swap(run, 0, last);
        assert forall|k: int| 0 <= k < i implies #[trigger] s[k] <= s[0] by {
            lemma_root_largest(s, i, k);
        }
        assert forall|p: int| 0 <= p < last && p != 0 implies #[trigger] dominates(t, p, last) by {
            assert(dominates(s, p, i));
        }
        assert(capped(t, last, t[last] as int));
        let next = sift(moved, last, 0);
        lemma_sift(moved, last, 0, 0, t[last] as int);
        lemma_follows_chain(next, moved, run);
        assert forall|a: int, b: int| last <= a <= b < next.nums.len() implies next.nums[a]
            <= next.nums[b] by {
            assert(next.nums[a] == t[a] && next.nums[b] == t[b]);
            if a < b {
                assert(s[0] <= s[b]);
            }
        }
        assert forall|k: int, m: int| 0 <= k < last <= m < next.nums.len() implies next.nums[k]
            <= next.nums[m] by {
            assert(next.nums[k] <= t[last]);
            assert(next.nums[last] <= next.nums[m]);
        }
        lemma_drain(next, last);
        lemma_follows_chain(drain(next, last), next, run);
    }
}

/// Heap sort ends with the sorted rearrangement of its input, and every
/// entry of its trace shows a rearrangement of the input.
pub proof fn lemma_run(nums: Seq<i32>)
    ensures
        run(nums).follows(Run::start(nums)),
        sorted(run(nums).nums),
        run(nums).steps.last() == (Operation::Noop(), run(nums).nums),
{
    let n = nums.len() as int;
    let begin = Run::start(nums);
    assert forall|p: int| n / 2 <= p < n implies #[trigger] dominates(nums, p, n) by {}
    let heap = build(begin, n, n / 2);
    lemma_build(begin, n, n / 2);
    let emptied = drain(heap, n);
    lemma_drain(heap, n);
    lemma_follows_chain(emptied, heap, begin);
    lemma_follows_finish(emptied);
    lemma_follows_chain(run(nums), emptied, begin);
}

/// Sifts the element at `i` down within the first `n` elements.
fn heapify<C: AlgorithmContext>(
    nums: &mut [i32],
    n: usize,
    i: usize,
    ctx: &mut C,
    Ghost(base): Ghost<Seq<crate::sorting::Step>>,
    Ghost(run): Ghost<Run>,
)
    requires
        i < n <= old(nums)@.len(),
        old(nums)@ == run.nums,
        old(ctx).recorded() == base + run.steps,
    ensures
        final(nums)@ == sift(run, n as int, i as int).nums,
        final(nums)@.len() == old(nums)@.len(),
        final(ctx).recorded() == base + sift(run, n as int, i as int).steps,
    decreases n - i,
{
    let ghost mut at = run;
    let mut largest: usize = i;
    if i < n / 2 {
        let left: usize = 2 * i + 1;
        compare(nums, left, largest, ctx, Ghost(base), Ghost(at));
        proof {
            at = at.compare(left as int, largest as int);
        }
        if nums[left] > nums[largest] {
            largest = left;
        }
        if left + 1 < n {
            let right: usize = left + 1;
            compare(nums, right, largest, ctx, Ghost(base), Ghost(at));
            proof {
                at = at.compare(right as int, largest as int);
            }
            if nums[right] > nums[largest] {
                largest = right;
            }
        }
    }
    if largest != i {
        swap(nums, i, largest, ctx, Ghost(base), Ghost(at));
        proof {
            at = at.swap(i as int, largest as int);
        }
        heapify(nums, n, largest, ctx, Ghost(base), Ghost(at));
    }
}

/// Sorts `nums` in place and publishes every comparison and exchange, then
/// the closing entry.
pub fn sort<C: AlgorithmContext>(nums: &mut [i32], ctx: &mut C)
    ensures
        final(nums)@ == run(old(nums)@).nums,
        final(ctx).recorded() == old(ctx).recorded() + run(old(nums)@).steps,
        sorted(final(nums)@),
        permutes(final(nums)@, old(nums)@),
        run(old(nums)@).steps.last() == (Operation::Noop(), final(nums)@),
{
    let n = nums.len();
    let ghost base = ctx.recorded();
    let ghost mut at = Run::start(nums@);
    let ghost heap = build(at, n as int, n as int / 2);
    assert(base + at.steps =~= base);
    let mut i: usize = n / 2;
    while i > 0
        invariant
            i <= n / 2,
            n == nums@.len(),
            nums@ == at.nums,
            ctx.recorded() == base + at.steps,
            build(at, n as int, i as int) == heap,
        decreases i,
    {
        i -= 1;
        heapify(nums, n, i, ctx, Ghost(base), Ghost(at));
        proof {
            at = sift(at, n as int, i as int);
        }
    }
    let ghost emptied = drain(at, n as int);
    let mut i: usize = n;
    while i > 1
        invariant
            i <= n,
            n == nums@.len(),
            nums@ == at.nums,
            ctx.recorded() == base + at.steps,
            drain(at, i as int) == emptied,
        decreases i,
    {
        i -= 1;
        swap(nums, 0, i, ctx, Ghost(base), Ghost(at));
        proof {
            at = at.swap(0, i as int);
        }
        heapify(nums, i, 0, ctx, Ghost(base), Ghost(at));
        proof {
            at = sift(at, i as int, 0);
        }
    }
    finish(nums, ctx, Ghost(base), Ghost(at));
    proof {
        lemma_run(old(nums)@);
    }
}

} // verus!
