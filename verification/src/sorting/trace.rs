//! The model of a run: the sequence being sorted together with the steps
//! published so far, and the executable primitives that advance both.

use vstd::prelude::*;
use vstd::slice::slice_to_vec;
use crate::sequence::{lemma_moved, lemma_swapped_permutes, moved, permutes, swapped};
use crate::sorting::{AlgorithmContext, Operation, Step};

verus! {

/// A run in progress.
pub struct Run {
    /// The sequence as it stands.
    pub nums: Seq<i32>,
    /// The steps published since the run began, oldest first.
    pub steps: Seq<Step>,
}

impl Run {
    /// A run that has not taken a step yet.
    pub open spec fn start(nums: Seq<i32>) -> Run {
        Run { nums, steps: Seq::empty() }
    }

    /// The run after comparing the elements at `i` and `j`.
    pub open spec fn compare(self, i: int, j: int) -> Run {
        Run {
            nums: self.nums,
            steps: self.steps.push((Operation::Compare(i as usize, j as usize), self.nums)),
        }
    }

    /// The run after exchanging the elements at `i` and `j`.
    pub open spec fn swap(self, i: int, j: int) -> Run {
        let nums = swapped(self.nums, i, j);
        Run { nums, steps: self.steps.push((Operation::Swap(i as usize, j as usize), nums)) }
    }

    /// The run after moving the element at `from` to the earlier place `to`.
    pub open spec fn insert(self, from: int, to: int) -> Run {
        let nums = moved(self.nums, from, to);
        Run { nums, steps: self.steps.push((Operation::Insert(to as usize), nums)) }
    }

    /// The run after publishing the closing entry.
    pub open spec fn finish(self) -> Run {
        Run { nums: self.nums, steps: self.steps.push((Operation::Noop(), self.nums)) }
    }

    /// `self` is a later state of the run `earlier`: it has the same length,
    /// holds the same elements, begins with the steps of `earlier`, and every
    /// step taken since then shows a rearrangement of the sequence.
    pub open spec fn follows(self, earlier: Run) -> bool {
        &&& self.nums.len() == earlier.nums.len()
        &&& permutes(self.nums, earlier.nums)
        &&& earlier.steps.len() <= self.steps.len()
        &&& forall|k: int| 0 <= k < earlier.steps.len() ==> self.steps[k] == earlier.steps[k]
        &&& forall|k: int|
            earlier.steps.len() <= k < self.steps.len() ==> permutes(
                (#[trigger] self.steps[k]).1,
                self.nums,
            )
    }
}

/// Every run follows itself.
pub proof fn lemma_follows_self(run: Run)
    ensures
        run.follows(run),
{
}

/// Following is transitive.
pub proof fn lemma_follows_chain(last: Run, middle: Run, first: Run)
    requires
        last.follows(middle),
        middle.follows(first),
    ensures
        last.follows(first),
{
    assert forall|k: int| first.steps.len() <= k < last.steps.len() implies permutes(
        (#[trigger] last.steps[k]).1,
        last.nums,
    ) by {
        if k < middle.steps.len() {
            assert(last.steps[k] == middle.steps[k]);
        }
    }
}

/// A comparison leads to a later state of the same run.
pub proof fn lemma_follows_compare(run: Run, i: int, j: int)
    ensures
        run.compare(i, j).follows(run),
{
}

/// An exchange leads to a later state of the same run.
pub proof fn lemma_follows_swap(run: Run, i: int, j: int)
    requires
        0 <= i < run.nums.len(),
        0 <= j < run.nums.len(),
    ensures
        run.swap(i, j).follows(run),
{
    lemma_swapped_permutes(run.nums, i, j);
}

/// A move leads to a later state of the same run.
pub proof fn lemma_follows_insert(run: Run, from: int, to: int)
    requires
        0 <= to <= from < run.nums.len(),
    ensures
        run.insert(from, to).follows(run),
{
    lemma_moved(run.nums, from, to);
}

/// The closing entry leads to a later state of the same run.
pub proof fn lemma_follows_finish(run: Run)
    ensures
        run.finish().follows(run),
{
}

/// Publishes `operation` with a copy of `nums`.
fn publish<C: AlgorithmContext>(
    ctx: &mut C,
    operation: Operation,
    nums: &[i32],
    Ghost(base): Ghost<Seq<Step>>,
    Ghost(steps): Ghost<Seq<Step>>,
)
    requires
        old(ctx).recorded() == base + steps,
    ensures
        final(ctx).recorded() == base + steps.push((operation, nums@)),
{
    ctx.next(operation, slice_to_vec(nums));
    assert((base + steps).push((operation, nums@)) =~= base + steps.push((operation, nums@)));
}

/// Publishes the comparison of the elements at `i` and `j`.
pub(crate) fn compare<C: AlgorithmContext>(
    nums: &[i32],
    i: usize,
    j: usize,
    ctx: &mut C,
    Ghost(base): Ghost<Seq<Step>>,
    Ghost(run): Ghost<Run>,
)
    requires
        nums@ == run.nums,
        old(ctx).recorded() == base + run.steps,
    ensures
        final(ctx).recorded() == base + run.compare(i as int, j as int).steps,
{
    publish(ctx, Operation::Compare(i, j), nums, Ghost(base), Ghost(run.steps));
}

/// Exchanges the elements at `i` and `j` and publishes the exchange.
pub(crate) fn swap<C: AlgorithmContext>(
    nums: &mut [i32],
    i: usize,
    j: usize,
    ctx: &mut C,
    Ghost(base): Ghost<Seq<Step>>,
    Ghost(run): Ghost<Run>,
)
    requires
        i < old(nums)@.len(),
        j < old(nums)@.len(),
        old(nums)@ == run.nums,
        old(ctx).recorded() == base + run.steps,
    ensures
        final(nums)@ == run.swap(i as int, j as int).nums,
        final(ctx).recorded() == base + run.swap(i as int, j as int).steps,
{
    let a: i32 = nums[i];
    let b: i32 = nums[j];
    nums[i] = b;
    nums[j] = a;
    publish(ctx, Operation::Swap(i, j), nums, Ghost(base), Ghost(run.steps));
}

/// Moves the element at `from` to the earlier place `to`, shifting the
/// elements in between one place to the right, and publishes the move.
pub(crate) fn insert<C: AlgorithmContext>(
    nums: &mut [i32],
    from: usize,
    to: usize,
    ctx: &mut C,
    Ghost(base): Ghost<Seq<Step>>,
    Ghost(run): Ghost<Run>,
)
    requires
        to <= from < old(nums)@.len(),
        old(nums)@ == run.nums,
        old(ctx).recorded() == base + run.steps,
    ensures
        final(nums)@ == run.insert(from as int, to as int).nums,
        final(ctx).recorded() == base + run.insert(from as int, to as int).steps,
{
    let temp: i32 = nums[from];
    let mut k: usize = from;
    while k > to
        invariant
            to <= k <= from < nums@.len(),
            nums@.len() == old(nums)@.len(),
            forall|m: int| 0 <= m <= k ==> nums@[m] == old(nums)@[m],
            forall|m: int| k < m <= from ==> nums@[m] == old(nums)@[m - 1],
            forall|m: int| from < m < nums@.len() ==> nums@[m] == old(nums)@[m],
        decreases k,
    {
        nums[k] = nums[k - 1];
        k -= 1;
    }
    nums[to] = temp;
    proof {
        lemma_moved(old(nums)@, from as int, to as int);
        assert(nums@ =~= moved(old(nums)@, from as int, to as int));
    }
    publish(ctx, Operation::Insert(to), nums, Ghost(base), Ghost(run.steps));
}

/// Publishes the closing entry.
pub(crate) fn finish<C: AlgorithmContext>(
    nums: &[i32],
    ctx: &mut C,
    Ghost(base): Ghost<Seq<Step>>,
    Ghost(run): Ghost<Run>,
)
    requires
        nums@ == run.nums,
        old(ctx).recorded() == base + run.steps,
    ensures
        final(ctx).recorded() == base + run.finish().steps,
{
    publish(ctx, Operation::Noop(), nums, Ghost(base), Ghost(run.steps));
}

} // verus!
