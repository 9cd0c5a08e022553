//! Comb sort: elements a fixed distance apart are compared pass by pass
//! while the distance shrinks by the factor 1.3; at distance one the passes
//! go on until one of them exchanges nothing.

use vstd::prelude::*;
use crate::sequence::{lemma_neighbours_sorted, permutes, sorted, swapped};
use crate::sorting::trace::{
    compare, finish, lemma_follows_chain, lemma_follows_compare, lemma_follows_finish,
    lemma_follows_self, lemma_follows_swap, swap, Run,
};
use crate::sorting::{AlgorithmContext, Operation};

verus! {

pub const NAME: &'static str = "comb sort";

/// The distance after `gap`: `gap` divided by 1.3 and rounded down, but at
/// least one.
pub open spec fn shrink(gap: int) -> int {
    if gap * 10 / 13 < 1 {
        1
    } else {
        gap * 10 / 13
    }
}

/// A measure that every exchange of two elements in the wrong order makes
/// smaller: each element's distance below the largest `i32`, weighted by its
/// place.
pub open spec fn potential(s: Seq<i32>) -> int
    decreases s.len(),
{
    if s.len() == 0 {
        0
    } else {
        potential(s.drop_last()) + (s.len() - 1) * (i32::MAX - s.last())
    }
}

proof fn lemma_potential_bounded(s: Seq<i32>)
    ensures
        potential(s) >= 0,
    decreases s.len(),
{
    if s.len() > 0 {
        lemma_potential_bounded(s.drop_last());
        assert((s.len() - 1) * (i32::MAX - s.last()) >= 0) by (nonlinear_arith)
            requires
                s.len() - 1 >= 0,
                i32::MAX - s.last() >= 0,
        ;
    }
}

proof fn lemma_potential_update(s: Seq<i32>, k: int, v: i32)
    requires
        0 <= k < s.len(),
    ensures
        potential(s.update(k, v)) == potential(s) + k * (s[k] - v),
    decreases s.len(),
{
    let t = s.update(k, v);
    if k == s.len() - 1 {
        assert(t.drop_last() =~= s.drop_last());
        assert(k * (i32::MAX - v) == k * (i32::MAX - s[k]) + k * (s[k] - v))
            by (nonlinear_arith);
    } else {
        assert(t.drop_last() =~= s.drop_last().update(k, v));
        lemma_potential_update(s.drop_last(), k, v);
    }
}

proof fn lemma_potential_swap(s: Seq<i32>, i: int, j: int)
    requires
        0 <= i < j < s.len(),
        s[i] > s[j],
    ensures
        potential(swapped(s, i, j)) < potential(s),
{
    let t = s.update(i, s[j]);
    lemma_potential_update(s, i, s[j]);
    lemma_potential_update(t, j, s[i]);
    assert(i * (s[i] - s[j]) + j * (s[j] - s[i]) < 0) by (nonlinear_arith)
        requires
            i < j,
            s[i] > s[j],
    ;
}

/// The rest of one pass at distance `gap`: from place `i` on, each element
/// is compared with the one `gap` places to its right. Gives the run after
/// the pass and whether anything was exchanged.
pub open spec fn pass(run: Run, gap: int, i: int, swapped: bool, n: int) -> (Run, bool)
    decreases n - gap - i,
{
    if i + gap >= n {
        (run, swapped)
    } else {
        let seen = run.compare(i, i + gap);
        if seen.nums[i] > seen.nums[i + gap] {
            pass(seen.swap(i, i + gap), gap, i + 1, true, n)
        } else {
            pass(seen, gap, i + 1, swapped, n)
        }
    }
}

proof fn lemma_pass(run: Run, gap: int, i: int, swapped: bool, n: int)
    requires
        n == run.nums.len(),
        gap >= 1,
        i >= 0,
        !swapped ==> forall|k: int|
            0 <= k < i && k + gap < n ==> #[trigger] run.nums[k] <= run.nums[k + gap],
    ensures
        ({
            let (after, moved) = pass(run, gap, i, swapped, n);
            &&& after.follows(run)
            &&& potential(after.nums) <= potential(run.nums)
            &&& moved && !swapped ==> potential(after.nums) < potential(run.nums)
            &&& !moved ==> forall|k: int|
                0 <= k && k + gap < n ==> #[trigger] after.nums[k] <= after.nums[k + gap]
        }),
    decreases n - gap - i,
{
    if i + gap >= n {
        lemma_follows_self(run);
    } else {
        let seen = run.compare(i, i + gap);
        lemma_follows_compare(run, i, i + gap);
        if seen.nums[i] > seen.nums[i + gap] {
            let next = seen.swap(i, i + gap);
            lemma_follows_swap(seen, i, i + gap);
            lemma_follows_chain(next, seen, run);
            lemma_potential_swap(seen.nums, i, i + gap);
            lemma_pass(next, gap, i + 1, true, n);
            lemma_follows_chain(pass(next, gap, i + 1, true, n).0, next, run);
        } else {
            lemma_pass(seen, gap, i + 1, swapped, n);
            lemma_follows_chain(pass(seen, gap, i + 1, swapped, n).0, seen, run);
        }
    }
}

/// The passes that are still to come when the distance is `gap` and the last
/// pass has, or has not, exchanged something.
pub open spec fn rounds(run: Run, gap: int, swapped: bool, n: int) -> Run
    decreases
        (if gap > 1 {
            gap
        } else {
            1
        }),
        (if swapped {
            1 + potential(run.nums)
        } else {
            0
        }),
    when n == run.nums.len()
    via rounds_decreases
{
    if gap > 1 || swapped {
        let (after, moved) = pass(run, shrink(gap), 0, false, n);
        rounds(after, shrink(gap), moved, n)
    } else {
        run
    }
}

#[via_fn]
proof fn rounds_decreases(run: Run, gap: int, swapped: bool, n: int) {
    if gap > 1 || swapped {
        lemma_pass(run, shrink(gap), 0, false, n);
        lemma_potential_bounded(pass(run, shrink(gap), 0, false, n).0.nums);
    }
}

proof fn lemma_rounds(run: Run, gap: int, swapped: bool, n: int)
    requires
        n == run.nums.len(),
        !(gap > 1 || swapped) ==> sorted(run.nums),
    ensures
        rounds(run, gap, swapped, n).follows(run),
        sorted(rounds(run, gap, swapped, n).nums),
    decreases
        (if gap > 1 {
            gap
        } else {
            1
        }),
        (if swapped {
            1 + potential(run.nums)
        } else {
            0
        }),
{
    if gap > 1 || swapped {
        let (after, moved) = pass(run, shrink(gap), 0, false, n);
        lemma_pass(run, shrink(gap), 0, false, n);
        lemma_potential_bounded(after.nums);
        if shrink(gap) <= 1 && !moved {
            assert forall|k: int| 0 <= k && k + 1 < after.nums.len() implies after.nums[k]
                <= #[trigger] after.nums[k + 1] by {
                assert(after.nums[k] <= after.nums[k + shrink(gap)]);
            }
            lemma_neighbours_sorted(after.nums);
        }
        lemma_rounds(after, shrink(gap), moved, n);
        lemma_follows_chain(rounds(after, shrink(gap), moved, n), after, run);
    } else {
        lemma_follows_self(run);
    }
}

/// The whole run of comb sort on `nums`, closing entry included.
pub open spec fn run(nums: Seq<i32>) -> Run {
    rounds(Run::start(nums), nums.len() as int, true, nums.len() as int).finish()
}

/// Comb sort ends with the sorted rearrangement of its input, and every
/// entry of its trace shows a rearrangement of the input.
pub proof fn lemma_run(nums: Seq<i32>)
    ensures
        run(nums).follows(Run::start(nums)),
        sorted(run(nums).nums),
        run(nums).steps.last() == (Operation::Noop(), run(nums).nums),
{
    let n = nums.len() as int;
    let before = rounds(Run::start(nums), n, true, n);
    lemma_rounds(Run::start(nums), n, true, n);
    lemma_follows_finish(before);
    lemma_follows_chain(run(nums), before, Run::start(nums));
}

/// Computes the distance that follows `gap`.
fn next_gap(gap: usize) -> (next: usize)
    ensures
        next == shrink(gap as int),
{
    let whole: usize = gap / 13 * 10;
    let part: usize = gap % 13 * 10 / 13;
    let next: usize = whole + part;
    if next < 1 {
        1
    } else {
        next
    }
}

/// Sorts `nums` in place and publishes every comparison and exchange, then
/// the closing entry.
pub fn sort<C: AlgorithmContext>(nums: &mut [i32], ctx: &mut C)
    ensures
        final(nums)@ == run(old(nums)@).nums,
        final(ctx).recorded() == old(ctx).recorded() + run(old(nums)@).steps,
        sorted(final(nums)@),
        permutes(final(nums)@, old(nums)@),
        run(old(nums)@).steps.last() == (Operation::Noop(), final(nums)@),
{
    let n = nums.len();
    let ghost base = ctx.recorded();
    let ghost mut at = Run::start(nums@);
    let ghost whole = rounds(at, n as int, true, n as int);
    assert(base + at.steps =~= base);
    let mut gap: usize = n;
    let mut swapped = true;
    while gap > 1 || swapped
        invariant
            n == nums@.len(),
            nums@ == at.nums,
            ctx.recorded() == base + at.steps,
            rounds(at, gap as int, swapped, n as int) == whole,
        decreases
            (if gap > 1 {
                gap as int
            } else {
                1
            }),
            (if swapped {
                1 + potential(nums@)
            } else {
                0
            }),
    {
        let ghost first = at;
        gap = next_gap(gap);
        swapped = false;
        let limit: usize = if gap <= n {
            n - gap
        } else {
            0
        };
        let mut i: usize = 0;
        while i < limit
            invariant
                1 <= gap,
                i <= limit,
                limit + gap <= n || limit == 0 && n < gap,
                n == nums@.len(),
                nums@ == at.nums,
                ctx.recorded() == base + at.steps,
                pass(at, gap as int, i as int, swapped, n as int) == pass(
                    first,
                    gap as int,
                    0,
                    false,
                    n as int,
                ),
            decreases limit - i,
        {
            let j: usize = i + gap;
            compare(nums, i, j, ctx, Ghost(base), Ghost(at));
            proof {
                at = at.compare(i as int, j as int);
            }
            if nums[i] > nums[j] {
                swap(nums, i, j, ctx, Ghost(base), Ghost(at));
                proof {
                    at = at.swap(i as int, j as int);
                }
                swapped = true;
            }
            i += 1;
        }
        proof {
            lemma_pass(first, gap as int, 0, false, n as int);
            lemma_potential_bounded(at.nums);
        }
    }
    finish(nums, ctx, Ghost(base), Ghost(at));
    proof {
        lemma_run(old(nums)@);
    }
}

} // verus!
