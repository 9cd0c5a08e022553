//! Sorting algorithms that report every elementary step they take.

use vstd::prelude::*;
use vstd::string::StringExecFns;
use crate::sequence::{lemma_neighbours_sorted, lemma_sorted_unique, permutes, sorted};
use crate::sorting::trace::Run;
use crate::text::{decimal, decimal_string, same_text};

pub mod bubble_sort;
pub mod comb_sort;
pub mod heap_sort;
pub mod insertion_sort;
pub mod merge_sort;
pub mod quick_sort;
pub mod selection_sort;
pub mod shell_sort;
pub mod trace;

verus! {

/// One elementary step of a sorting algorithm. A value describes what
/// happened; it changes nothing by itself.
#[derive(Debug, Clone, Copy, PartialEq, Eq, Structural)]
pub enum Operation {
    /// Nothing happened: the first and the last entry of a history.
    Noop(),
    /// The elements at the two places were compared.
    Compare(usize, usize),
    /// The elements at the two places were exchanged.
    Swap(usize, usize),
    /// An element was moved to the place, shifting others to the right.
    Insert(usize),
}

/// The smaller of two places.
pub open spec fn lower(a: usize, b: usize) -> usize {
    if a <= b {
        a
    } else {
        b
    }
}

/// The larger of two places.
pub open spec fn upper(a: usize, b: usize) -> usize {
    if a <= b {
        b
    } else {
        a
    }
}

impl Operation {
    /// The same step with its two places in ascending order.
    pub open spec fn canonical(self) -> Operation {
        match self {
            Operation::Compare(a, b) => Operation::Compare(lower(a, b), upper(a, b)),
            Operation::Swap(a, b) => Operation::Swap(lower(a, b), upper(a, b)),
            Operation::Insert(i) => Operation::Insert(i),
            Operation::Noop() => Operation::Noop(),
        }
    }

    /// Returns the step in canonical form: the smaller place first.
    pub fn adjusted(&self) -> (r: Self)
        ensures
            r == self.canonical(),
    {
        match *self {
            Self::Compare(a, b) => {
                if a > b {
                    Self::Compare(b, a)
                } else {
                    Self::Compare(a, b)
                }
            },
            Self::Swap(a, b) => {
                if a > b {
                    Self::Swap(b, a)
                } else {
                    Self::Swap(a, b)
                }
            },
            Self::Insert(i) => Self::Insert(i),
            Self::Noop() => Self::Noop(),
        }
    }

    /// The step in words: the kind of step and its places in decimal, or
    /// nothing for a step in which nothing happened.
    pub open spec fn text(self) -> Seq<char> {
        match self {
            Operation::Noop() => Seq::empty(),
            Operation::Compare(a, b) => "compare: "@ + decimal(a as nat) + " "@ + decimal(
                b as nat,
            ),
            Operation::Swap(a, b) => "swap: "@ + decimal(a as nat) + " "@ + decimal(b as nat),
            Operation::Insert(i) => "insert: "@ + decimal(i as nat),
        }
    }

    /// Renders the step in words.
    pub fn to_string(&self) -> (words: String)
        ensures
            words@ == self.text(),
    {
        match *self {
            Self::Noop() => String::new(),
            Self::Compare(a, b) => {
                let mut words = String::from_str("compare: ");
                words.append(decimal_string(a).as_str());
                words.append(" ");
                words.append(decimal_string(b).as_str());
                words
            },
            Self::Swap(a, b) => {
                let mut words = String::from_str("swap: ");
                words.append(decimal_string(a).as_str());
                words.append(" ");
                words.append(decimal_string(b).as_str());
                words
            },
            Self::Insert(i) => {
                let mut words = String::from_str("insert: ");
                words.append(decimal_string(i).as_str());
                words
            },
        }
    }
}

/// The canonical form does not depend on the order in which the two places
/// of a comparison or an exchange were given, and lists the smaller first.
pub proof fn lemma_canonical_order_free(a: usize, b: usize)
    ensures
        Operation::Compare(a, b).canonical() == Operation::Compare(b, a).canonical(),
        Operation::Swap(a, b).canonical() == Operation::Swap(b, a).canonical(),
        Operation::Compare(a, b).canonical() matches Operation::Compare(x, y) && x <= y,
        Operation::Swap(a, b).canonical() matches Operation::Swap(x, y) && x <= y,
{
}

/// Taking the canonical form twice is the same as taking it once.
pub proof fn lemma_canonical_idempotent(operation: Operation)
    ensures
        operation.canonical().canonical() == operation.canonical(),
{
}

/// One entry of a history: the step, and the whole sequence after it.
pub type Step = (Operation, Seq<i32>);

/// The capability through which an algorithm publishes its steps.
pub trait AlgorithmContext {
    /// Every step published so far, oldest first. A context that verified
    /// code is to reason about says here what it has been told; one
    /// written outside verified code has nothing to add.
    open spec fn recorded(&self) -> Seq<Step> {
        Seq::empty()
    }

    /// Publishes one step together with the sequence as it stands after it.
    fn next(&mut self, operation: Operation, nums: Vec<i32>)
        ensures
            final(self).recorded() == old(self).recorded().push((operation, nums@)),
    ;
}

/// A context that keeps nothing at run time.
pub struct NoopContext {
    steps: Ghost<Seq<Step>>,
}

impl NoopContext {
    /// A context that has not been told anything yet.
    pub fn new() -> (ctx: Self)
        ensures
            ctx.recorded() == Seq::<Step>::empty(),
    {
        NoopContext { steps: Ghost(Seq::empty()) }
    }
}

impl AlgorithmContext for NoopContext {
    closed spec fn recorded(&self) -> Seq<Step> {
        self.steps@
    }

    fn next(&mut self, operation: Operation, nums: Vec<i32>) {
        self.steps = Ghost(self.steps@.push((operation, nums@)));
    }
}

/// The algorithms on offer.
#[derive(Debug, Clone, Copy, PartialEq, Eq, Structural)]
pub enum Algorithm {
    Bubble,
    Selection,
    Insertion,
    Merge,
    Shell,
    Heap,
    Quick,
    Comb,
}

/// The answer to a name that no algorithm bears.
#[derive(Debug, Clone, Copy, PartialEq, Eq, Structural)]
pub struct NotFound;

impl NotFound {
    /// The complaint in words.
    pub fn message(&self) -> (words: &'static str)
        ensures
            words@ == "algorithm not found"@,
    {
        "algorithm not found"
    }
}

impl Algorithm {
    /// The name under which the algorithm is listed.
    pub open spec fn label(self) -> Seq<char> {
        match self {
            Algorithm::Bubble => bubble_sort::NAME@,
            Algorithm::Selection => selection_sort::NAME@,
            Algorithm::Insertion => insertion_sort::NAME@,
            Algorithm::Merge => merge_sort::NAME@,
            Algorithm::Shell => shell_sort::NAME@,
            Algorithm::Heap => heap_sort::NAME@,
            Algorithm::Quick => quick_sort::NAME@,
            Algorithm::Comb => comb_sort::NAME@,
        }
    }

    /// The whole run of the algorithm on `nums`, closing entry included.
    pub open spec fn run(self, nums: Seq<i32>) -> Run {
        match self {
            Algorithm::Bubble => bubble_sort::run(nums),
            Algorithm::Selection => selection_sort::run(nums),
            Algorithm::Insertion => insertion_sort::run(nums),
            Algorithm::Merge => merge_sort::run(nums),
            Algorithm::Shell => shell_sort::run(nums),
            Algorithm::Heap => heap_sort::run(nums),
            Algorithm::Quick => quick_sort::run(nums),
            Algorithm::Comb => comb_sort::run(nums),
        }
    }

    /// Returns the name under which the algorithm is listed.
    pub fn name(&self) -> (name: &'static str)
        ensures
            name@ == self.label(),
    {
        match *self {
            Algorithm::Bubble => bubble_sort::NAME,
            Algorithm::Selection => selection_sort::NAME,
            Algorithm::Insertion => insertion_sort::NAME,
            Algorithm::Merge => merge_sort::NAME,
            Algorithm::Shell => shell_sort::NAME,
            Algorithm::Heap => heap_sort::NAME,
            Algorithm::Quick => quick_sort::NAME,
            Algorithm::Comb => comb_sort::NAME,
        }
    }

    /// Sorts `nums` in place with the algorithm and publishes every step it
    /// takes, then the closing entry.
    pub fn sort<C: AlgorithmContext>(&self, nums: &mut [i32], ctx: &mut C)
        ensures
            final(nums)@ == self.run(old(nums)@).nums,
            final(ctx).recorded() == old(ctx).recorded() + self.run(old(nums)@).steps,
            sorted(final(nums)@),
            permutes(final(nums)@, old(nums)@),
            self.run(old(nums)@).steps.last() == (Operation::Noop(), final(nums)@),
    {
        match *self {
            Algorithm::Bubble => bubble_sort::sort(nums, ctx),
            Algorithm::Selection => selection_sort::sort(nums, ctx),
            Algorithm::Insertion => insertion_sort::sort(nums, ctx),
            Algorithm::Merge => merge_sort::sort(nums, ctx),
            Algorithm::Shell => shell_sort::sort(nums, ctx),
            Algorithm::Heap => heap_sort::sort(nums, ctx),
            Algorithm::Quick => quick_sort::sort(nums, ctx),
            Algorithm::Comb => comb_sort::sort(nums, ctx),
        }
    }
}

/// The names of the algorithms in the order of the menu.
pub open spec fn listing() -> Seq<&'static str> {
    seq![
        bubble_sort::NAME,
        selection_sort::NAME,
        insertion_sort::NAME,
        merge_sort::NAME,
        shell_sort::NAME,
        heap_sort::NAME,
        quick_sort::NAME,
        comb_sort::NAME,
    ]
}

/// The algorithm that bears `name`, if there is one.
pub open spec fn resolve(name: Seq<char>) -> Result<Algorithm, NotFound> {
    if name == bubble_sort::NAME@ {
        Ok(Algorithm::Bubble)
    } else if name == selection_sort::NAME@ {
        Ok(Algorithm::Selection)
    } else if name == insertion_sort::NAME@ {
        Ok(Algorithm::Insertion)
    } else if name == merge_sort::NAME@ {
        Ok(Algorithm::Merge)
    } else if name == shell_sort::NAME@ {
        Ok(Algorithm::Shell)
    } else if name == heap_sort::NAME@ {
        Ok(Algorithm::Heap)
    } else if name == quick_sort::NAME@ {
        Ok(Algorithm::Quick)
    } else if name == comb_sort::NAME@ {
        Ok(Algorithm::Comb)
    } else {
        Err(NotFound)
    }
}

/// Lists the names of the algorithms in the order of the menu.
pub fn get_algorithms() -> (names: Vec<&'static str>)
    ensures
        names@ == listing(),
{
    let names = vec![
        bubble_sort::NAME,
        selection_sort::NAME,
        insertion_sort::NAME,
        merge_sort::NAME,
        shell_sort::NAME,
        heap_sort::NAME,
        quick_sort::NAME,
        comb_sort::NAME,
    ];
    assert(names@ =~= listing());
    names
}

/// Finds the algorithm that bears the name `s`.
pub fn get_algorithm_func(s: &str) -> (found: Result<Algorithm, NotFound>)
    ensures
        found == resolve(s@),
{
    if same_text(s, bubble_sort::NAME) {
        Ok(Algorithm::Bubble)
    } else if same_text(s, selection_sort::NAME) {
        Ok(Algorithm::Selection)
    } else if same_text(s, insertion_sort::NAME) {
        Ok(Algorithm::Insertion)
    } else if same_text(s, merge_sort::NAME) {
        Ok(Algorithm::Merge)
    } else if same_text(s, shell_sort::NAME) {
        Ok(Algorithm::Shell)
    } else if same_text(s, heap_sort::NAME) {
        Ok(Algorithm::Heap)
    } else if same_text(s, quick_sort::NAME) {
        Ok(Algorithm::Quick)
    } else if same_text(s, comb_sort::NAME) {
        Ok(Algorithm::Comb)
    } else {
        Err(NotFound)
    }
}

/// Every algorithm is found under its own name.
pub proof fn lemma_resolve_label(algorithm: Algorithm)
    ensures
        resolve(algorithm.label()) == Ok::<Algorithm, NotFound>(algorithm),
{
    reveal_strlit("bubble sort");
    reveal_strlit("selection sort");
    reveal_strlit("insertion sort");
    reveal_strlit("merge sort");
    reveal_strlit("shell sort");
    reveal_strlit("heap sort");
    reveal_strlit("quick sort");
    reveal_strlit("comb sort");
    assert(bubble_sort::NAME@[0] == 'b');
    assert(selection_sort::NAME@[1] == 'e');
    assert(insertion_sort::NAME@[0] == 'i');
    assert(merge_sort::NAME@[0] == 'm');
    assert(shell_sort::NAME@[1] == 'h');
    assert(heap_sort::NAME@[0] == 'h');
    assert(quick_sort::NAME@[0] == 'q');
    assert(comb_sort::NAME@[0] == 'c');
}

/// Every name of the listing belongs to an algorithm, and the listing names
/// each algorithm once.
pub proof fn lemma_listing_resolves(k: int)
    requires
        0 <= k < listing().len(),
    ensures
        resolve(listing()[k]@) is Ok,
        resolve(listing()[k]@)->Ok_0.label() == listing()[k]@,
        forall|m: int| 0 <= m < listing().len() && m != k ==> listing()[m]@ != listing()[k]@,
{
    lemma_resolve_label(Algorithm::Bubble);
    lemma_resolve_label(Algorithm::Selection);
    lemma_resolve_label(Algorithm::Insertion);
    lemma_resolve_label(Algorithm::Merge);
    lemma_resolve_label(Algorithm::Shell);
    lemma_resolve_label(Algorithm::Heap);
    lemma_resolve_label(Algorithm::Quick);
    lemma_resolve_label(Algorithm::Comb);
}

/// Whatever the algorithm and whatever the input: the run ends with the
/// sorted rearrangement of the input, its last entry is the closing entry
/// with that sequence, and every entry shows a rearrangement of the input.
pub proof fn lemma_run_sorts(algorithm: Algorithm, nums: Seq<i32>)
    ensures
        sorted(algorithm.run(nums).nums),
        permutes(algorithm.run(nums).nums, nums),
        algorithm.run(nums).steps.len() > 0,
        algorithm.run(nums).steps.last() == (Operation::Noop(), algorithm.run(nums).nums),
        forall|k: int|
            0 <= k < algorithm.run(nums).steps.len() ==> permutes(
                (#[trigger] algorithm.run(nums).steps[k]).1,
                nums,
            ),
{
    match algorithm {
        Algorithm::Bubble => bubble_sort::lemma_run(nums),
        Algorithm::Selection => selection_sort::lemma_run(nums),
        Algorithm::Insertion => insertion_sort::lemma_run(nums),
        Algorithm::Merge => merge_sort::lemma_run(nums),
        Algorithm::Shell => shell_sort::lemma_run(nums),
        Algorithm::Heap => heap_sort::lemma_run(nums),
        Algorithm::Quick => quick_sort::lemma_run(nums),
        Algorithm::Comb => comb_sort::lemma_run(nums),
    }
}

/// All the algorithms end with the same sequence.
pub proof fn lemma_algorithms_agree(one: Algorithm, other: Algorithm, nums: Seq<i32>)
    ensures
        one.run(nums).nums == other.run(nums).nums,
{
    lemma_run_sorts(one, nums);
    lemma_run_sorts(other, nums);
    lemma_sorted_unique(one.run(nums).nums, other.run(nums).nums);
}

/// Tells whether `nums` is in ascending order.
pub fn is_sorted(nums: &[i32]) -> (ordered: bool)
    ensures
        ordered == sorted(nums@),
{
    let mut k: usize = 1;
    while k < nums.len()
        invariant
            1 <= k,
            forall|m: int| 0 <= m && m + 1 < k ==> nums@[m] <= #[trigger] nums@[m + 1],
        decreases nums@.len() - k,
    {
        if nums[k - 1] > nums[k] {
            return false;
        }
        k += 1;
    }
    proof {
        lemma_neighbours_sorted(nums@);
    }
    true
}

/// Tells whether `nums` holds the number `e`.
fn holds(nums: &[i32], e: i32) -> (found: bool)
    ensures
        found == nums@.contains(e),
{
    let mut k: usize = 0;
    while k < nums.len()
        invariant
            k <= nums@.len(),
            forall|m: int| 0 <= m < k ==> nums@[m] != e,
        decreases nums@.len() - k,
    {
        if nums[k] == e {
            return true;
        }
        k += 1;
    }
    false
}

/// Tells whether `nums` holds each of the numbers 0 to 9.
pub fn has_nums(nums: &[i32]) -> (complete: bool)
    ensures
        complete == forall|e: i32| 0 <= e <= 9 ==> nums@.contains(e),
{
    let mut e: i32 = 0;
    while e <= 9
        invariant
            0 <= e <= 10,
            forall|d: i32| 0 <= d < e ==> nums@.contains(d),
        decreases 10 - e,
    {
        if !holds(nums, e) {
            return false;
        }
        e += 1;
    }
    true
}

} // verus!
