//! Traces of the eight algorithms on fixed inputs, entry by entry.

use sorting_visualizer::sorting::{
    bubble_sort, comb_sort, heap_sort, insertion_sort, merge_sort, quick_sort, selection_sort,
    shell_sort, AlgorithmContext, Operation,
};
use sorting_visualizer::status::History;

/// A context written outside the library: it keeps the steps only.
struct StepsOnly {
    steps: Vec<Operation>,
}

impl AlgorithmContext for StepsOnly {
    fn next(&mut self, operation: Operation, _nums: Vec<i32>) {
        self.steps.push(operation);
    }
}

fn steps_of(history: &History) -> Vec<Operation> {
    history.operations().iter().skip(1).map(|entry| entry.0).collect()
}

fn entries_of(history: &History) -> Vec<(Operation, Vec<i32>)> {
    history.operations().iter().skip(1).cloned().collect()
}

#[test]
fn bubble_steps_of_ten() {
    let mut nums = vec![3, 5, 2, 8, 6, 9, 0, 1, 4, 7];
    let mut history = History::new(&nums);
    bubble_sort::sort(&mut nums, &mut history);
    let expected = vec![
        Operation::Compare(0, 1),
        Operation::Compare(1, 2),
        Operation::Swap(1, 2),
        Operation::Compare(2, 3),
        Operation::Compare(3, 4),
        Operation::Swap(3, 4),
        Operation::Compare(4, 5),
        Operation::Compare(5, 6),
        Operation::Swap(5, 6),
        Operation::Compare(6, 7),
        Operation::Swap(6, 7),
        Operation::Compare(7, 8),
        Operation::Swap(7, 8),
        Operation::Compare(8, 9),
        Operation::Swap(8, 9),
        Operation::Compare(0, 1),
        Operation::Swap(0, 1),
        Operation::Compare(1, 2),
        Operation::Compare(2, 3),
        Operation::Compare(3, 4),
        Operation::Compare(4, 5),
        Operation::Swap(4, 5),
        Operation::Compare(5, 6),
        Operation::Swap(5, 6),
        Operation::Compare(6, 7),
        Operation::Swap(6, 7),
        Operation::Compare(7, 8),
        Operation::Swap(7, 8),
        Operation::Compare(0, 1),
        Operation::Compare(1, 2),
        Operation::Compare(2, 3),
        Operation::Compare(3, 4),
        Operation::Swap(3, 4),
        Operation::Compare(4, 5),
        Operation::Swap(4, 5),
        Operation::Compare(5, 6),
        Operation::Swap(5, 6),
        Operation::Compare(6, 7),
        Operation::Compare(0, 1),
        Operation::Compare(1, 2),
        Operation::Compare(2, 3),
        Operation::Swap(2, 3),
        Operation::Compare(3, 4),
        Operation::Swap(3, 4),
        Operation::Compare(4, 5),
        Operation::Swap(4, 5),
        Operation::Compare(5, 6),
        Operation::Compare(0, 1),
        Operation::Compare(1, 2),
        Operation::Swap(1, 2),
        Operation::Compare(2, 3),
        Operation::Swap(2, 3),
        Operation::Compare(3, 4),
        Operation::Compare(4, 5),
        Operation::Compare(0, 1),
        Operation::Swap(0, 1),
        Operation::Compare(1, 2),
        Operation::Swap(1, 2),
        Operation::Compare(2, 3),
        Operation::Compare(3, 4),
        Operation::Compare(0, 1),
        Operation::Compare(1, 2),
        Operation::Compare(2, 3),
        Operation::Noop(),
    ];
    assert_eq!(steps_of(&history), expected);
    assert_eq!(nums, vec![0, 1, 2, 3, 4, 5, 6, 7, 8, 9]);
    let mut outside = StepsOnly { steps: Vec::new() };
    let mut again = vec![3, 5, 2, 8, 6, 9, 0, 1, 4, 7];
    bubble_sort::sort(&mut again, &mut outside);
    assert_eq!(outside.steps, expected);
}

#[test]
fn bubble_entries_of_five() {
    let mut nums = vec![4, 1, 3, 5, 2];
    let mut history = History::new(&nums);
    bubble_sort::sort(&mut nums, &mut history);
    let expected = vec![
        (Operation::Compare(0, 1), vec![4, 1, 3, 5, 2]),
        (Operation::Swap(0, 1), vec![1, 4, 3, 5, 2]),
        (Operation::Compare(1, 2), vec![1, 4, 3, 5, 2]),
        (Operation::Swap(1, 2), vec![1, 3, 4, 5, 2]),
        (Operation::Compare(2, 3), vec![1, 3, 4, 5, 2]),
        (Operation::Compare(3, 4), vec![1, 3, 4, 5, 2]),
        (Operation::Swap(3, 4), vec![1, 3, 4, 2, 5]),
        (Operation::Compare(0, 1), vec![1, 3, 4, 2, 5]),
        (Operation::Compare(1, 2), vec![1, 3, 4, 2, 5]),
        (Operation::Compare(2, 3), vec![1, 3, 4, 2, 5]),
        (Operation::Swap(2, 3), vec![1, 3, 2, 4, 5]),
        (Operation::Compare(0, 1), vec![1, 3, 2, 4, 5]),
        (Operation::Compare(1, 2), vec![1, 3, 2, 4, 5]),
        (Operation::Swap(1, 2), vec![1, 2, 3, 4, 5]),
        (Operation::Compare(0, 1), vec![1, 2, 3, 4, 5]),
        (Operation::Noop(), vec![1, 2, 3, 4, 5]),
    ];
    assert_eq!(entries_of(&history), expected);
    assert_eq!(nums, vec![1, 2, 3, 4, 5]);
}

#[test]
fn bubble_entries_of_repeats() {
    let mut nums = vec![2, 1, 2, 1];
    let mut history = History::new(&nums);
    bubble_sort::sort(&mut nums, &mut history);
    let expected = vec![
        (Operation::Compare(0, 1), vec![2, 1, 2, 1]),
        (Operation::Swap(0, 1), vec![1, 2, 2, 1]),
        (Operation::Compare(1, 2), vec![1, 2, 2, 1]),
        (Operation::Compare(2, 3), vec![1, 2, 2, 1]),
        (Operation::Swap(2, 3), vec![1, 2, 1, 2]),
        (Operation::Compare(0, 1), vec![1, 2, 1, 2]),
        (Operation::Compare(1, 2), vec![1, 2, 1, 2]),
        (Operation::Swap(1, 2), vec![1, 1, 2, 2]),
        (Operation::Compare(0, 1), vec![1, 1, 2, 2]),
        (Operation::Noop(), vec![1, 1, 2, 2]),
    ];
    assert_eq!(entries_of(&history), expected);
    assert_eq!(nums, vec![1, 1, 2, 2]);
}

#[test]
fn bubble_of_nothing_and_of_one() {
    let mut nothing: Vec<i32> = Vec::new();
    let mut history = History::new(&nothing);
    bubble_sort::sort(&mut nothing, &mut history);
    assert_eq!(entries_of(&history), vec![(Operation::Noop(), Vec::new())]);
    let mut one = vec![7];
    let mut history = History::new(&one);
    bubble_sort::sort(&mut one, &mut history);
    assert_eq!(entries_of(&history), vec![(Operation::Noop(), vec![7])]);
    assert_eq!(one, vec![7]);
}

#[test]
fn selection_steps_of_ten() {
    let mut nums = vec![3, 5, 2, 8, 6, 9, 0, 1, 4, 7];
    let mut history = History::new(&nums);
    selection_sort::sort(&mut nums, &mut history);
    let expected = vec![
        Operation::Compare(0, 1),
        Operation::Compare(0, 2),
        Operation::Compare(2, 3),
        Operation::Compare(2, 4),
        Operation::Compare(2, 5),
        Operation::Compare(2, 6),
        Operation::Compare(6, 7),
        Operation::Compare(6, 8),
        Operation::Compare(6, 9),
        Operation::Swap(0, 6),
        Operation::Compare(1, 2),
        Operation::Compare(2, 3),
        Operation::Compare(2, 4),
        Operation::Compare(2, 5),
        Operation::Compare(2, 6),
        Operation::Compare(2, 7),
        Operation::Compare(7, 8),
        Operation::Compare(7, 9),
        Operation::Swap(1, 7),
        Operation::Compare(2, 3),
        Operation::Compare(2, 4),
        Operation::Compare(2, 5),
        Operation::Compare(2, 6),
        Operation::Compare(2, 7),
        Operation::Compare(2, 8),
        Operation::Compare(2, 9),
        Operation::Compare(3, 4),
        Operation::Compare(4, 5),
        Operation::Compare(4, 6),
        Operation::Compare(6, 7),
        Operation::Compare(6, 8),
        Operation::Compare(6, 9),
        Operation::Swap(3, 6),
        Operation::Compare(4, 5),
        Operation::Compare(4, 6),
        Operation::Compare(4, 7),
        Operation::Compare(7, 8),
        Operation::Compare(8, 9),
        Operation::Swap(4, 8),
        Operation::Compare(5, 6),
        Operation::Compare(6, 7),
        Operation::Compare(7, 8),
        Operation::Compare(7, 9),
        Operation::Swap(5, 7),
        Operation::Compare(6, 7),
        Operation::Compare(6, 8),
        Operation::Compare(8, 9),
        Operation::Swap(6, 8),
        Operation::Compare(7, 8),
        Operation::Compare(8, 9),
        Operation::Swap(7, 9),
        Operation::Compare(8, 9),
        Operation::Noop(),
    ];
    assert_eq!(steps_of(&history), expected);
    assert_eq!(nums, vec![0, 1, 2, 3, 4, 5, 6, 7, 8, 9]);
    let mut outside = StepsOnly { steps: Vec::new() };
    let mut again = vec![3, 5, 2, 8, 6, 9, 0, 1, 4, 7];
    selection_sort::sort(&mut again, &mut outside);
    assert_eq!(outside.steps, expected);
}

#[test]
fn selection_entries_of_five() {
    let mut nums = vec![4, 1, 3, 5, 2];
    let mut history = History::new(&nums);
    selection_sort::sort(&mut nums, &mut history);
    let expected = vec![
        (Operation::Compare(0, 1), vec![4, 1, 3, 5, 2]),
        (Operation::Compare(1, 2), vec![4, 1, 3, 5, 2]),
        (Operation::Compare(1, 3), vec![4, 1, 3, 5, 2]),
        (Operation::Compare(1, 4), vec![4, 1, 3, 5, 2]),
        (Operation::Swap(0, 1), vec![1, 4, 3, 5, 2]),
        (Operation::Compare(1, 2), vec![1, 4, 3, 5, 2]),
        (Operation::Compare(2, 3), vec![1, 4, 3, 5, 2]),
        (Operation::Compare(2, 4), vec![1, 4, 3, 5, 2]),
        (Operation::Swap(1, 4), vec![1, 2, 3, 5, 4]),
        (Operation::Compare(2, 3), vec![1, 2, 3, 5, 4]),
        (Operation::Compare(2, 4), vec![1, 2, 3, 5, 4]),
        (Operation::Compare(3, 4), vec![1, 2, 3, 5, 4]),
        (Operation::Swap(3, 4), vec![1, 2, 3, 4, 5]),
        (Operation::Noop(), vec![1, 2, 3, 4, 5]),
    ];
    assert_eq!(entries_of(&history), expected);
    assert_eq!(nums, vec![1, 2, 3, 4, 5]);
}

#[test]
fn selection_entries_of_repeats() {
    let mut nums = vec![2, 1, 2, 1];
    let mut history = History::new(&nums);
    selection_sort::sort(&mut nums, &mut history);
    let expected = vec![
        (Operation::Compare(0, 1), vec![2, 1, 2, 1]),
        (Operation::Compare(1, 2), vec![2, 1, 2, 1]),
        (Operation::Compare(1, 3), vec![2, 1, 2, 1]),
        (Operation::Swap(0, 1), vec![1, 2, 2, 1]),
        (Operation::Compare(1, 2), vec![1, 2, 2, 1]),
        (Operation::Compare(1, 3), vec![1, 2, 2, 1]),
        (Operation::Swap(1, 3), vec![1, 1, 2, 2]),
        (Operation::Compare(2, 3), vec![1, 1, 2, 2]),
        (Operation::Noop(), vec![1, 1, 2, 2]),
    ];
    assert_eq!(entries_of(&history), expected);
    assert_eq!(nums, vec![1, 1, 2, 2]);
}

#[test]
fn selection_of_nothing_and_of_one() {
    let mut nothing: Vec<i32> = Vec::new();
    let mut history = History::new(&nothing);
    selection_sort::sort(&mut nothing, &mut history);
    assert_eq!(entries_of(&history), vec![(Operation::Noop(), Vec::new())]);
    let mut one = vec![7];
    let mut history = History::new(&one);
    selection_sort::sort(&mut one, &mut history);
    assert_eq!(entries_of(&history), vec![(Operation::Noop(), vec![7])]);
    assert_eq!(one, vec![7]);
}

#[test]
fn insertion_steps_of_ten() {
    let mut nums = vec![3, 5, 2, 8, 6, 9, 0, 1, 4, 7];
    let mut history = History::new(&nums);
    insertion_sort::sort(&mut nums, &mut history);
    let expected = vec![
        Operation::Compare(0, 1),
        Operation::Compare(1, 2),
        Operation::Compare(0, 2),
        Operation::Insert(0),
        Operation::Compare(2, 3),
        Operation::Compare(3, 4),
        Operation::Compare(2, 4),
        Operation::Insert(3),
        Operation::Compare(4, 5),
        Operation::Compare(5, 6),
        Operation::Compare(4, 6),
        Operation::Compare(3, 6),
        Operation::Compare(2, 6),
        Operation::Compare(1, 6),
        Operation::Compare(0, 6),
        Operation::Insert(0),
        Operation::Compare(6, 7),
        Operation::Compare(5, 7),
        Operation::Compare(4, 7),
        Operation::Compare(3, 7),
        Operation::Compare(2, 7),
        Operation::Compare(1, 7),
        Operation::Compare(0, 7),
        Operation::Insert(1),
        Operation::Compare(7, 8),
        Operation::Compare(6, 8),
        Operation::Compare(5, 8),
        Operation::Compare(4, 8),
        Operation::Compare(3, 8),
        Operation::Insert(4),
        Operation::Compare(8, 9),
        Operation::Compare(7, 9),
        Operation::Compare(6, 9),
        Operation::Insert(7),
        Operation::Noop(),
    ];
    assert_eq!(steps_of(&history), expected);
    assert_eq!(nums, vec![0, 1, 2, 3, 4, 5, 6, 7, 8, 9]);
    let mut outside = StepsOnly { steps: Vec::new() };
    let mut again = vec![3, 5, 2, 8, 6, 9, 0, 1, 4, 7];
    insertion_sort::sort(&mut again, &mut outside);
    assert_eq!(outside.steps, expected);
}

#[test]
fn insertion_entries_of_five() {
    let mut nums = vec![4, 1, 3, 5, 2];
    let mut history = History::new(&nums);
    insertion_sort::sort(&mut nums, &mut history);
    let expected = vec![
        (Operation::Compare(0, 1), vec![4, 1, 3, 5, 2]),
        (Operation::Insert(0), vec![1, 4, 3, 5, 2]),
        (Operation::Compare(1, 2), vec![1, 4, 3, 5, 2]),
        (Operation::Compare(0, 2), vec![1, 4, 3, 5, 2]),
        (Operation::Insert(1), vec![1, 3, 4, 5, 2]),
        (Operation::Compare(2, 3), vec![1, 3, 4, 5, 2]),
        (Operation::Compare(3, 4), vec![1, 3, 4, 5, 2]),
        (Operation::Compare(2, 4), vec![1, 3, 4, 5, 2]),
        (Operation::Compare(1, 4), vec![1, 3, 4, 5, 2]),
        (Operation::Compare(0, 4), vec![1, 3, 4, 5, 2]),
        (Operation::Insert(1), vec![1, 2, 3, 4, 5]),
        (Operation::Noop(), vec![1, 2, 3, 4, 5]),
    ];
    assert_eq!(entries_of(&history), expected);
    assert_eq!(nums, vec![1, 2, 3, 4, 5]);
}

#[test]
fn insertion_entries_of_repeats() {
    let mut nums = vec![2, 1, 2, 1];
    let mut history = History::new(&nums);
    insertion_sort::sort(&mut nums, &mut history);
    let expected = vec![
        (Operation::Compare(0, 1), vec![2, 1, 2, 1]),
        (Operation::Insert(0), vec![1, 2, 2, 1]),
        (Operation::Compare(1, 2), vec![1, 2, 2, 1]),
        (Operation::Compare(2, 3), vec![1, 2, 2, 1]),
        (Operation::Compare(1, 3), vec![1, 2, 2, 1]),
        (Operation::Compare(0, 3), vec![1, 2, 2, 1]),
        (Operation::Insert(1), vec![1, 1, 2, 2]),
        (Operation::Noop(), vec![1, 1, 2, 2]),
    ];
    assert_eq!(entries_of(&history), expected);
    assert_eq!(nums, vec![1, 1, 2, 2]);
}

#[test]
fn insertion_of_nothing_and_of_one() {
    let mut nothing: Vec<i32> = Vec::new();
    let mut history = History::new(&nothing);
    insertion_sort::sort(&mut nothing, &mut history);
    assert_eq!(entries_of(&history), vec![(Operation::Noop(), Vec::new())]);
    let mut one = vec![7];
    let mut history = History::new(&one);
    insertion_sort::sort(&mut one, &mut history);
    assert_eq!(entries_of(&history), vec![(Operation::Noop(), vec![7])]);
    assert_eq!(one, vec![7]);
}

#[test]
fn merge_steps_of_ten() {
    let mut nums = vec![3, 5, 2, 8, 6, 9, 0, 1, 4, 7];
    let mut history = History::new(&nums);
    merge_sort::sort(&mut nums, &mut history);
    let expected = vec![
        Operation::Compare(0, 1),
        Operation::Compare(0, 2),
        Operation::Insert(0),
        Operation::Compare(3, 4),
        Operation::Insert(3),
        Operation::Compare(0, 3),
        Operation::Compare(1, 3),
        Operation::Compare(2, 3),
        Operation::Compare(5, 6),
        Operation::Insert(5),
        Operation::Compare(5, 7),
        Operation::Compare(6, 7),
        Operation::Insert(6),
        Operation::Compare(8, 9),
        Operation::Compare(5, 8),
        Operation::Compare(6, 8),
        Operation::Compare(7, 8),
        Operation::Insert(7),
        Operation::Compare(8, 9),
        Operation::Insert(8),
        Operation::Compare(0, 5),
        Operation::Insert(0),
        Operation::Compare(1, 6),
        Operation::Insert(1),
        Operation::Compare(2, 7),
        Operation::Compare(3, 7),
        Operation::Compare(4, 7),
        Operation::Insert(4),
        Operation::Compare(5, 8),
        Operation::Compare(6, 8),
        Operation::Compare(7, 8),
        Operation::Insert(7),
        Operation::Compare(8, 9),
        Operation::Noop(),
    ];
    assert_eq!(steps_of(&history), expected);
    assert_eq!(nums, vec![0, 1, 2, 3, 4, 5, 6, 7, 8, 9]);
    let mut outside = StepsOnly { steps: Vec::new() };
    let mut again = vec![3, 5, 2, 8, 6, 9, 0, 1, 4, 7];
    merge_sort::sort(&mut again, &mut outside);
    assert_eq!(outside.steps, expected);
}

#[test]
fn merge_entries_of_five() {
    let mut nums = vec![4, 1, 3, 5, 2];
    let mut history = History::new(&nums);
    merge_sort::sort(&mut nums, &mut history);
    let expected = vec![
        (Operation::Compare(0, 1), vec![4, 1, 3, 5, 2]),
        (Operation::Insert(0), vec![1, 4, 3, 5, 2]),
        (Operation::Compare(0, 2), vec![1, 4, 3, 5, 2]),
        (Operation::Compare(1, 2), vec![1, 4, 3, 5, 2]),
        (Operation::Insert(1), vec![1, 3, 4, 5, 2]),
        (Operation::Compare(3, 4), vec![1, 3, 4, 5, 2]),
        (Operation::Insert(3), vec![1, 3, 4, 2, 5]),
        (Operation::Compare(0, 3), vec![1, 3, 4, 2, 5]),
        (Operation::Compare(1, 3), vec![1, 3, 4, 2, 5]),
        (Operation::Insert(1), vec![1, 2, 3, 4, 5]),
        (Operation::Compare(2, 4), vec![1, 2, 3, 4, 5]),
        (Operation::Compare(3, 4), vec![1, 2, 3, 4, 5]),
        (Operation::Noop(), vec![1, 2, 3, 4, 5]),
    ];
    assert_eq!(entries_of(&history), expected);
    assert_eq!(nums, vec![1, 2, 3, 4, 5]);
}

#[test]
fn merge_entries_of_repeats() {
    let mut nums = vec![2, 1, 2, 1];
    let mut history = History::new(&nums);
    merge_sort::sort(&mut nums, &mut history);
    let expected = vec![
        (Operation::Compare(0, 1), vec![2, 1, 2, 1]),
        (Operation::Insert(0), vec![1, 2, 2, 1]),
        (Operation::Compare(2, 3), vec![1, 2, 2, 1]),
        (Operation::Insert(2), vec![1, 2, 1, 2]),
        (Operation::Compare(0, 2), vec![1, 2, 1, 2]),
        (Operation::Compare(1, 2), vec![1, 2, 1, 2]),
        (Operation::Insert(1), vec![1, 1, 2, 2]),
        (Operation::Compare(2, 3), vec![1, 1, 2, 2]),
        (Operation::Noop(), vec![1, 1, 2, 2]),
    ];
    assert_eq!(entries_of(&history), expected);
    assert_eq!(nums, vec![1, 1, 2, 2]);
}

#[test]
fn merge_of_nothing_and_of_one() {
    let mut nothing: Vec<i32> = Vec::new();
    let mut history = History::new(&nothing);
    merge_sort::sort(&mut nothing, &mut history);
    assert_eq!(entries_of(&history), vec![(Operation::Noop(), Vec::new())]);
    let mut one = vec![7];
    let mut history = History::new(&one);
    merge_sort::sort(&mut one, &mut history);
    assert_eq!(entries_of(&history), vec![(Operation::Noop(), vec![7])]);
    assert_eq!(one, vec![7]);
}

#[test]
fn shell_steps_of_ten() {
    let mut nums = vec![3, 5, 2, 8, 6, 9, 0, 1, 4, 7];
    let mut history = History::new(&nums);
    shell_sort::sort(&mut nums, &mut history);
    let expected = vec![
        Operation::Compare(0, 5),
        Operation::Compare(1, 6),
        Operation::Swap(1, 6),
        Operation::Compare(2, 7),
        Operation::Swap(2, 7),
        Operation::Compare(3, 8),
        Operation::Swap(3, 8),
        Operation::Compare(4, 9),
        Operation::Compare(0, 2),
        Operation::Swap(0, 2),
        Operation::Compare(1, 3),
        Operation::Compare(2, 4),
        Operation::Compare(3, 5),
        Operation::Compare(4, 6),
        Operation::Swap(4, 6),
        Operation::Compare(2, 4),
        Operation::Compare(5, 7),
        Operation::Swap(5, 7),
        Operation::Compare(3, 5),
        Operation::Swap(3, 5),
        Operation::Compare(1, 3),
        Operation::Compare(6, 8),
        Operation::Compare(7, 9),
        Operation::Swap(7, 9),
        Operation::Compare(5, 7),
        Operation::Compare(0, 1),
        Operation::Swap(0, 1),
        Operation::Compare(1, 2),
        Operation::Compare(2, 3),
        Operation::Swap(2, 3),
        Operation::Compare(1, 2),
        Operation::Compare(3, 4),
        Operation::Compare(4, 5),
        Operation::Swap(4, 5),
        Operation::Compare(3, 4),
        Operation::Compare(5, 6),
        Operation::Compare(6, 7),
        Operation::Compare(7, 8),
        Operation::Compare(8, 9),
        Operation::Noop(),
    ];
    assert_eq!(steps_of(&history), expected);
    assert_eq!(nums, vec![0, 1, 2, 3, 4, 5, 6, 7, 8, 9]);
    let mut outside = StepsOnly { steps: Vec::new() };
    let mut again = vec![3, 5, 2, 8, 6, 9, 0, 1, 4, 7];
    shell_sort::sort(&mut again, &mut outside);
    assert_eq!(outside.steps, expected);
}

#[test]
fn shell_entries_of_five() {
    let mut nums = vec![4, 1, 3, 5, 2];
    let mut history = History::new(&nums);
    shell_sort::sort(&mut nums, &mut history);
    let expected = vec![
        (Operation::Compare(0, 2), vec![4, 1, 3, 5, 2]),
        (Operation::Swap(0, 2), vec![3, 1, 4, 5, 2]),
        (Operation::Compare(1, 3), vec![3, 1, 4, 5, 2]),
        (Operation::Compare(2, 4), vec![3, 1, 4, 5, 2]),
        (Operation::Swap(2, 4), vec![3, 1, 2, 5, 4]),
        (Operation::Compare(0, 2), vec![3, 1, 2, 5, 4]),
        (Operation::Swap(0, 2), vec![2, 1, 3, 5, 4]),
        (Operation::Compare(0, 1), vec![2, 1, 3, 5, 4]),
        (Operation::Swap(0, 1), vec![1, 2, 3, 5, 4]),
        (Operation::Compare(1, 2), vec![1, 2, 3, 5, 4]),
        (Operation::Compare(2, 3), vec![1, 2, 3, 5, 4]),
        (Operation::Compare(3, 4), vec![1, 2, 3, 5, 4]),
        (Operation::Swap(3, 4), vec![1, 2, 3, 4, 5]),
        (Operation::Compare(2, 3), vec![1, 2, 3, 4, 5]),
        (Operation::Noop(), vec![1, 2, 3, 4, 5]),
    ];
    assert_eq!(entries_of(&history), expected);
    assert_eq!(nums, vec![1, 2, 3, 4, 5]);
}

#[test]
fn shell_entries_of_repeats() {
    let mut nums = vec![2, 1, 2, 1];
    let mut history = History::new(&nums);
    shell_sort::sort(&mut nums, &mut history);
    let expected = vec![
        (Operation::Compare(0, 2), vec![2, 1, 2, 1]),
        (Operation::Compare(1, 3), vec![2, 1, 2, 1]),
        (Operation::Compare(0, 1), vec![2, 1, 2, 1]),
        (Operation::Swap(0, 1), vec![1, 2, 2, 1]),
        (Operation::Compare(1, 2), vec![1, 2, 2, 1]),
        (Operation::Compare(2, 3), vec![1, 2, 2, 1]),
        (Operation::Swap(2, 3), vec![1, 2, 1, 2]),
        (Operation::Compare(1, 2), vec![1, 2, 1, 2]),
        (Operation::Swap(1, 2), vec![1, 1, 2, 2]),
        (Operation::Compare(0, 1), vec![1, 1, 2, 2]),
        (Operation::Noop(), vec![1, 1, 2, 2]),
    ];
    assert_eq!(entries_of(&history), expected);
    assert_eq!(nums, vec![1, 1, 2, 2]);
}

#[test]
fn shell_of_nothing_and_of_one() {
    let mut nothing: Vec<i32> = Vec::new();
    let mut history = History::new(&nothing);
    shell_sort::sort(&mut nothing, &mut history);
    assert_eq!(entries_of(&history), vec![(Operation::Noop(), Vec::new())]);
    let mut one = vec![7];
    let mut history = History::new(&one);
    shell_sort::sort(&mut one, &mut history);
    assert_eq!(entries_of(&history), vec![(Operation::Noop(), vec![7])]);
    assert_eq!(one, vec![7]);
}

#[test]
fn heap_steps_of_ten() {
    let mut nums = vec![3, 5, 2, 8, 6, 9, 0, 1, 4, 7];
    let mut history = History::new(&nums);
    heap_sort::sort(&mut nums, &mut history);
    let expected = vec![
        Operation::Compare(9, 4),
        Operation::Swap(4, 9),
        Operation::Compare(7, 3),
        Operation::Compare(8, 3),
        Operation::Compare(5, 2),
        Operation::Compare(6, 5),
        Operation::Swap(2, 5),
        Operation::Compare(3, 1),
        Operation::Compare(4, 3),
        Operation::Swap(1, 3),
        Operation::Compare(7, 3),
        Operation::Compare(8, 3),
        Operation::Compare(1, 0),
        Operation::Compare(2, 1),
        Operation::Swap(0, 2),
        Operation::Compare(5, 2),
        Operation::Compare(6, 2),
        Operation::Swap(0, 9),
        Operation::Compare(1, 0),
        Operation::Compare(2, 1),
        Operation::Swap(0, 1),
        Operation::Compare(3, 1),
        Operation::Compare(4, 1),
        Operation::Swap(1, 4),
        Operation::Swap(0, 8),
        Operation::Compare(1, 0),
        Operation::Compare(2, 1),
        Operation::Swap(0, 1),
        Operation::Compare(3, 1),
        Operation::Compare(4, 3),
        Operation::Swap(1, 4),
        Operation::Swap(0, 7),
        Operation::Compare(1, 0),
        Operation::Compare(2, 1),
        Operation::Swap(0, 1),
        Operation::Compare(3, 1),
        Operation::Compare(4, 3),
        Operation::Swap(1, 3),
        Operation::Swap(0, 6),
        Operation::Compare(1, 0),
        Operation::Compare(2, 1),
        Operation::Swap(0, 1),
        Operation::Compare(3, 1),
        Operation::Compare(4, 3),
        Operation::Swap(1, 4),
        Operation::Swap(0, 5),
        Operation::Compare(1, 0),
        Operation::Compare(2, 1),
        Operation::Swap(0, 1),
        Operation::Compare(3, 1),
        Operation::Compare(4, 1),
        Operation::Swap(0, 4),
        Operation::Compare(1, 0),
        Operation::Compare(2, 1),
        Operation::Swap(0, 2),
        Operation::Swap(0, 3),
        Operation::Compare(1, 0),
        Operation::Compare(2, 1),
        Operation::Swap(0, 1),
        Operation::Swap(0, 2),
        Operation::Compare(1, 0),
        Operation::Swap(0, 1),
        Operation::Swap(0, 1),
        Operation::Noop(),
    ];
    assert_eq!(steps_of(&history), expected);
    assert_eq!(nums, vec![0, 1, 2, 3, 4, 5, 6, 7, 8, 9]);
    let mut outside = StepsOnly { steps: Vec::new() };
    let mut again = vec![3, 5, 2, 8, 6, 9, 0, 1, 4, 7];
    heap_sort::sort(&mut again, &mut outside);
    assert_eq!(outside.steps, expected);
}

#[test]
fn heap_entries_of_five() {
    let mut nums = vec![4, 1, 3, 5, 2];
    let mut history = History::new(&nums);
    heap_sort::sort(&mut nums, &mut history);
    let expected = vec![
        (Operation::Compare(3, 1), vec![4, 1, 3, 5, 2]),
        (Operation::Compare(4, 3), vec![4, 1, 3, 5, 2]),
        (Operation::Swap(1, 3), vec![4, 5, 3, 1, 2]),
        (Operation::Compare(1, 0), vec![4, 5, 3, 1, 2]),
        (Operation::Compare(2, 1), vec![4, 5, 3, 1, 2]),
        (Operation::Swap(0, 1), vec![5, 4, 3, 1, 2]),
        (Operation::Compare(3, 1), vec![5, 4, 3, 1, 2]),
        (Operation::Compare(4, 1), vec![5, 4, 3, 1, 2]),
        (Operation::Swap(0, 4), vec![2, 4, 3, 1, 5]),
        (Operation::Compare(1, 0), vec![2, 4, 3, 1, 5]),
        (Operation::Compare(2, 1), vec![2, 4, 3, 1, 5]),
        (Operation::Swap(0, 1), vec![4, 2, 3, 1, 5]),
        (Operation::Compare(3, 1), vec![4, 2, 3, 1, 5]),
        (Operation::Swap(0, 3), vec![1, 2, 3, 4, 5]),
        (Operation::Compare(1, 0), vec![1, 2, 3, 4, 5]),
        (Operation::Compare(2, 1), vec![1, 2, 3, 4, 5]),
        (Operation::Swap(0, 2), vec![3, 2, 1, 4, 5]),
        (Operation::Swap(0, 2), vec![1, 2, 3, 4, 5]),
        (Operation::Compare(1, 0), vec![1, 2, 3, 4, 5]),
        (Operation::Swap(0, 1), vec![2, 1, 3, 4, 5]),
        (Operation::Swap(0, 1), vec![1, 2, 3, 4, 5]),
        (Operation::Noop(), vec![1, 2, 3, 4, 5]),
    ];
    assert_eq!(entries_of(&history), expected);
    assert_eq!(nums, vec![1, 2, 3, 4, 5]);
}

#[test]
fn heap_entries_of_repeats() {
    let mut nums = vec![2, 1, 2, 1];
    let mut history = History::new(&nums);
    heap_sort::sort(&mut nums, &mut history);
    let expected = vec![
        (Operation::Compare(3, 1), vec![2, 1, 2, 1]),
        (Operation::Compare(1, 0), vec![2, 1, 2, 1]),
        (Operation::Compare(2, 0), vec![2, 1, 2, 1]),
        (Operation::Swap(0, 3), vec![1, 1, 2, 2]),
        (Operation::Compare(1, 0), vec![1, 1, 2, 2]),
        (Operation::Compare(2, 0), vec![1, 1, 2, 2]),
        (Operation::Swap(0, 2), vec![2, 1, 1, 2]),
        (Operation::Swap(0, 2), vec![1, 1, 2, 2]),
        (Operation::Compare(1, 0), vec![1, 1, 2, 2]),
        (Operation::Swap(0, 1), vec![1, 1, 2, 2]),
        (Operation::Noop(), vec![1, 1, 2, 2]),
    ];
    assert_eq!(entries_of(&history), expected);
    assert_eq!(nums, vec![1, 1, 2, 2]);
}

#[test]
fn heap_of_nothing_and_of_one() {
    let mut nothing: Vec<i32> = Vec::new();
    let mut history = History::new(&nothing);
    heap_sort::sort(&mut nothing, &mut history);
    assert_eq!(entries_of(&history), vec![(Operation::Noop(), Vec::new())]);
    let mut one = vec![7];
    let mut history = History::new(&one);
    heap_sort::sort(&mut one, &mut history);
    assert_eq!(entries_of(&history), vec![(Operation::Noop(), vec![7])]);
    assert_eq!(one, vec![7]);
}

#[test]
fn quick_steps_of_ten() {
    let mut nums = vec![3, 5, 2, 8, 6, 9, 0, 1, 4, 7];
    let mut history = History::new(&nums);
    quick_sort::sort(&mut nums, &mut history);
    let expected = vec![
        Operation::Compare(0, 9),
        Operation::Compare(1, 9),
        Operation::Compare(2, 9),
        Operation::Compare(3, 9),
        Operation::Compare(4, 9),
        Operation::Swap(3, 4),
        Operation::Compare(5, 9),
        Operation::Compare(6, 9),
        Operation::Swap(4, 6),
        Operation::Compare(7, 9),
        Operation::Swap(5, 7),
        Operation::Compare(8, 9),
        Operation::Swap(6, 8),
        Operation::Swap(7, 9),
        Operation::Compare(0, 6),
        Operation::Compare(1, 6),
        Operation::Compare(2, 6),
        Operation::Swap(1, 2),
        Operation::Compare(3, 6),
        Operation::Compare(4, 6),
        Operation::Swap(2, 4),
        Operation::Compare(5, 6),
        Operation::Swap(3, 5),
        Operation::Swap(4, 6),
        Operation::Compare(0, 3),
        Operation::Compare(1, 3),
        Operation::Compare(2, 3),
        Operation::Swap(0, 2),
        Operation::Swap(1, 3),
        Operation::Compare(2, 3),
        Operation::Swap(2, 3),
        Operation::Compare(5, 6),
        Operation::Swap(5, 6),
        Operation::Compare(8, 9),
        Operation::Noop(),
    ];
    assert_eq!(steps_of(&history), expected);
    assert_eq!(nums, vec![0, 1, 2, 3, 4, 5, 6, 7, 8, 9]);
    let mut outside = StepsOnly { steps: Vec::new() };
    let mut again = vec![3, 5, 2, 8, 6, 9, 0, 1, 4, 7];
    quick_sort::sort(&mut again, &mut outside);
    assert_eq!(outside.steps, expected);
}

#[test]
fn quick_entries_of_five() {
    let mut nums = vec![4, 1, 3, 5, 2];
    let mut history = History::new(&nums);
    quick_sort::sort(&mut nums, &mut history);
    let expected = vec![
        (Operation::Compare(0, 4), vec![4, 1, 3, 5, 2]),
        (Operation::Compare(1, 4), vec![4, 1, 3, 5, 2]),
        (Operation::Swap(0, 1), vec![1, 4, 3, 5, 2]),
        (Operation::Compare(2, 4), vec![1, 4, 3, 5, 2]),
        (Operation::Compare(3, 4), vec![1, 4, 3, 5, 2]),
        (Operation::Swap(1, 4), vec![1, 2, 3, 5, 4]),
        (Operation::Compare(2, 4), vec![1, 2, 3, 5, 4]),
        (Operation::Compare(3, 4), vec![1, 2, 3, 5, 4]),
        (Operation::Swap(3, 4), vec![1, 2, 3, 4, 5]),
        (Operation::Noop(), vec![1, 2, 3, 4, 5]),
    ];
    assert_eq!(entries_of(&history), expected);
    assert_eq!(nums, vec![1, 2, 3, 4, 5]);
}

#[test]
fn quick_entries_of_repeats() {
    let mut nums = vec![2, 1, 2, 1];
    let mut history = History::new(&nums);
    quick_sort::sort(&mut nums, &mut history);
    let expected = vec![
        (Operation::Compare(0, 3), vec![2, 1, 2, 1]),
        (Operation::Compare(1, 3), vec![2, 1, 2, 1]),
        (Operation::Swap(0, 1), vec![1, 2, 2, 1]),
        (Operation::Compare(2, 3), vec![1, 2, 2, 1]),
        (Operation::Swap(1, 3), vec![1, 1, 2, 2]),
        (Operation::Compare(2, 3), vec![1, 1, 2, 2]),
        (Operation::Noop(), vec![1, 1, 2, 2]),
    ];
    assert_eq!(entries_of(&history), expected);
    assert_eq!(nums, vec![1, 1, 2, 2]);
}

#[test]
fn quick_of_nothing_and_of_one() {
    let mut nothing: Vec<i32> = Vec::new();
    let mut history = History::new(&nothing);
    quick_sort::sort(&mut nothing, &mut history);
    assert_eq!(entries_of(&history), vec![(Operation::Noop(), Vec::new())]);
    let mut one = vec![7];
    let mut history = History::new(&one);
    quick_sort::sort(&mut one, &mut history);
    assert_eq!(entries_of(&history), vec![(Operation::Noop(), vec![7])]);
    assert_eq!(one, vec![7]);
}

#[test]
fn comb_steps_of_ten() {
    let mut nums = vec![3, 5, 2, 8, 6, 9, 0, 1, 4, 7];
    let mut history = History::new(&nums);
    comb_sort::sort(&mut nums, &mut history);
    let expected = vec![
        Operation::Compare(0, 7),
        Operation::Swap(0, 7),
        Operation::Compare(1, 8),
        Operation::Swap(1, 8),
        Operation::Compare(2, 9),
        Operation::Compare(0, 5),
        Operation::Compare(1, 6),
        Operation::Swap(1, 6),
        Operation::Compare(2, 7),
        Operation::Compare(3, 8),
        Operation::Swap(3, 8),
        Operation::Compare(4, 9),
        Operation::Compare(0, 3),
        Operation::Compare(1, 4),
        Operation::Compare(2, 5),
        Operation::Compare(3, 6),
        Operation::Swap(3, 6),
        Operation::Compare(4, 7),
        Operation::Swap(4, 7),
        Operation::Compare(5, 8),
        Operation::Swap(5, 8),
        Operation::Compare(6, 9),
        Operation::Compare(0, 2),
        Operation::Compare(1, 3),
        Operation::Compare(2, 4),
        Operation::Compare(3, 5),
        Operation::Compare(4, 6),
        Operation::Compare(5, 7),
        Operation::Swap(5, 7),
        Operation::Compare(6, 8),
        Operation::Compare(7, 9),
        Operation::Swap(7, 9),
        Operation::Compare(0, 1),
        Operation::Swap(0, 1),
        Operation::Compare(1, 2),
        Operation::Compare(2, 3),
        Operation::Compare(3, 4),
        Operation::Swap(3, 4),
        Operation::Compare(4, 5),
        Operation::Compare(5, 6),
        Operation::Swap(5, 6),
        Operation::Compare(6, 7),
        Operation::Compare(7, 8),
        Operation::Compare(8, 9),
        Operation::Swap(8, 9),
        Operation::Compare(0, 1),
        Operation::Compare(1, 2),
        Operation::Compare(2, 3),
        Operation::Compare(3, 4),
        Operation::Compare(4, 5),
        Operation::Compare(5, 6),
        Operation::Compare(6, 7),
        Operation::Compare(7, 8),
        Operation::Compare(8, 9),
        Operation::Noop(),
    ];
    assert_eq!(steps_of(&history), expected);
    assert_eq!(nums, vec![0, 1, 2, 3, 4, 5, 6, 7, 8, 9]);
    let mut outside = StepsOnly { steps: Vec::new() };
    let mut again = vec![3, 5, 2, 8, 6, 9, 0, 1, 4, 7];
    comb_sort::sort(&mut again, &mut outside);
    assert_eq!(outside.steps, expected);
}

#[test]
fn comb_entries_of_five() {
    let mut nums = vec![4, 1, 3, 5, 2];
    let mut history = History::new(&nums);
    comb_sort::sort(&mut nums, &mut history);
    let expected = vec![
        (Operation::Compare(0, 3), vec![4, 1, 3, 5, 2]),
        (Operation::Compare(1, 4), vec![4, 1, 3, 5, 2]),
        (Operation::Compare(0, 2), vec![4, 1, 3, 5, 2]),
        (Operation::Swap(0, 2), vec![3, 1, 4, 5, 2]),
        (Operation::Compare(1, 3), vec![3, 1, 4, 5, 2]),
        (Operation::Compare(2, 4), vec![3, 1, 4, 5, 2]),
        (Operation::Swap(2, 4), vec![3, 1, 2, 5, 4]),
        (Operation::Compare(0, 1), vec![3, 1, 2, 5, 4]),
        (Operation::Swap(0, 1), vec![1, 3, 2, 5, 4]),
        (Operation::Compare(1, 2), vec![1, 3, 2, 5, 4]),
        (Operation::Swap(1, 2), vec![1, 2, 3, 5, 4]),
        (Operation::Compare(2, 3), vec![1, 2, 3, 5, 4]),
        (Operation::Compare(3, 4), vec![1, 2, 3, 5, 4]),
        (Operation::Swap(3, 4), vec![1, 2, 3, 4, 5]),
        (Operation::Compare(0, 1), vec![1, 2, 3, 4, 5]),
        (Operation::Compare(1, 2), vec![1, 2, 3, 4, 5]),
        (Operation::Compare(2, 3), vec![1, 2, 3, 4, 5]),
        (Operation::Compare(3, 4), vec![1, 2, 3, 4, 5]),
        (Operation::Noop(), vec![1, 2, 3, 4, 5]),
    ];
    assert_eq!(entries_of(&history), expected);
    assert_eq!(nums, vec![1, 2, 3, 4, 5]);
}

#[test]
fn comb_entries_of_repeats() {
    let mut nums = vec![2, 1, 2, 1];
    let mut history = History::new(&nums);
    comb_sort::sort(&mut nums, &mut history);
    let expected = vec![
        (Operation::Compare(0, 3), vec![2, 1, 2, 1]),
        (Operation::Swap(0, 3), vec![1, 1, 2, 2]),
        (Operation::Compare(0, 2), vec![1, 1, 2, 2]),
        (Operation::Compare(1, 3), vec![1, 1, 2, 2]),
        (Operation::Compare(0, 1), vec![1, 1, 2, 2]),
        (Operation::Compare(1, 2), vec![1, 1, 2, 2]),
        (Operation::Compare(2, 3), vec![1, 1, 2, 2]),
        (Operation::Noop(), vec![1, 1, 2, 2]),
    ];
    assert_eq!(entries_of(&history), expected);
    assert_eq!(nums, vec![1, 1, 2, 2]);
}

#[test]
fn comb_of_nothing_and_of_one() {
    let mut nothing: Vec<i32> = Vec::new();
    let mut history = History::new(&nothing);
    comb_sort::sort(&mut nothing, &mut history);
    assert_eq!(entries_of(&history), vec![(Operation::Noop(), Vec::new())]);
    let mut one = vec![7];
    let mut history = History::new(&one);
    comb_sort::sort(&mut one, &mut history);
    assert_eq!(entries_of(&history), vec![(Operation::Noop(), vec![7])]);
    assert_eq!(one, vec![7]);
}
