//! The state of one visualization: the sequence it began with, the history
//! of steps published so far, the cursor of the viewer into that history,
//! and the settings of automatic playback.

use vstd::prelude::*;
use crate::sequence::{permutes, sorted};
use crate::sorting::{lemma_run_sorts, Algorithm, AlgorithmContext, Operation, Step};
use crate::{counting, init_vec, shuffle};

verus! {

/// What a status holds, as plain values.
pub struct StatusView {
    /// The name of the algorithm on show.
    pub label: Seq<char>,
    /// The sequence as it was before the first step.
    pub initial: Seq<i32>,
    /// Every entry published so far, oldest first.
    pub history: Seq<Step>,
    /// The place in `history` that the viewer looks at.
    pub cursor: int,
    /// Whether the cursor moves on by itself.
    pub auto_next: bool,
    /// The time between two automatic moves, in milliseconds.
    pub tick_rate: int,
    /// The time of the last automatic move, in milliseconds.
    pub last_tick: int,
}

impl StatusView {
    /// The history begins with the sequence as it was, and the cursor
    /// points into the history.
    pub open spec fn consistent(self) -> bool {
        &&& self.history.len() > 0
        &&& self.history[0] == (Operation::Noop(), self.initial)
        &&& 0 <= self.cursor < self.history.len()
    }

    /// The next automatic move is due at the time `now`.
    pub open spec fn due(self, now: int) -> bool {
        self.auto_next && self.last_tick + self.tick_rate < now
    }

    /// The cursor one entry later, unless it is at the last entry.
    pub open spec fn advanced(self) -> StatusView {
        if self.cursor + 1 < self.history.len() {
            StatusView { cursor: self.cursor + 1, ..self }
        } else {
            self
        }
    }

    /// The cursor one entry earlier, unless it is at the first entry.
    pub open spec fn retreated(self) -> StatusView {
        if self.cursor > 0 {
            StatusView { cursor: self.cursor - 1, ..self }
        } else {
            self
        }
    }

    /// The viewer has seen everything: the cursor is at the last entry.
    /// Where the algorithm is to go in step with the viewer, it takes its
    /// next step only then.
    pub open spec fn caught_up(self) -> bool {
        self.cursor + 1 == self.history.len()
    }

    /// The status after a frame drawn at the time `now`: where a move is
    /// due, the cursor advances once and `now` becomes the time of the last
    /// move.
    pub open spec fn ticked(self, now: int) -> StatusView {
        if self.due(now) {
            StatusView { last_tick: now, ..self.advanced() }
        } else {
            self
        }
    }
}

/// The entries of a history as plain values.
pub open spec fn entries(operations: Seq<(Operation, Vec<i32>)>) -> Seq<Step> {
    operations.map_values(|entry: (Operation, Vec<i32>)| (entry.0, entry.1@))
}

/// The log of a run: entries are appended and never changed or removed.
pub struct History {
    operations: Vec<(Operation, Vec<i32>)>,
}

impl View for History {
    type V = Seq<Step>;

    closed spec fn view(&self) -> Seq<Step> {
        entries(self.operations@)
    }
}

impl History {
    /// A history whose only entry shows `nums` before the first step.
    pub fn new(nums: &Vec<i32>) -> (history: Self)
        ensures
            history@ == seq![(Operation::Noop(), nums@)],
    {
        let mut operations: Vec<(Operation, Vec<i32>)> = Vec::new();
        operations.push((Operation::Noop(), nums.clone()));
        assert(entries(operations@) =~= seq![(Operation::Noop(), nums@)]);
        History { operations }
    }

    /// Returns the number of entries.
    pub fn len(&self) -> (len: usize)
        ensures
            len == self@.len(),
    {
        self.operations.len()
    }

    /// Returns the entries, oldest first.
    pub fn operations(&self) -> (operations: &Vec<(Operation, Vec<i32>)>)
        ensures
            entries(operations@) == self@,
    {
        &self.operations
    }
}

impl AlgorithmContext for History {
    open spec fn recorded(&self) -> Seq<Step> {
        self@
    }

    fn next(&mut self, operation: Operation, nums: Vec<i32>) {
        let ghost before = self.operations@;
        let ghost entry = (operation, nums@);
        self.operations.push((operation, nums));
        assert(entries(self.operations@) =~= entries(before).push(entry));
    }
}

/// Whatever the viewer does and whatever is published, a consistent status
/// stays consistent.
pub proof fn lemma_consistent_kept(status: StatusView, now: int, step: Step)
    requires
        status.consistent(),
    ensures
        status.advanced().consistent(),
        status.retreated().consistent(),
        status.ticked(now).consistent(),
        (StatusView { auto_next: !status.auto_next, ..status }).consistent(),
        (StatusView { history: status.history.push(step), ..status }).consistent(),
{
}

/// The cursor stays where it is when it is asked to go before the first
/// entry or beyond the last.
pub proof fn lemma_cursor_clamps(status: StatusView)
    requires
        status.consistent(),
    ensures
        status.cursor == 0 ==> status.retreated() == status,
        status.cursor == status.history.len() - 1 ==> status.advanced() == status,
        status.cursor > 0 ==> status.retreated().cursor == status.cursor - 1,
        status.cursor < status.history.len() - 1 ==> status.advanced().cursor == status.cursor
            + 1,
{
}

/// A frame moves the cursor by one entry at most, however long ago the
/// last move was; and right after a move, nothing is due before the tick
/// rate has passed again.
pub proof fn lemma_tick_moves_once(status: StatusView, now: int, later: int)
    requires
        status.consistent(),
        0 <= status.tick_rate,
    ensures
        status.cursor <= status.ticked(now).cursor <= status.cursor + 1,
        status.due(now) && later <= now + status.tick_rate ==> status.ticked(now).ticked(later)
            == status.ticked(now),
{
}

/// An algorithm that goes in step with the viewer is never more than one
/// entry ahead: what it publishes while the viewer has caught up is seen
/// after one move of the cursor.
pub proof fn lemma_in_step(status: StatusView, step: Step)
    requires
        status.consistent(),
        status.caught_up(),
    ensures
        ({
            let published = StatusView { history: status.history.push(step), ..status };
            &&& !published.caught_up()
            &&& published.history.len() - 1 - published.cursor == 1
            &&& published.advanced().caught_up()
        }),
{
}

/// The history of a visualization whose algorithm has finished begins with
/// the sequence as it was and ends with the same sequence sorted, both in
/// entries in which nothing happens; and every entry shows a rearrangement
/// of the sequence as it was.
pub proof fn lemma_finished_history(algorithm: Algorithm, nums: Seq<i32>)
    ensures
        ({
            let history = seq![(Operation::Noop(), nums)] + algorithm.run(nums).steps;
            &&& history[0] == (Operation::Noop(), nums)
            &&& history.last() == (Operation::Noop(), algorithm.run(nums).nums)
            &&& sorted(history.last().1)
            &&& permutes(history.last().1, nums)
            &&& forall|k: int| 0 <= k < history.len() ==> permutes((#[trigger] history[k]).1, nums)
        }),
{
    lemma_run_sorts(algorithm, nums);
    let steps = algorithm.run(nums).steps;
    let history = seq![(Operation::Noop(), nums)] + steps;
    assert forall|k: int| 0 <= k < history.len() implies permutes(
        (#[trigger] history[k]).1,
        nums,
    ) by {
        if k > 0 {
            assert(history[k] == steps[k - 1]);
        }
    }
}

/// The state of one visualization.
pub struct AlgorithmStatus {
    nums: Vec<i32>,
    history: History,
    name: String,
    index: usize,
    auto_next: bool,
    tick_rate: u64,
    last_tick: u64,
}

impl View for AlgorithmStatus {
    type V = StatusView;

    closed spec fn view(&self) -> StatusView {
        StatusView {
            label: self.name@,
            initial: self.nums@,
            history: self.history@,
            cursor: self.index as int,
            auto_next: self.auto_next,
            tick_rate: self.tick_rate as int,
            last_tick: self.last_tick as int,
        }
    }
}

impl AlgorithmStatus {
    /// A status for the algorithm called `name` on the numbers from one to
    /// `size` in an order left to chance, with automatic playback switched
    /// on and a move due every `tick_rate` milliseconds.
    pub fn new(name: String, size: usize, tick_rate: u64) -> (status: Self)
        ensures
            permutes(status@.initial, counting(size as nat)),
            status@ == (StatusView {
                label: name@,
                initial: status@.initial,
                history: seq![(Operation::Noop(), status@.initial)],
                cursor: 0,
                auto_next: true,
                tick_rate: tick_rate as int,
                last_tick: 0,
            }),
            status@.consistent(),
    {
        let mut v = init_vec(size);
        shuffle(&mut v);
        Self::with_nums(name, v, tick_rate)
    }

    /// A status for the algorithm called `name` on the sequence `nums`,
    /// with automatic playback switched on and a move due every `tick_rate`
    /// milliseconds.
    pub fn with_nums(name: String, nums: Vec<i32>, tick_rate: u64) -> (status: Self)
        ensures
            status@ == (StatusView {
                label: name@,
                initial: nums@,
                history: seq![(Operation::Noop(), nums@)],
                cursor: 0,
                auto_next: true,
                tick_rate: tick_rate as int,
                last_tick: 0,
            }),
            status@.consistent(),
    {
        let history = History::new(&nums);
        AlgorithmStatus {
            nums,
            history,
            name,
            index: 0,
            auto_next: true,
            tick_rate,
            last_tick: 0,
        }
    }

    /// Moves the cursor to the next entry; at the last entry it stays.
    pub fn step_next(&mut self)
        ensures
            final(self)@ == old(self)@.advanced(),
    {
        let operations_len = self.history.len();
        if operations_len == 0 {
            return ;
        }
        if self.index < operations_len - 1 {
            self.index = self.index + 1;
        }
    }

    /// Moves the cursor to the entry before; at the first entry it stays.
    pub fn step_prev(&mut self)
        ensures
            final(self)@ == old(self)@.retreated(),
    {
        if self.index > 0 {
            self.index = self.index - 1;
        }
    }

    /// Returns the place of the cursor and the step of the entry there.
    pub fn step_info(&self) -> (info: (usize, Operation))
        requires
            self@.consistent(),
        ensures
            info.0 == self@.cursor,
            info.1 == self@.history[self@.cursor].0,
    {
        (self.index, self.history.operations()[self.index].0)
    }

    /// Returns the sequence as the entry under the cursor shows it.
    pub fn snapshot(&self) -> (nums: &Vec<i32>)
        requires
            self@.consistent(),
        ensures
            nums@ == self@.history[self@.cursor].1,
    {
        &self.history.operations()[self.index].1
    }

    /// Returns the place of the cursor.
    pub fn cursor(&self) -> (cursor: usize)
        ensures
            cursor == self@.cursor,
    {
        self.index
    }

    /// Tells whether the cursor is at the last entry.
    pub fn caught_up(&self) -> (seen: bool)
        requires
            self@.consistent(),
        ensures
            seen == self@.caught_up(),
    {
        self.index == self.history.len() - 1
    }

    /// Returns the number of entries published so far.
    pub fn history_len(&self) -> (len: usize)
        ensures
            len == self@.history.len(),
    {
        self.history.len()
    }

    /// Returns every entry published so far, oldest first.
    pub fn operations(&self) -> (operations: &Vec<(Operation, Vec<i32>)>)
        ensures
            entries(operations@) == self@.history,
    {
        self.history.operations()
    }

    /// Returns the sequence as it was before the first step.
    pub fn nums(&self) -> (nums: &Vec<i32>)
        ensures
            nums@ == self@.initial,
    {
        &self.nums
    }

    /// Returns the name of the algorithm on show.
    pub fn name(&self) -> (name: &String)
        ensures
            name@ == self@.label,
    {
        &self.name
    }

    /// Tells whether the cursor moves on by itself.
    pub fn auto_next(&self) -> (on: bool)
        ensures
            on == self@.auto_next,
    {
        self.auto_next
    }

    /// Switches automatic playback on if it is off, and off if it is on.
    pub fn toggle_auto_next(&mut self)
        ensures
            final(self)@ == (StatusView { auto_next: !old(self)@.auto_next, ..old(self)@ }),
    {
        self.auto_next = !self.auto_next;
    }

    /// Accounts for a frame drawn at the time `now`, in milliseconds: where
    /// automatic playback is on and more than the tick rate has passed since
    /// the last automatic move, the cursor advances by one entry, or stays
    /// at the last, and `now` becomes the time of the last move.
    pub fn tick(&mut self, now: u64)
        ensures
            final(self)@ == old(self)@.ticked(now as int),
    {
        if self.auto_next {
            let due = match self.last_tick.checked_add(self.tick_rate) {
                Some(at) => at < now,
                None => false,
            };
            if due {
                self.last_tick = now;
                self.step_next();
            }
        }
    }

    /// Runs `algorithm` on a copy of the initial sequence and records every
    /// step it publishes. The viewer's cursor and settings stay as they are.
    pub fn run(&mut self, algorithm: Algorithm)
        ensures
            final(self)@ == (StatusView {
                history: old(self)@.history + algorithm.run(old(self)@.initial).steps,
                ..old(self)@
            }),
            final(self)@.history.last().0 == Operation::Noop(),
            sorted(final(self)@.history.last().1),
            permutes(final(self)@.history.last().1, old(self)@.initial),
    {
        let mut nums = self.nums.clone();
        algorithm.sort(nums.as_mut_slice(), &mut self.history);
    }
}

impl AlgorithmContext for AlgorithmStatus {
    open spec fn recorded(&self) -> Seq<Step> {
        self@.history
    }

    /// Appends the entry to the history. The cursor and the settings of the
    /// viewer stay as they are.
    fn next(&mut self, operation: Operation, nums: Vec<i32>)
        ensures
            final(self)@ == (StatusView {
                history: old(self)@.history.push((operation, nums@)),
                ..old(self)@
            }),
    {
        self.history.next(operation, nums);
    }
}

} // verus!
