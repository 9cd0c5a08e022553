//! The menu: a list of items of which at most one is selected, and the
//! choices that the keys make in the menu and in front of a visualization.

use vstd::prelude::*;

verus! {

/// A list of items with its selection.
pub struct List<T> {
    /// The items, in the order in which they are shown.
    pub items: Vec<T>,
    /// The place of the selected item, if one is selected.
    pub selected: Option<usize>,
    /// The place of the first item that is shown.
    pub offset: usize,
    /// The place that was selected when the selection was last given up.
    pub last_selected: Option<usize>,
}

/// The place selected after `selected` in a list of `len` items; behind the
/// last item comes the first. Without a selection, the one last given up
/// comes back, or the first item.
pub open spec fn following(selected: Option<usize>, last_selected: Option<usize>, len: nat) -> int {
    match selected {
        Some(i) => if i >= len - 1 {
            0
        } else {
            i + 1
        },
        None => match last_selected {
            Some(i) => i as int,
            None => 0,
        },
    }
}

/// The place selected before `selected` in a list of `len` items; before
/// the first item comes the last. Without a selection, the one last given
/// up comes back, or the first item.
pub open spec fn preceding(selected: Option<usize>, last_selected: Option<usize>, len: nat) -> int {
    match selected {
        Some(i) => if i == 0 {
            len - 1
        } else {
            i - 1
        },
        None => match last_selected {
            Some(i) => i as int,
            None => 0,
        },
    }
}

impl<T> List<T> {
    /// A list of `items` without a selection.
    pub fn new(items: Vec<T>) -> (list: List<T>)
        ensures
            list.items == items,
            list.selected == None::<usize>,
            list.offset == 0,
            list.last_selected == None::<usize>,
    {
        List { items, selected: None, offset: 0, last_selected: None }
    }

    /// Selects the item after the selected one.
    pub fn next(&mut self)
        requires
            old(self).items@.len() > 0,
        ensures
            final(self).selected == Some(
                following(
                    old(self).selected,
                    old(self).last_selected,
                    old(self).items@.len(),
                ) as usize,
            ),
            final(self).items == old(self).items,
            final(self).offset == old(self).offset,
            final(self).last_selected == old(self).last_selected,
    {
        let i: usize = match self.selected {
            Some(i) => {
                if i >= self.items.len() - 1 {
                    0
                } else {
                    i + 1
                }
            },
            None => match self.last_selected {
                Some(i) => i,
                None => 0,
            },
        };
        self.selected = Some(i);
    }

    /// Selects the item before the selected one.
    pub fn previous(&mut self)
        requires
            old(self).items@.len() > 0,
        ensures
            final(self).selected == Some(
                preceding(
                    old(self).selected,
                    old(self).last_selected,
                    old(self).items@.len(),
                ) as usize,
            ),
            final(self).items == old(self).items,
            final(self).offset == old(self).offset,
            final(self).last_selected == old(self).last_selected,
    {
        let i: usize = match self.selected {
            Some(i) => {
                if i == 0 {
                    self.items.len() - 1
                } else {
                    i - 1
                }
            },
            None => match self.last_selected {
                Some(i) => i,
                None => 0,
            },
        };
        self.selected = Some(i);
    }

    /// Gives the selection up and remembers it; the list stays where it was
    /// scrolled to.
    pub fn unselect(&mut self)
        ensures
            final(self).selected == None::<usize>,
            final(self).last_selected == old(self).selected,
            final(self).items == old(self).items,
            final(self).offset == old(self).offset,
    {
        self.last_selected = self.selected;
        self.selected = None;
    }
}

/// Going on from a selection within the list stays within the list, and
/// going on and back again, away from the ends, returns to the selection.
pub proof fn lemma_selection_stays(selected: usize, last_selected: Option<usize>, len: usize)
    requires
        selected < len,
    ensures
        0 <= following(Some(selected), last_selected, len as nat) < len,
        0 <= preceding(Some(selected), last_selected, len as nat) < len,
        preceding(
            Some(following(Some(selected), last_selected, len as nat) as usize),
            last_selected,
            len as nat,
        ) == selected,
        following(
            Some(preceding(Some(selected), last_selected, len as nat) as usize),
            last_selected,
            len as nat,
        ) == selected,
{
}

/// A key, as far as the program tells keys apart.
#[derive(Debug, Clone, Copy, PartialEq, Eq, Structural)]
pub enum Key {
    Char(char),
    Left,
    Right,
    Up,
    Down,
    Enter,
    Esc,
    Other,
}

/// What a pressed key asks for.
#[derive(Debug, Clone, Copy, PartialEq, Eq, Structural)]
pub enum Command {
    /// Leave the program.
    Quit,
    /// Give the selection up.
    Unselect,
    /// Select the next item.
    Next,
    /// Select the item before.
    Previous,
    /// Show the algorithm at the place.
    Open(usize),
    /// Go back to the menu.
    Close,
    /// Move the cursor to the next entry.
    StepNext,
    /// Move the cursor to the entry before.
    StepPrev,
    /// Switch automatic playback on or off.
    ToggleAuto,
    /// Nothing.
    Nothing,
}

/// What a key asks for in the menu, where `selected` is the selection.
pub open spec fn menu_choice(key: Key, control: bool, selected: Option<usize>) -> Command {
    if key == Key::Char('c') && control {
        Command::Quit
    } else if key == Key::Left || key == Key::Char('h') {
        Command::Unselect
    } else if key == Key::Down || key == Key::Char('j') {
        Command::Next
    } else if key == Key::Up || key == Key::Char('k') {
        Command::Previous
    } else if key == Key::Enter && selected is Some {
        Command::Open(selected->Some_0)
    } else {
        Command::Nothing
    }
}

/// What a key asks for in front of a visualization; the cursor goes back
/// only while automatic playback is off.
pub open spec fn view_choice(key: Key, control: bool, auto_next: bool) -> Command {
    if key == Key::Char('c') && control {
        Command::Quit
    } else if key == Key::Esc {
        Command::Close
    } else if key == Key::Right {
        Command::StepNext
    } else if key == Key::Left && !auto_next {
        Command::StepPrev
    } else if key == Key::Char(' ') {
        Command::ToggleAuto
    } else {
        Command::Nothing
    }
}

/// Tells what the pressed key asks for in the menu.
pub fn menu_command(key: Key, control: bool, selected: Option<usize>) -> (command: Command)
    ensures
        command == menu_choice(key, control, selected),
{
    match key {
        Key::Char('c') if control => Command::Quit,
        Key::Left | Key::Char('h') => Command::Unselect,
        Key::Down | Key::Char('j') => Command::Next,
        Key::Up | Key::Char('k') => Command::Previous,
        Key::Enter => match selected {
            Some(i) => Command::Open(i),
            None => Command::Nothing,
        },
        _ => Command::Nothing,
    }
}

/// Tells what the pressed key asks for in front of a visualization.
pub fn view_command(key: Key, control: bool, auto_next: bool) -> (command: Command)
    ensures
        command == view_choice(key, control, auto_next),
{
    match key {
        Key::Char('c') if control => Command::Quit,
        Key::Esc => Command::Close,
        Key::Right => Command::StepNext,
        Key::Left => {
            if !auto_next {
                Command::StepPrev
            } else {
                Command::Nothing
            }
        },
        Key::Char(' ') => Command::ToggleAuto,
        _ => Command::Nothing,
    }
}

} // verus!
