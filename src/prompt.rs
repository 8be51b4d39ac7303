//! The state of the interactive task list: which row is selected, and the
//! one-line prompt that adds, modifies or completes tasks.
use vstd::prelude::*;

verus! {

/// What the prompt line is being used for.
#[derive(Clone, Copy, Debug, PartialEq, Eq, Structural)]
pub enum InputMode {
    Normal,
    Adding,
    Modifying,
    MeetingHoursPrompt,
    CompleteWithEffort,
}

/// The row selected after moving down a list of `len` rows: the next one,
/// wrapping to the first; the first when none was selected; unchanged in an
/// empty list.
pub open spec fn next_row(selected: Option<usize>, len: usize) -> Option<usize> {
    if len == 0 {
        selected
    } else {
        match selected {
            Some(i) => if i >= len - 1 {
                Some(0usize)
            } else {
                Some((i + 1) as usize)
            },
            None => Some(0usize),
        }
    }
}

/// The row selected after moving up a list of `len` rows: the previous one,
/// wrapping to the last; the first when none was selected; unchanged in an
/// empty list.
pub open spec fn previous_row(selected: Option<usize>, len: usize) -> Option<usize> {
    if len == 0 {
        selected
    } else {
        match selected {
            Some(i) => if i == 0 {
                Some((len - 1) as usize)
            } else {
                Some((i - 1) as usize)
            },
            None => Some(0usize),
        }
    }
}

/// Moves the selection of a list of `len` rows down one row.
pub fn select_next(selected: Option<usize>, len: usize) -> (r: Option<usize>)
    ensures
        r == next_row(selected, len),
{
    if len == 0 {
        return selected;
    }
    match selected {
        Some(i) => if i >= len - 1 {
            Some(0)
        } else {
            Some(i + 1)
        },
        None => Some(0),
    }
}

/// Moves the selection of a list of `len` rows up one row.
pub fn select_previous(selected: Option<usize>, len: usize) -> (r: Option<usize>)
    ensures
        r == previous_row(selected, len),
{
    if len == 0 {
        return selected;
    }
    match selected {
        Some(i) => if i == 0 {
            Some(len - 1)
        } else {
            Some(i - 1)
        },
        None => Some(0),
    }
}

/// The prompt line: its characters, the cursor (a character position) and
/// its mode.
#[derive(Clone, Debug, PartialEq)]
pub struct Prompt {
    pub input: Vec<char>,
    pub cursor_position: usize,
    pub input_mode: InputMode,
}

impl Prompt {
    /// The cursor stands within or just after the text.
    pub open spec fn wf(self) -> bool {
        self.cursor_position <= self.input@.len()
    }

    /// An empty prompt in the given mode.
    pub fn new(input_mode: InputMode) -> (r: Prompt)
        ensures
            r.wf(),
            r.input@.len() == 0,
            r.cursor_position == 0,
            r.input_mode == input_mode,
    {
        Prompt { input: Vec::new(), cursor_position: 0, input_mode }
    }

    /// Starts adding a task: an empty line.
    pub fn enter_add_mode(&mut self)
        ensures
            final(self).wf(),
            final(self).input_mode == InputMode::Adding,
            final(self).input@.len() == 0,
            final(self).cursor_position == 0,
    {
        self.input_mode = InputMode::Adding;
        self.input = Vec::new();
        self.cursor_position = 0;
    }

    /// Starts modifying the selected task, if a row is selected: an empty line.
    pub fn enter_modify_mode(&mut self, has_selection: bool)
        requires
            old(self).wf(),
        ensures
            final(self).wf(),
            has_selection ==> final(self).input_mode == InputMode::Modifying && final(self).input@.len() == 0
                && final(self).cursor_position == 0,
            !has_selection ==> *final(self) == *old(self),
    {
        if has_selection {
            self.input_mode = InputMode::Modifying;
            self.input = Vec::new();
            self.cursor_position = 0;
        }
    }

    /// Starts completing a task, with the line holding `text` and the
    /// cursor after it.
    pub fn enter_complete_mode(&mut self, text: Vec<char>)
        ensures
            final(self).wf(),
            final(self).input_mode == InputMode::CompleteWithEffort,
            final(self).input@ == text@,
            final(self).cursor_position == text@.len(),
    {
        self.input_mode = InputMode::CompleteWithEffort;
        self.cursor_position = text.len();
        self.input = text;
    }

    /// Leaves the prompt; the text stays.
    pub fn exit_input_mode(&mut self)
        ensures
            final(self).input_mode == InputMode::Normal,
            final(self).input == old(self).input,
            final(self).cursor_position == old(self).cursor_position,
    {
        self.input_mode = InputMode::Normal;
    }

    /// Types `c` at the cursor and moves the cursor past it.
    pub fn input_char(&mut self, c: char)
        requires
            old(self).wf(),
        ensures
            final(self).wf(),
            final(self).input@ == old(self).input@.insert(old(self).cursor_position as int, c),
            final(self).cursor_position == old(self).cursor_position + 1,
            final(self).input_mode == old(self).input_mode,
    {
        let at = self.cursor_position;
        self.input.insert(at, c);
        let n = self.input.len();
        assert(at < n);
        self.cursor_position = at + 1;
    }

    /// Deletes the character before the cursor, if any.
    pub fn delete_char(&mut self)
        requires
            old(self).wf(),
        ensures
            final(self).wf(),
            old(self).cursor_position > 0 ==> final(self).input@ == old(self).input@.remove(
                old(self).cursor_position - 1,
            ) && final(self).cursor_position == old(self).cursor_position - 1,
            old(self).cursor_position == 0 ==> *final(self) == *old(self),
            final(self).input_mode == old(self).input_mode,
    {
        if self.cursor_position > 0 {
            let at = self.cursor_position - 1;
            self.input.remove(at);
            self.cursor_position = at;
        }
    }

    /// Moves the cursor one character left, if it can.
    pub fn move_cursor_left(&mut self)
        requires
            old(self).wf(),
        ensures
            final(self).wf(),
            final(self).input == old(self).input,
            final(self).input_mode == old(self).input_mode,
            final(self).cursor_position == if old(self).cursor_position > 0 {
                old(self).cursor_position - 1
            } else {
                0
            },
    {
        if self.cursor_position > 0 {
            self.cursor_position = self.cursor_position - 1;
        }
    }

    /// Moves the cursor one character right, if it can.
    pub fn move_cursor_right(&mut self)
        requires
            old(self).wf(),
        ensures
            final(self).wf(),
            final(self).input == old(self).input,
            final(self).input_mode == old(self).input_mode,
            final(self).cursor_position == if old(self).cursor_position < old(self).input@.len() {
                old(self).cursor_position + 1
            } else {
                old(self).cursor_position as int
            },
    {
        if self.cursor_position < self.input.len() {
            self.cursor_position = self.cursor_position + 1;
        }
    }
}

} // verus!
