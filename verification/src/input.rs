//! What the keys mean while a number is typed and while a list is browsed.

use crate::text::{all_digits, parse_token, token_value};
use vstd::prelude::*;

verus! {

/// A key as the entry of a number sees it.
#[derive(Clone, Copy, Debug, PartialEq, Eq, Structural)]
pub enum Key {
    /// A decimal digit, by its value.
    Digit(u8),
    /// The entry is complete.
    Enter,
    /// The last digit is taken back.
    Backspace,
    /// The entry is given up.
    Escape,
    /// Any other key.
    Other,
}

/// What a key did to the entry of a number.
#[derive(Clone, Copy, Debug, PartialEq, Eq, Structural)]
pub enum Entry {
    /// The entry goes on.
    Pending,
    /// A number from 0 to 25 was entered.
    Accepted(u8),
    /// What was entered is no number from 0 to 25; the entry starts over.
    Invalid,
    /// The entry was given up.
    Cancelled,
}

/// The entry of a number: the digits typed so far, as text.
#[derive(Debug)]
pub struct NumberEntry {
    pub input: Vec<u8>,
}

/// What the digits typed so far amount to once the entry is complete.
pub open spec fn entered(input: Seq<u8>) -> Entry {
    match token_value(input, 255) {
        Some(value) => if value <= 25 {
            Entry::Accepted(value as u8)
        } else {
            Entry::Invalid
        },
        None => Entry::Invalid,
    }
}

impl NumberEntry {
    /// Whether only digits were typed.
    pub open spec fn wf(&self) -> bool {
        all_digits(self.input@)
    }

    /// An entry with nothing typed.
    pub fn new() -> (entry: NumberEntry)
        ensures
            entry.wf(),
            entry.input@.len() == 0,
    {
        NumberEntry { input: Vec::new() }
    }

    /// Takes one key. A digit is added to what was typed and the backspace
    /// takes the last one back. Enter completes the entry: a number from 0
    /// to 25 is accepted, anything else is refused, and what was typed is
    /// cleared. Escape gives the entry up.
    pub fn get_number(&mut self, key: Key) -> (outcome: Entry)
        requires
            old(self).wf(),
        ensures
            final(self).wf(),
            match key {
                Key::Digit(digit) => outcome == Entry::Pending && final(self).input@ == if digit
                    <= 9 {
                    old(self).input@.push((48 + digit) as u8)
                } else {
                    old(self).input@
                },
                Key::Enter => outcome == entered(old(self).input@) && final(self).input@.len()
                    == 0,
                Key::Backspace => outcome == Entry::Pending && final(self).input@ == if old(
                    self,
                ).input@.len() > 0 {
                    old(self).input@.drop_last()
                } else {
                    old(self).input@
                },
                Key::Escape => outcome == Entry::Cancelled && final(self).input@ == old(
                    self,
                ).input@,
                Key::Other => outcome == Entry::Pending && final(self).input@ == old(self).input@,
            },
    {
        match key {
            Key::Digit(digit) => {
                if digit <= 9 {
                    self.input.push(48 + digit);
                }
                Entry::Pending
            },
            Key::Enter => {
                proof {
                    assert(self.input@.subrange(0, self.input@.len() as int) =~= self.input@);
                }
                let value = parse_token(self.input.as_slice(), 0, self.input.len(), 255);
                self.input.clear();
                match value {
                    Some(number) => {
                        if number <= 25 {
                            Entry::Accepted(number as u8)
                        } else {
                            Entry::Invalid
                        }
                    },
                    None => Entry::Invalid,
                }
            },
            Key::Backspace => {
                self.input.pop();
                Entry::Pending
            },
            Key::Escape => Entry::Cancelled,
            Key::Other => Entry::Pending,
        }
    }
}

/// A key as a list to choose from sees it.
#[derive(Clone, Copy, Debug, PartialEq, Eq, Structural)]
pub enum ListKey {
    /// One entry up.
    Up,
    /// One entry down.
    Down,
    /// The entry under the cursor is chosen.
    Enter,
    /// The list is left without a choice.
    Escape,
    /// The program is to end.
    Quit,
    /// Any other key.
    Other,
}

/// What a key did to a list to choose from.
#[derive(Clone, Copy, Debug, PartialEq, Eq, Structural)]
pub enum Browse {
    /// The cursor is on this entry now.
    At(usize),
    /// This entry was chosen.
    Chosen(usize),
    /// The list was left without a choice.
    Left,
    /// The program is to end, without a choice.
    Quit,
}

/// What a key does to a list of `count` entries with the cursor on entry
/// `cursor`. Up from the first entry leads to the last, and down from the
/// last to the first.
pub open spec fn browsed(cursor: usize, count: usize, key: ListKey) -> Browse {
    match key {
        ListKey::Up => Browse::At(
            if cursor == 0 {
                (count - 1) as usize
            } else {
                (cursor - 1) as usize
            },
        ),
        ListKey::Down => Browse::At(
            if cursor + 1 == count {
                0
            } else {
                (cursor + 1) as usize
            },
        ),
        ListKey::Enter => Browse::Chosen(cursor),
        ListKey::Escape => Browse::Left,
        ListKey::Quit => Browse::Quit,
        ListKey::Other => Browse::At(cursor),
    }
}

/// Takes one key for a list of `count` entries with the cursor on entry
/// `cursor`.
pub fn get_filename(cursor: usize, count: usize, key: ListKey) -> (outcome: Browse)
    requires
        cursor < count,
    ensures
        outcome == browsed(cursor, count, key),
        match outcome {
            Browse::At(entry) => entry < count,
            Browse::Chosen(entry) => entry < count,
            _ => true,
        },
{
    match key {
        ListKey::Up => Browse::At(
            if cursor == 0 {
                count - 1
            } else {
                cursor - 1
            },
        ),
        ListKey::Down => Browse::At(
            if cursor + 1 == count {
                0
            } else {
                cursor + 1
            },
        ),
        ListKey::Enter => Browse::Chosen(cursor),
        ListKey::Escape => Browse::Left,
        ListKey::Quit => Browse::Quit,
        ListKey::Other => Browse::At(cursor),
    }
}

} // verus!
