//! Keys.
use vstd::prelude::*;

verus! {

#[derive(Debug, Clone, Copy, PartialEq, Eq, Structural)]
pub enum Key {
    Up,
    Down,
    Left,
    Right,
    Enter,
    Esc,
    Backspace,
    Delete,
    Char(char),
    Other,
}

/// A key, and whether Shift was held and reported with it.
#[derive(Debug, Clone, Copy, PartialEq, Eq, Structural)]
pub struct KeyPress {
    pub key: Key,
    pub shift: bool,
}

/// What a key means while a list is shown.
#[derive(Debug, Clone, Copy, PartialEq, Eq, Structural)]
pub enum Motion {
    Up,
    Down,
}

/// The position after one step in a list of `length` rows.
pub open spec fn stepped(current: Option<usize>, motion: Motion, length: nat) -> Option<usize> {
    let from = match current {
        Some(index) => index as int,
        None => 0,
    };
    if length == 0 {
        None
    } else {
        match motion {
            Motion::Up => Some(
                if from > 0 {
                    (from - 1) as usize
                } else {
                    0
                },
            ),
            Motion::Down => Some(
                if from + 1 < length {
                    (from + 1) as usize
                } else {
                    (length - 1) as usize
                },
            ),
        }
    }
}

/// The position after one step in a list of `length` rows.
pub fn step(current: Option<usize>, motion: Motion, length: usize) -> (r: Option<usize>)
    ensures
        r == stepped(current, motion, length as nat),
{
    if length == 0 {
        return None;
    }
    let from: usize = match current {
        Some(index) => index,
        None => 0,
    };
    let next: usize = match motion {
        Motion::Up => if from > 0 {
            from - 1
        } else {
            0
        },
        Motion::Down => if from < length - 1 {
            from + 1
        } else {
            length - 1
        },
    };
    Some(next)
}

/// From a row of the list, a step never leaves the list.
pub proof fn steps_stay_in_list(current: Option<usize>, motion: Motion, length: nat)
    requires
        length > 0,
        length <= usize::MAX,
        current matches Some(index) ==> index < length,
    ensures
        stepped(current, motion, length) matches Some(next) && next < length,
{
}

/// One row down and one row up lead back, and every step moves as far as there are rows.
pub proof fn steps_lead_back(row: usize, length: nat)
    requires
        row < length <= usize::MAX,
    ensures
        row + 1 < length ==> stepped(Some(row), Motion::Down, length) == Some((row + 1) as usize)
            && stepped(stepped(Some(row), Motion::Down, length), Motion::Up, length) == Some(row),
        row > 0 ==> stepped(Some(row), Motion::Up, length) == Some((row - 1) as usize) && stepped(
            stepped(Some(row), Motion::Up, length),
            Motion::Down,
            length,
        ) == Some(row),
        stepped(Some(0), Motion::Up, length) == Some(0usize),
        row + 1 == length ==> stepped(Some(row), Motion::Down, length) == Some(row),
{
}

} // verus!
