//! What to do when the destination of a file already exists.
//!
//! A collision is decided by the name alone: contents and timestamps are
//! never looked at. The flags settle most cases; where they leave the choice
//! open the user is asked, and the answer is read here.

use vstd::prelude::*;
use crate::text::chars_of;
use crate::text::trim;
use crate::text::trimmed;

verus! {

/// Whether the source stays in place.
#[derive(Clone, Copy, Debug, PartialEq, Eq, Structural)]
pub enum Mode {
    /// The source is preserved.
    Copy,
    /// The source is removed once it has been transferred.
    Move,
}

/// The switches of a transfer.
#[derive(Clone, Copy, Debug, PartialEq, Eq, Structural)]
pub struct Flags {
    /// Accept collisions without asking.
    pub auto_yes: bool,
    /// Refuse collisions without asking.
    pub auto_no: bool,
    /// With `auto_yes`: write beside the existing file under a numbered name
    /// instead of replacing it.
    pub auto_rename: bool,
}

/// How one file is handled.
#[derive(Clone, Copy, Debug, PartialEq, Eq, Structural)]
pub enum Decision {
    /// Write to the destination name, replacing what is there.
    Proceed,
    /// Leave this file out; the transfer goes on.
    Skip,
    /// Write to the first free numbered name.
    Rename,
}

/// What the flags say about one file.
#[derive(Clone, Copy, Debug, PartialEq, Eq, Structural)]
pub enum Ruling {
    /// The flags settle it.
    Decided(Decision),
    /// The destination exists and collisions are refused.
    AlreadyExists,
    /// The destination exists and the user has to choose.
    AskUser,
}

/// The ruling for a file whose destination name exists or not.
pub open spec fn ruling(destination_exists: bool, flags: Flags) -> Ruling {
    if !destination_exists {
        Ruling::Decided(Decision::Proceed)
    } else if flags.auto_no {
        Ruling::AlreadyExists
    } else if flags.auto_yes {
        if flags.auto_rename {
            Ruling::Decided(Decision::Rename)
        } else {
            Ruling::Decided(Decision::Proceed)
        }
    } else {
        Ruling::AskUser
    }
}

/// Decides a possible collision from the flags.
pub fn decide(destination_exists: bool, flags: Flags) -> (r: Ruling)
    ensures
        r == ruling(destination_exists, flags),
{
    if !destination_exists {
        Ruling::Decided(Decision::Proceed)
    } else if flags.auto_no {
        Ruling::AlreadyExists
    } else if flags.auto_yes {
        if flags.auto_rename {
            Ruling::Decided(Decision::Rename)
        } else {
            Ruling::Decided(Decision::Proceed)
        }
    } else {
        Ruling::AskUser
    }
}

/// The choice that an answer line stands for: `y` replaces, `n` leaves the
/// file out, `r` renames; white space around the letter does not count.
/// Any other line is no answer.
pub open spec fn answer_meaning(line: Seq<char>) -> Option<Decision> {
    let word = trim(line);
    if word == seq!['y'] {
        Some(Decision::Proceed)
    } else if word == seq!['n'] {
        Some(Decision::Skip)
    } else if word == seq!['r'] {
        Some(Decision::Rename)
    } else {
        None
    }
}

/// Reads the user's answer to a collision prompt.
pub fn interpret_answer(line: &str) -> (choice: Option<Decision>)
    ensures
        choice == answer_meaning(line@),
{
    let word = trimmed(&chars_of(line));
    if word.len() != 1 {
        return None;
    }
    let c = word[0];
    assert(word@ =~= seq![c]);
    if c == 'y' {
        Some(Decision::Proceed)
    } else if c == 'n' {
        Some(Decision::Skip)
    } else if c == 'r' {
        Some(Decision::Rename)
    } else {
        assert(word@[0] != 'y' && word@[0] != 'n' && word@[0] != 'r');
        None
    }
}

} // verus!
