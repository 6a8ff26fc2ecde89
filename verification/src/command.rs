//! The eight primitive commands, the symbol decoder, and the loop-balance
//! specification shared by program validation.

use vstd::prelude::*;

verus! {

/// One primitive operation of the interpreted language.
#[derive(Clone, Copy, Debug, PartialEq, Eq, Structural)]
pub enum Command {
    IncrementPointer,
    DecrementPointer,
    IncrementValue,
    DecrementValue,
    Output,
    Input,
    StartOfLoop,
    EndOfLoop,
}

/// A symbol that does not denote any command; callers usually ignore it.
#[derive(Clone, Copy, Debug, PartialEq, Eq, Structural)]
pub struct InvalidCommand {
    symbol: char,
}

impl InvalidCommand {
    /// The symbol that failed to decode.
    pub closed spec fn spec_symbol(&self) -> char {
        self.symbol
    }

    /// Returns the symbol that failed to decode.
    pub fn symbol(&self) -> (c: char)
        ensures
            c == self.spec_symbol(),
    {
        self.symbol
    }
}

/// The command denoted by a symbol, or `None` for unrecognized symbols.
pub open spec fn command_of_symbol(c: char) -> Option<Command> {
    if c == '>' {
        Some(Command::IncrementPointer)
    } else if c == '<' {
        Some(Command::DecrementPointer)
    } else if c == '+' {
        Some(Command::IncrementValue)
    } else if c == '-' {
        Some(Command::DecrementValue)
    } else if c == '.' {
        Some(Command::Output)
    } else if c == ',' {
        Some(Command::Input)
    } else if c == '[' {
        Some(Command::StartOfLoop)
    } else if c == ']' {
        Some(Command::EndOfLoop)
    } else {
        None
    }
}

impl Command {
    /// Decodes a single symbol, rejecting anything that is not one of the
    /// eight command symbols.
    pub fn try_from(value: char) -> (r: Result<Command, InvalidCommand>)
        ensures
            r matches Ok(cmd) ==> command_of_symbol(value) == Some(cmd),
            r matches Err(e) ==> command_of_symbol(value) is None && e.spec_symbol() == value,
    {
        match value {
            '>' => Ok(Command::IncrementPointer),
            '<' => Ok(Command::DecrementPointer),
            '+' => Ok(Command::IncrementValue),
            '-' => Ok(Command::DecrementValue),
            '.' => Ok(Command::Output),
            ',' => Ok(Command::Input),
            '[' => Ok(Command::StartOfLoop),
            ']' => Ok(Command::EndOfLoop),
            _ => Err(InvalidCommand { symbol: value }),
        }
    }
}

/// A program whose loop boundaries do not balance; construction rejects it.
#[derive(Clone, Copy, Debug, PartialEq, Eq, Structural)]
pub enum InvalidProgram {
    /// A loop end appeared while no loop was open.
    UnexpectedEndOfLoop,
    /// A loop was still open at the end of the program.
    MissingEndOfLoop,
}

/// The contribution of one command to the loop-nesting depth.
pub open spec fn delta(c: Command) -> int {
    match c {
        Command::StartOfLoop => 1,
        Command::EndOfLoop => -1,
        _ => 0,
    }
}

/// The net loop-nesting depth of the prefix `cmds[..i]`.
pub open spec fn depth(cmds: Seq<Command>, i: int) -> int
    decreases i,
{
    if i <= 0 {
        0
    } else {
        depth(cmds, i - 1) + delta(cmds[i - 1])
    }
}

/// Every prefix closes at most as many loops as it opens.
pub open spec fn prefix_ok(cmds: Seq<Command>) -> bool {
    forall|i: int| 0 <= i <= cmds.len() ==> depth(cmds, i) >= 0
}

/// Loop nesting never goes negative and returns to zero at the end.
pub open spec fn balanced(cmds: Seq<Command>) -> bool {
    prefix_ok(cmds) && depth(cmds, cmds.len() as int) == 0
}

/// The error that validation reports for an unbalanced sequence: a negative
/// nesting depth is reported as an unexpected loop end, a positive final
/// depth as a missing one.
pub open spec fn balance_error(cmds: Seq<Command>) -> InvalidProgram {
    if !prefix_ok(cmds) {
        InvalidProgram::UnexpectedEndOfLoop
    } else {
        InvalidProgram::MissingEndOfLoop
    }
}

} // verus!
