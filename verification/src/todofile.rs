//! The lines that go to a report which is written line by line. One line is
//! no content: it tells the writer that the report is complete.

use crate::text::same_text;
use vstd::prelude::*;

verus! {

/// What a line means to the writer of a report.
#[derive(Debug, Clone, Copy, PartialEq, Eq, Structural)]
pub enum TodofileCommand {
    /// The report is complete.
    Close,
    /// The line is content.
    NotCommand,
}

impl TodofileCommand {
    /// The line that stands for this command: the closing line for `Close`,
    /// and none for content.
    pub open spec fn line(self) -> Seq<char> {
        match self {
            TodofileCommand::Close => "-<CLOSE>-"@,
            TodofileCommand::NotCommand => Seq::empty(),
        }
    }

    pub fn command_str(&self) -> (s: String)
        ensures
            s@ == self.line(),
    {
        match self {
            TodofileCommand::Close => "-<CLOSE>-".to_owned(),
            TodofileCommand::NotCommand => String::new(),
        }
    }

    /// What `line` means: only the closing line, letter for letter, is a
    /// command.
    pub fn from(line: &str) -> (c: TodofileCommand)
        ensures
            c == if line@ == "-<CLOSE>-"@ {
                TodofileCommand::Close
            } else {
                TodofileCommand::NotCommand
            },
    {
        if same_text(line, "-<CLOSE>-") {
            TodofileCommand::Close
        } else {
            TodofileCommand::NotCommand
        }
    }
}

/// The closing line is read back as the command to close, and content is
/// never mistaken for a command of its own line.
pub proof fn lemma_command_round_trip(c: TodofileCommand)
    ensures
        (c.line() == TodofileCommand::Close.line()) == (c == TodofileCommand::Close),
{
    reveal_strlit("-<CLOSE>-");
    assert("-<CLOSE>-"@.len() == 9);
}

} // verus!
