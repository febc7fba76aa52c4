//! The three operations of the command surface, as calls on a loaded image.

use vstd::prelude::*;
use vstd::string::StringExecFns;

pub mod add;
pub mod detail;
pub mod list;

pub use self::add::add_file;
pub use self::detail::detail_file;
pub use self::list::list_files;

verus! {

/// An operation of the command surface.
#[derive(Clone, Copy, Debug, PartialEq, Eq, Structural)]
pub enum Command {
    /// Adds file to image.
    Add,
    /// List files on image.
    List,
    /// Show file details
    Detail,
}

/// The command that goes by `name`, if there is one.
pub open spec fn command_named(name: Seq<char>) -> Option<Command> {
    if name == "add"@ {
        Some(Command::Add)
    } else if name == "ls"@ {
        Some(Command::List)
    } else if name == "detail"@ {
        Some(Command::Detail)
    } else {
        None
    }
}

/// Tells whether `name` is the word `word`.
fn is_word(name: &String, word: &str) -> (same: bool)
    ensures
        same == (name@ == word@),
{
    let word = String::from_str(word);
    name.eq(&word)
}

/// Looks up the command that goes by `name`.
pub fn get_command(name: &String) -> (command: Option<Command>)
    ensures
        command == command_named(name@),
{
    if is_word(name, "add") {
        Some(Command::Add)
    } else if is_word(name, "ls") {
        Some(Command::List)
    } else if is_word(name, "detail") {
        Some(Command::Detail)
    } else {
        None
    }
}

impl Command {
    /// The word that calls for the command.
    pub open spec fn name_text(&self) -> Seq<char> {
        match *self {
            Command::Add => "add"@,
            Command::List => "ls"@,
            Command::Detail => "detail"@,
        }
    }

    /// The arguments that the command takes.
    pub open spec fn usage_text(&self) -> Seq<char> {
        match *self {
            Command::Add => "<file> <image>"@,
            Command::List => "<image>"@,
            Command::Detail => "<image> <file>"@,
        }
    }

    /// What the command does, in a few words.
    pub open spec fn description_text(&self) -> Seq<char> {
        match *self {
            Command::Add => "Adds file to image."@,
            Command::List => "List files on image."@,
            Command::Detail => "Show file details"@,
        }
    }

    /// The word that calls for the command.
    pub fn name(&self) -> (word: &'static str)
        ensures
            word@ == self.name_text(),
            command_named(word@) == Some(*self),
    {
        proof {
            reveal_strlit("add");
            reveal_strlit("ls");
            reveal_strlit("detail");
            assert("add"@.len() != "ls"@.len());
            assert("add"@.len() != "detail"@.len());
            assert("ls"@.len() != "detail"@.len());
        }
        match self {
            Command::Add => "add",
            Command::List => "ls",
            Command::Detail => "detail",
        }
    }

    /// The arguments that the command takes.
    pub fn usage(&self) -> (template: &'static str)
        ensures
            template@ == self.usage_text(),
    {
        match self {
            Command::Add => "<file> <image>",
            Command::List => "<image>",
            Command::Detail => "<image> <file>",
        }
    }

    /// What the command does, in a few words.
    pub fn description(&self) -> (text: &'static str)
        ensures
            text@ == self.description_text(),
    {
        match self {
            Command::Add => "Adds file to image.",
            Command::List => "List files on image.",
            Command::Detail => "Show file details",
        }
    }

    /// The line of the command in the usage block: its name and arguments,
    /// and what it does.
    pub fn usage_line(&self) -> (line: String)
        ensures
            line@ == "\t"@ + self.name_text() + " "@ + self.usage_text() + ": "@
                + self.description_text(),
    {
        let mut line = String::from_str("\t");
        line.append(self.name());
        line.append(" ");
        line.append(self.usage());
        line.append(": ");
        line.append(self.description());
        line
    }
}

} // verus!
