//! The failures that the engine reports.

use vstd::prelude::*;
use vstd::string::StringExecFns;

verus! {

/// Why an operation on a volume image was refused.
#[derive(Clone, Copy, Debug, PartialEq, Eq, Structural)]
pub enum FatError {
    /// The boot sector is too short or gives a geometry that is not
    /// plausible, or a directory entry's name cannot be decoded as text.
    Parse,
    /// No live directory entry carries the requested name.
    NotFound,
    /// A live directory entry already carries the requested name.
    AlreadyExists,
    /// Every slot of the root directory is taken.
    NoFreeSlot,
    /// The allocation table has no free cluster left.
    OutOfSpace,
    /// The name does not fit the 8.3 form.
    Format,
    /// A read or write would run past the end of a byte region.
    Bounds,
}

impl FatError {
    /// The human-readable message of this failure.
    pub open spec fn message_text(&self) -> Seq<char> {
        match *self {
            FatError::Parse => "malformed volume data"@,
            FatError::NotFound => "file not found"@,
            FatError::AlreadyExists => "entry already exists"@,
            FatError::NoFreeSlot => "no free entries"@,
            FatError::OutOfSpace => "image ran out of space while writing file"@,
            FatError::Format => "bad filename"@,
            FatError::Bounds => "access outside of a section's bounds"@,
        }
    }

    /// The message of this failure where it is about the file `name`: a
    /// failure that turns on the name says which name it was.
    pub open spec fn message_about_text(&self, name: Seq<char>) -> Seq<char> {
        match *self {
            FatError::NotFound => "file "@ + name + " not found"@,
            FatError::AlreadyExists => "file "@ + name + " already exists"@,
            FatError::Format => "bad filename: \""@ + name + "\""@,
            _ => self.message_text(),
        }
    }

    /// The human-readable message of this failure.
    pub fn message(&self) -> (text: &'static str)
        ensures
            text@ == self.message_text(),
    {
        match self {
            FatError::Parse => "malformed volume data",
            FatError::NotFound => "file not found",
            FatError::AlreadyExists => "entry already exists",
            FatError::NoFreeSlot => "no free entries",
            FatError::OutOfSpace => "image ran out of space while writing file",
            FatError::Format => "bad filename",
            FatError::Bounds => "access outside of a section's bounds",
        }
    }

    /// The human-readable message of this failure where it is about the file
    /// `name`.
    pub fn message_about(&self, name: &str) -> (text: String)
        ensures
            text@ == self.message_about_text(name@),
    {
        match self {
            FatError::NotFound => {
                let mut text = String::from_str("file ");
                text.append(name);
                text.append(" not found");
                text
            },
            FatError::AlreadyExists => {
                let mut text = String::from_str("file ");
                text.append(name);
                text.append(" already exists");
                text
            },
            FatError::Format => {
                let mut text = String::from_str("bad filename: \"");
                text.append(name);
                text.append("\"");
                text
            },
            _ => String::from_str(self.message()),
        }
    }
}

} // verus!
