//! Why reading can fail as a whole.

use vstd::prelude::*;
use vstd::string::StringExecFns;

verus! {

/// A failure of the input's structure. It ends the reading: no table is
/// handed out. A cell that is no number is no such failure.
#[derive(Clone, Copy, Debug, PartialEq, Eq, Structural)]
pub enum StructuralError {
    /// The input holds no record at all, so there is no header.
    MissingHeader,
    /// The input stops inside a quoted field.
    UnterminatedQuote,
    /// The tokeniser reported an error in a record: text that is not UTF-8,
    /// for one.
    Malformed,
}

impl StructuralError {
    /// A sentence for the user.
    pub fn message(&self) -> (text: String)
        ensures
            text@ == match *self {
                StructuralError::MissingHeader => "the input has no header row"@,
                StructuralError::UnterminatedQuote => "the input ends inside a quoted field"@,
                StructuralError::Malformed => "the input holds a record that cannot be read"@,
            },
    {
        match self {
            StructuralError::MissingHeader => String::from_str("the input has no header row"),
            StructuralError::UnterminatedQuote => String::from_str(
                "the input ends inside a quoted field",
            ),
            StructuralError::Malformed => String::from_str(
                "the input holds a record that cannot be read",
            ),
        }
    }
}

} // verus!
