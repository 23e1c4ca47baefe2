//! The ways in which an operation on a one-time pad can fail.

use vstd::prelude::*;
use vstd::string::StringExecFns;

verus! {

/// Possible errors whilst working with one time pads.
#[derive(Debug, Clone, Copy, PartialEq, Eq, Structural)]
pub enum OneTimePadError {
    /// The pad buffer holds fewer indices than the input has symbols.
    /// Push more pad material, or use a shorter input.
    PadBufferNotLongEnough,
    /// The symbol does not occur in the alphabet and so stands for no
    /// index. To use it, set up a pad with an alphabet that holds it.
    CharacterNotInAlphabet(char),
}

impl OneTimePadError {
    /// What [`OneTimePadError::message`] says of this error.
    pub open spec fn message_text(self) -> Seq<char> {
        match self {
            OneTimePadError::PadBufferNotLongEnough =>
                "The pad buffer isn't long enough for the input string to be processed."@,
            OneTimePadError::CharacterNotInAlphabet(symbol) => "The character '"@.push(symbol)
                + "' is not in the alphabet of this one time pad."@,
        }
    }

    /// Describes the error in a sentence, for a reader of the program's
    /// output.
    pub fn message(&self) -> (text: String)
        ensures
            text@ == self.message_text(),
    {
        match self {
            OneTimePadError::PadBufferNotLongEnough => String::from_str(
                "The pad buffer isn't long enough for the input string to be processed.",
            ),
            OneTimePadError::CharacterNotInAlphabet(symbol) => {
                let mut text = String::from_str("The character '");
                text.push(*symbol);
                text.append("' is not in the alphabet of this one time pad.");
                text
            },
        }
    }
}

} // verus!
