//! What can be wrong with the arguments of a run.

use vstd::prelude::*;

verus! {

/// A fault in the command line, with a sentence that explains it.
#[derive(Clone, Copy, Debug)]
pub enum CommandlineParsingErrors {
    /// Points and radii do not pair up.
    NumberOfPointsAndRadius(&'static str),
    /// An argument does not have the shape it should.
    IncorrectArgumentStructure(&'static str),
    /// A coordinate is not a number that fits.
    IntegerParsing(&'static str),
}

impl CommandlineParsingErrors {
    /// The text that reports this fault: the name of its kind, a comma, and
    /// the sentence that it carries.
    pub open spec fn text(self) -> Seq<char> {
        match self {
            CommandlineParsingErrors::NumberOfPointsAndRadius(msg) => "Number of points and radius, "@
                + msg@,
            CommandlineParsingErrors::IncorrectArgumentStructure(msg) => "Incorrect argument structure, "@
                + msg@,
            CommandlineParsingErrors::IntegerParsing(msg) => "Integer parsing, "@ + msg@,
        }
    }

    /// The text that reports this fault.
    pub fn to_string(&self) -> (text: String)
        ensures
            text@ == self.text(),
    {
        match self {
            CommandlineParsingErrors::NumberOfPointsAndRadius(msg) => {
                String::from_str("Number of points and radius, ").concat(msg)
            },
            CommandlineParsingErrors::IncorrectArgumentStructure(msg) => {
                String::from_str("Incorrect argument structure, ").concat(msg)
            },
            CommandlineParsingErrors::IntegerParsing(msg) => {
                String::from_str("Integer parsing, ").concat(msg)
            },
        }
    }
}

} // verus!
