use vstd::prelude::*;

verus! {

/// The four ways a run can fail. Each one ends the run where it is detected.
#[derive(Clone, Copy, Debug, PartialEq, Eq, Structural)]
pub enum Fault {
    /// The data pointer would have left the tape.
    OutOfBounds,
    /// A bracket has no partner.
    SyntaxError,
    /// The input stream was exhausted or failed.
    InputError,
    /// The output stream failed.
    OutputError,
}

impl Fault {
    /// A short message for the user.
    pub fn describe(self) -> (text: &'static str)
        ensures
            text@ == describe_text(self),
    {
        match self {
            Fault::OutOfBounds => "Memory range exceeded",
            Fault::SyntaxError => "Syntax error",
            Fault::InputError => "Input error",
            Fault::OutputError => "Output error",
        }
    }
}

/// The message that goes with each fault.
pub open spec fn describe_text(fault: Fault) -> Seq<char> {
    match fault {
        Fault::OutOfBounds => "Memory range exceeded"@,
        Fault::SyntaxError => "Syntax error"@,
        Fault::InputError => "Input error"@,
        Fault::OutputError => "Output error"@,
    }
}

} // verus!
