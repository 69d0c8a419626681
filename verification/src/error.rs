//! The error type that every CPU and memory operation reports.

use vstd::prelude::*;

verus! {

/// Backend-neutral CPU and memory errors.
#[derive(Debug)]
pub enum CpuError {
    /// Interpreter or JIT failure message.
    Message(String),
}

impl CpuError {
    /// The text of the error.
    pub open spec fn text(self) -> Seq<char> {
        match self {
            CpuError::Message(m) => m@,
        }
    }

    /// The message, as it is shown to the user.
    pub fn message(&self) -> (s: &str)
        ensures
            s@ == self.text(),
    {
        match self {
            CpuError::Message(m) => m.as_str(),
        }
    }
}

/// An error with a fixed message.
pub fn error(message: &str) -> (e: CpuError)
    ensures
        e.text() == message@,
{
    CpuError::Message(message.to_owned())
}

} // verus!
