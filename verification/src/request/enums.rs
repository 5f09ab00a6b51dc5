//! The steps in which a request is put together.

use vstd::prelude::*;

verus! {

/// Where the assembling of a request stands.
#[derive(Debug, Clone, Copy, PartialEq, Eq, Structural)]
pub enum CreatingRequestSteps {
    /// The request line is parsed next.
    FirstLine,
    /// The request line is there; the header block is scanned next.
    Headers,
}

impl CreatingRequestSteps {
    /// The step with which the assembling starts.
    pub fn init() -> (step: CreatingRequestSteps)
        ensures
            step == CreatingRequestSteps::FirstLine,
    {
        CreatingRequestSteps::FirstLine
    }

    /// How many steps are still to be taken from this one, itself
    /// included.
    pub open spec fn steps_left(self) -> nat {
        match self {
            CreatingRequestSteps::FirstLine => 2,
            CreatingRequestSteps::Headers => 1,
        }
    }
}

} // verus!
