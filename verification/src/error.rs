use vstd::prelude::*;

verus! {

/// Why an operation of the library was refused.
#[derive(Debug, Clone, Copy, PartialEq, Eq, Structural)]
pub enum GameError {
    /// The reference combination was already set.
    DuplicateAssignment,
    /// The combination does not have the length that the rules ask for.
    LengthMismatch,
    /// The combination uses more distinct pieces than the rules offer.
    TooManySymbols,
    /// The combination repeats a piece although the rules forbid it.
    DuplicateNotAllowed,
    /// A guess was sent after the game was won or lost.
    SessionEnded,
    /// A guess was sent before a reference combination was set.
    NoReferenceSet,
    /// A position beyond the end of a combination was asked for.
    OutOfRange,
}

} // verus!
