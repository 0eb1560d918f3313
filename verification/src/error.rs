//! Errors that can arise during composition.

use vstd::prelude::*;

verus! {

/// Errors that can arise during composition.
#[derive(Debug, Clone)]
pub enum ComposeError {
    /// A chord name could not be parsed.
    ParseError(String),
    /// The progression has fewer than two chords (needed for transitions).
    InsufficientChords,
    /// Spectral analysis failed (e.g., degenerate matrix).
    SpectralDegenerate,
    /// No valid progression found within the given constraints.
    NoSolution,
}

/// The human-readable message of an error.
pub open spec fn error_message_spec(e: ComposeError) -> Seq<char> {
    match e {
        ComposeError::ParseError(s) => "parse error: "@ + s@,
        ComposeError::InsufficientChords => "progression needs at least two chords"@,
        ComposeError::SpectralDegenerate => "degenerate spectral matrix"@,
        ComposeError::NoSolution => "no valid progression found for constraints"@,
    }
}

impl ComposeError {
    /// The human-readable message of this error.
    pub fn to_string(&self) -> (r: String)
        ensures
            r@ == error_message_spec(*self),
    {
        match self {
            ComposeError::ParseError(s) => String::from_str("parse error: ").concat(s.as_str()),
            ComposeError::InsufficientChords => String::from_str(
                "progression needs at least two chords",
            ),
            ComposeError::SpectralDegenerate => String::from_str("degenerate spectral matrix"),
            ComposeError::NoSolution => String::from_str(
                "no valid progression found for constraints",
            ),
        }
    }
}

} // verus!
