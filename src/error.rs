use vstd::prelude::*;

verus! {


/// Why a decode did not complete.
#[derive(Debug, Clone)]
pub enum ReadFromBytesError {
    /// The supplied bytes were fewer than required: (required, actual).
    BytesArrayTooSmall(usize, usize),
    /// The bytes had the right length but did not form a valid value.
    BytesFormatError(String),
}

/// What a decode call came to, with the text of a format message as a sequence of chars.
pub enum Outcome {
    Done,
    TooSmall(nat, nat),
    Malformed(Seq<char>),
}

/// The outcome that a result of a decode call stands for.
pub open spec fn outcome_of(r: Result<(), ReadFromBytesError>) -> Outcome {
    match r {
        Ok(_) => Outcome::Done,
        Err(ReadFromBytesError::BytesArrayTooSmall(req, act)) => Outcome::TooSmall(req as nat, act as nat),
        Err(ReadFromBytesError::BytesFormatError(m)) => Outcome::Malformed(m@),
    }
}

pub(crate) fn too_small(required: usize, actual: usize) -> (r: Result<(), ReadFromBytesError>)
    ensures
        outcome_of(r) == Outcome::TooSmall(required as nat, actual as nat),
{
    Err(ReadFromBytesError::BytesArrayTooSmall(required, actual))
}

} // verus!
