use vstd::prelude::*;

verus! {

/// What can go wrong while building a tape.
#[derive(Debug, Clone, Copy, PartialEq, Eq, Structural)]
pub enum SimdJsonError {
    /// The document is larger than the `ParsedJson` was sized for.
    Capacity,
    /// A buffer could not be allocated.
    Memalloc,
    /// The document is not accepted by the tape builder.
    TapeError,
}

impl SimdJsonError {
    /// The human-readable description of the error.
    pub fn message(&self) -> (s: &'static str)
        ensures
            s@ == spec_error_message(*self),
    {
        match self {
            SimdJsonError::Capacity => "This ParsedJson can't support a document that big",
            SimdJsonError::Memalloc => "Error allocating memory, we're most likely out of memory",
            SimdJsonError::TapeError => "Something went wrong while writing to the tape",
        }
    }
}

/// The description that goes with each error.
pub open spec fn spec_error_message(e: SimdJsonError) -> Seq<char> {
    match e {
        SimdJsonError::Capacity => "This ParsedJson can't support a document that big"@,
        SimdJsonError::Memalloc => "Error allocating memory, we're most likely out of memory"@,
        SimdJsonError::TapeError => "Something went wrong while writing to the tape"@,
    }
}

} // verus!
