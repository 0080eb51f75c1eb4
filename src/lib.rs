use vstd::prelude::*;

pub mod error;
pub mod laws;
pub mod layout;
pub mod numeric;
pub mod record;
pub mod text;

pub use error::{outcome_of, Outcome, ReadFromBytesError};

verus! {

/// A value that can fill itself from a byte slice and report how many bytes it occupies.
///
/// The contract is stated over the value's view: `spec_load` is what a decode makes of a
/// value and a slice (the new value and the outcome), `spec_size` the size it reports.
pub trait FromBytes: Sized + View {
    spec fn spec_size(v: Self::V) -> nat;

    spec fn spec_load(v: Self::V, bytes: Seq<u8>) -> (Self::V, Outcome);

    fn load_from_bytes(&mut self, bytes: &[u8]) -> (r: Result<(), ReadFromBytesError>)
        ensures
            (final(self)@, outcome_of(r)) == Self::spec_load(old(self)@, bytes@),
    ;

    fn bytes_size(&self) -> (r: usize)
        ensures
            r as nat == Self::spec_size(self@),
    ;
}

} // verus!
