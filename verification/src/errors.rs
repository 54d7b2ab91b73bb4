use vstd::prelude::*;

verus! {

/// The failure taxonomy of the store. Every fallible operation reports one of
/// these to its immediate caller; nothing is swallowed or retried internally.
#[derive(Clone, Copy, Debug, PartialEq, Eq, Structural)]
pub enum StoreError {
    /// Mapping, length reservation, or flush failed.
    Io,
    /// An opened region's length is not a multiple of the record stride.
    Format,
    /// An index access beyond capacity.
    OutOfBounds,
    /// A coordinate exceeds the codec's configured bit-width.
    Encoding,
}

} // verus!
