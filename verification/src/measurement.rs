//! Distinguishes observable and non-observable quantities.

use vstd::prelude::*;

verus! {

/// Distinguishes observable and non-observable quantities.
///
/// For example, this distinguishes the retrieval of a superposition (that cannot be measured
/// directly) from the bin count of states that a superposition collapsed to upon measurement.
pub enum Measurement<T> {
    Observable(T),
    NonObservable(T),
}

impl<T> Measurement<T> {
    /// Moves out the value that the measurement wraps.
    pub fn take(self) -> (res: T)
        ensures
            res == match self {
                Measurement::Observable(item) => item,
                Measurement::NonObservable(item) => item,
            },
    {
        match self {
            Measurement::Observable(item) => item,
            Measurement::NonObservable(item) => item,
        }
    }
}

} // verus!
