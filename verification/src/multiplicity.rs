use vstd::prelude::*;

verus! {

/// How many times a bound resource may be used.
#[derive(Debug, Clone, Copy, PartialEq, Eq, Structural)]
pub enum Multiplicity {
    /// The resource is erased at run time.
    Zero,
    /// The resource must be used exactly once.
    One,
    /// The resource may be used any number of times.
    Many,
}

} // verus!
