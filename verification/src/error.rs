//! Why the network refuses an operation.
use vstd::prelude::*;

verus! {

/// A mistake of the caller that the network refuses to act on.
#[derive(Clone, Copy, Debug, PartialEq, Eq)]
pub enum NetworkError {
    /// The operation needs layers that have not been added yet.
    ConfigurationError,
    /// A vector or matrix does not have the size of the layer it is for.
    ShapeMismatchError,
}

} // verus!
