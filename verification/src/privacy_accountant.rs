//! How privacy losses add up over queries.
use vstd::prelude::*;

verus! {

/// A way to bound the loss of many queries.
#[derive(Clone, Copy, Debug, PartialEq, Eq, Structural)]
pub enum CompositionMethod {
    /// The sum of the losses.
    Basic,
    /// A tighter bound by Rényi divergence; accounted as a sum.
    AdvancedRdp,
    /// A tighter bound by concentrated privacy; accounted as a sum.
    ZeroConcentrated,
}

} // verus!
