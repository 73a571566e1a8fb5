//! The scalar metric a peer driver reports for an input, modelled as an
//! order-embedded rank.
//!
//! On the wire the metric is a decimal floating-point scalar. The logic of
//! the master only ever observes its order (which reply is larger) and
//! whether it is exactly zero, so the library holds it as a 64-bit rank:
//! the edge that reads the wire encodes each reply so that the numeric
//! order of replies is the order of ranks and the reply zero maps exactly
//! to `METRIC_ZERO_RANK`.

use vstd::prelude::*;

verus! {

/// Rank that the zero reply is encoded to. The edge's encoding sends
/// non-negative scalars to ranks at or above it and negative scalars
/// below it.
pub const METRIC_ZERO_RANK: u64 = 0x8000_0000_0000_0000;

/// A peer's scalar evaluation of one input, as an order-embedded rank.
#[derive(Debug, Clone, Copy, PartialEq, Eq, Structural)]
pub struct Metric {
    pub rank: u64,
}

impl Metric {
    /// Whether this is the zero reply, the value that means "no gain".
    pub open spec fn spec_is_zero(&self) -> bool {
        self.rank == METRIC_ZERO_RANK
    }

    #[verifier::when_used_as_spec(spec_is_zero)]
    pub fn is_zero(&self) -> (r: bool)
        ensures
            r == self.spec_is_zero(),
    {
        self.rank == METRIC_ZERO_RANK
    }

    /// Strict order on replies, mirrored from the scalar order.
    pub open spec fn spec_lt(&self, other: Metric) -> bool {
        self.rank < other.rank
    }

    pub fn lt(&self, other: &Metric) -> (r: bool)
        ensures
            r == self.spec_lt(*other),
    {
        self.rank < other.rank
    }

    pub fn gt(&self, other: &Metric) -> (r: bool)
        ensures
            r == self.spec_gt(*other),
    {
        self.rank > other.rank
    }

    pub open spec fn spec_gt(&self, other: Metric) -> bool {
        self.rank > other.rank
    }
}

} // verus!
