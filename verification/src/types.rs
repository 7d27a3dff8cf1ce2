//! Leg of a delta-neutral pair.
use vstd::prelude::*;

verus! {

/// Whether a market is the low or the high leg of a delta-neutral pair.
#[derive(Debug, Clone, Copy, PartialEq, Eq, Structural)]
pub enum Leg {
    Low,
    High,
}

} // verus!
