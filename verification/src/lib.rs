//! Deterministic site assignment for fixed-capacity circular buffers: given a
//! buffer of `S` slots and a logical ingest time `T`, each algorithm family
//! (steady, tilted, and their hybrid composition) decides which slot, if any,
//! the `T`'th item should occupy. All results are proved against
//! width-independent mathematical models, so the same `(S, T)` pair yields the
//! same answer at every supported integer width.
use vstd::prelude::*;

pub mod _auxlib;
pub mod bitmath;
pub mod dstream;
pub mod uint_impls;

verus! {

/// Sum of two counters; a minimal smoke-test entry point.
pub fn add(left: u64, right: u64) -> (r: u64)
    requires
        left + right <= u64::MAX,
    ensures
        r == left + right,
{
    left + right
}

} // verus!
