//! A continue-or-break result for event handlers that want to stop quietly
//! partway through: either a value to go on with, or nothing more to do.
//! Callers inspect the flow and propagate it by ordinary matching.

use vstd::prelude::*;

verus! {

/// Unit-like marker carried by a broken-off computation; owned by this
/// crate so that callers can extend it with their own conversions.
pub struct Empty;

/// The two outcomes a `Breaker` can hold.
pub enum BreakFlow<T> {
    Break(Empty),
    Continue(T),
}

/// Wrapper around `BreakFlow`, the unit this crate's handlers return.
pub struct Breaker<T>(pub BreakFlow<T>);

impl<T> Breaker<T> {
    /// A broken-off computation: no value, nothing more to do.
    pub fn brk() -> (r: Self)
        ensures
            r.0 is Break,
    {
        Breaker(BreakFlow::Break(Empty))
    }

    /// A computation that goes on with `t`.
    pub fn cont(t: T) -> (r: Self)
        ensures
            r.0 matches BreakFlow::Continue(x) && x == t,
    {
        Breaker(BreakFlow::Continue(t))
    }
}

} // verus!
