//! Decision stream types used for replay and scheduling.
use vstd::prelude::*;

verus! {

/// One entry of the decision stream consumed by replay.
#[derive(Debug, Clone, Copy, PartialEq, Eq, Structural)]
pub enum Decision {
    /// Binary decision (predicate branch).
    Bool(bool),
    /// N-ary decision (e.g. an async scheduling choice among `arity` options).
    Choice { arity: u32, index: u32 },
}

impl Decision {
    /// The boolean carried by a binary decision; `None` for an n-ary one.
    pub fn as_bool(&self) -> (r: Option<bool>)
        ensures
            r == (match *self {
                Decision::Bool(b) => Some(b),
                _ => None,
            }),
    {
        match self {
            Decision::Bool(b) => Some(*b),
            _ => None,
        }
    }
}

} // verus!
