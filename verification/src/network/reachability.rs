//! Whether a host answers at all.
use vstd::prelude::*;

verus! {

/// The outcome of trying to reach a host.
#[derive(Debug, Clone, Copy, PartialEq, Eq, Structural)]
pub enum Reachability {
    Reachable,
    Unreachable,
    Timeout,
}

impl Reachability {
    pub fn is_reachable(&self) -> (r: bool)
        ensures
            r == (*self == Reachability::Reachable),
    {
        match self {
            Reachability::Reachable => true,
            _ => false,
        }
    }
}

} // verus!
