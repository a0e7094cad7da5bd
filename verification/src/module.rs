//! What every part of the system has in common.
use vstd::prelude::*;

verus! {

/// How a part of the system is doing.
#[derive(Clone, Copy, Debug, PartialEq, Eq, Structural)]
pub enum Health {
    Up,
    Degraded,
    Down,
}

} // verus!
