//! The error surface of the bounded containers.

use vstd::prelude::*;

verus! {

/// Failure of a bounded container operation.
#[derive(Debug, PartialEq, Eq, Clone, Copy, Structural)]
pub enum PortError {
    Overflow,
    InvalidUtf8,
}

} // verus!
