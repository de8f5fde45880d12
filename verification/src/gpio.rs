//! The vocabulary of the data line: what a pin can be told and what it reports.

use vstd::prelude::*;

verus! {

/// Whether the host listens on the pin or drives it.
#[derive(Clone, Copy, Debug, PartialEq, Eq, Structural)]
pub enum PinDirection {
    In,
    Out,
}

/// The electrical level of the pin.
#[derive(Clone, Copy, Debug, PartialEq, Eq, Structural)]
pub enum PinValue {
    High,
    Low,
}

} // verus!
