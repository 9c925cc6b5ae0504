//! Events that a step passed through.
use crate::scalar::Scalar;
use vstd::prelude::*;

verus! {

#[derive(Clone, Copy, Debug, PartialEq, Eq, Structural)]
pub enum EventDirection {
    Rising,
    Falling,
    Either,
}

/// One located event.
#[derive(Clone, Debug, PartialEq, Eq)]
pub struct EventRecord {
    pub id: String,
    pub time: Scalar,
    pub value_before: Scalar,
    pub value_after: Scalar,
    pub direction: EventDirection,
}

} // verus!
