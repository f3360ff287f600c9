//! Filter kinds.
use vstd::prelude::*;

verus! {

/// The kind of a filter: high-pass or low-pass.
#[derive(Clone, Copy, Debug, PartialEq, Eq, Structural)]
pub enum FilterType {
    HP,
    LP,
}

} // verus!
