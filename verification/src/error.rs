//! The allocation service's failure type.

use vstd::prelude::*;

verus! {

/// The single failure of the allocation service: no batch in the supplied
/// collection can satisfy the requested quantity for the carried SKU.
#[derive(Debug, PartialEq)]
pub enum Error {
    OutOfStock(String),
}

} // verus!
