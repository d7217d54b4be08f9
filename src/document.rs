//! Object numbering of the documents this library writes into.

use vstd::prelude::*;
use crate::pdf;

verus! {

pub use crate::pdf::last_object_number;

/// How many more objects `doc` can number: each new object takes the number
/// after the last one.
pub fn object_numbers_left(doc: &lopdf::Document) -> (r: u32)
    ensures
        r == u32::MAX - last_object_number(*doc),
{
    u32::MAX - pdf::max_object_number(doc)
}

} // verus!
