//! Where a paged loop stands.

use vstd::prelude::*;

verus! {

/// The range of a loop over pages and the page it has reached.
#[derive(Debug)]
pub struct LoopContext {
    pub from: String,
    pub to: String,
    pub len: usize,
    pub page: usize,
}

} // verus!
