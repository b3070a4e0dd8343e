//! What to fetch next.

use vstd::prelude::*;

verus! {

/// Which instances to fetch next, and how many.
#[derive(Debug, Clone, PartialEq, Eq)]
pub struct FetchCondition {
    pub full_key: Option<String>,
    pub from: Option<String>,
    pub size: u16,
}

impl Default for FetchCondition {
    fn default() -> (r: Self)
        ensures
            r.full_key is None,
            r.from is None,
            r.size == 0,
    {
        FetchCondition { full_key: None, from: None, size: 0 }
    }
}

} // verus!
