//! The change of states that a converter asks for.

use vstd::prelude::*;
use crate::text_map::TextSet;

verus! {

/// Which states to add to and remove from an instance, and which states the
/// instance must or must not have for the change to apply.
#[derive(Debug, Clone, PartialEq, Eq)]
pub struct TargetState {
    pub add: Option<Vec<String>>,
    pub remove: Option<Vec<String>>,
    pub need_all: TextSet,
    pub need_any: TextSet,
    pub need_none: TextSet,
}

impl Default for TargetState {
    fn default() -> (r: Self)
        ensures
            r.add is None,
            r.remove is None,
            r.need_all@ == Set::<Seq<char>>::empty(),
            r.need_any@ == Set::<Seq<char>>::empty(),
            r.need_none@ == Set::<Seq<char>>::empty(),
    {
        TargetState {
            add: None,
            remove: None,
            need_all: TextSet::new(),
            need_any: TextSet::new(),
            need_none: TextSet::new(),
        }
    }
}

} // verus!
