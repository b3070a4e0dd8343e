//! What a converter hands back later, after it asked for a delay.

use vstd::prelude::*;
use crate::converter::ConverterReturned;

verus! {

/// The result of a task that was answered with a delay.
#[derive(Debug, Clone)]
pub struct DelayedInstances {
    pub task_id: Vec<u8>,
    pub result: ConverterReturned,
}

impl Default for DelayedInstances {
    fn default() -> (r: Self)
        ensures
            r.task_id@.len() == 0,
            r.result is Nothing,
    {
        DelayedInstances { task_id: Vec::new(), result: ConverterReturned::Nothing }
    }
}

} // verus!
