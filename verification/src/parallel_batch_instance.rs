//! Instances of one metadata that are handled side by side.

use vstd::prelude::*;
use crate::instance::Instance;
use crate::meta::Meta;

verus! {

/// Instances of one metadata to handle in any order.
#[derive(Debug, Clone)]
pub struct TaskForParallel {
    pub meta: Meta,
    pub instances: Vec<Instance>,
}

} // verus!
