//! Instances that are handled one after the other.

use vstd::prelude::*;
use crate::instance::Instance;

verus! {

/// Instances to handle in order, with what to do when all are done.
#[derive(Debug, Clone)]
pub struct TaskForSerial {
    pub context_for_finish: String,
    pub instances: Vec<Instance>,
}

} // verus!
