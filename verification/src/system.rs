//! Systems: pipeline stages built from a batch function over two stores.

use vstd::prelude::*;
use crate::scheduler::PipelineStage;

verus! {

/// A pipeline stage that iterates the intersection of two stores and
/// applies a batch function to each paired view.
pub trait System: PipelineStage {

}

} // verus!
