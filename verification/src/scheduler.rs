//! Pipeline ordering declarations. Only the trait surface lives here:
//! groups and stages declare identity and before/after dependencies;
//! resolving them into an order is a collaborator's job.

use vstd::prelude::*;

verus! {

/// Identity token for a pipeline group or stage, standing in for a
/// runtime type identity.
#[derive(Clone, Copy, Debug, PartialEq, Eq, Structural)]
pub struct StageId(pub u64);

/// A named group of pipeline stages with ordering declarations.
pub trait PipelineGroup {
    fn type_id(&self) -> StageId;

    fn name(&self) -> &'static str {
        ""
    }

    fn before(&self) -> Vec<StageId> {
        Vec::new()
    }

    fn after(&self) -> Vec<StageId> {
        Vec::new()
    }

    fn parent(&self) -> Option<StageId> {
        None
    }
}

/// A runnable pipeline stage with ordering and access declarations.
pub trait PipelineStage {
    fn run(&self);

    fn type_id(&self) -> StageId;

    fn name(&self) -> &'static str {
        ""
    }

    fn before(&self) -> Vec<StageId> {
        Vec::new()
    }

    fn after(&self) -> Vec<StageId> {
        Vec::new()
    }

    fn reads(&self) -> Vec<StageId> {
        Vec::new()
    }

    fn writes(&self) -> Vec<StageId> {
        Vec::new()
    }
}

} // verus!
