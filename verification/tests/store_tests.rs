use ercs::block::DefaultAlloc;
use ercs::component::Component;
use ercs::scheduler::{PipelineStage, StageId};
use ercs::storage::SparseStorage;

struct E(u32);

impl Component for E {}

#[test]
fn derive_component_impls_trait() {
    let _x = <E as Component>::init(0);
}

#[test]
fn component_init_starts_unwritten() {
    assert!(<E as Component>::init(7).is_none());
}

#[test]
fn sparse_storage_new_starts_empty() {
    let s = SparseStorage::<E, DefaultAlloc>::new(DefaultAlloc);
    assert_eq!(s.root.inner.presence_mask, 0);
    assert_eq!(s.root.inner.absence_mask, 0);
    assert_eq!(s.root.inner.header.absence_mask, 0);
    assert_eq!(s.root.inner.count(), 0);
}

struct NoopStage;

impl PipelineStage for NoopStage {
    fn run(&self) {}

    fn type_id(&self) -> StageId {
        StageId(1)
    }
}

#[test]
fn pipeline_stage_defaults_declare_nothing() {
    let st = NoopStage;
    st.run();
    assert_eq!(st.type_id(), StageId(1));
    assert_eq!(st.name(), "");
    assert!(st.before().is_empty());
    assert!(st.after().is_empty());
    assert!(st.reads().is_empty());
    assert!(st.writes().is_empty());
}
