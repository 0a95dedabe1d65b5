//! Columnar component store built on 128-bit presence/absence bitmaps.
//!
//! Values live in blocks addressed by a 128-wide slot index. A presence
//! bitmap records which slots hold a value, an absence bitmap records
//! slots that are tombstoned, and batch iteration walks maximal runs of
//! contiguous present slots instead of scanning every slot.

pub mod component;
pub mod mask;
pub mod runs;
pub mod block;
pub mod view;
pub mod iter;
pub mod storage;
pub mod scheduler;
pub mod system;
