//! Value-type markers for the per-type stores.

use vstd::prelude::*;

verus! {

/// A value type that a store can hold. A freshly allocated cell starts
/// unwritten; `init` is the state a cell has before any value is
/// published into it.
pub trait Component: Sized {
    fn init(index: u32) -> Option<Self> {
        None
    }
}

/// A component that carries no data of its own.
pub trait Tag: Component {

}

} // verus!
