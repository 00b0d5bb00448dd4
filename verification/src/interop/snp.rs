//! Changes of the state of pages.
use vstd::prelude::*;

verus! {

/// What the host is asked to do with pages.
#[derive(Clone, Copy, PartialEq, Eq, Structural, Debug)]
pub enum PageStateChangeOp {
    PscPrivate,
    PscShared,
    PscPsmash,
    PscUnsmash,
}

} // verus!
