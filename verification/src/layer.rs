//! Placement of a layer-shell surface.

use vstd::prelude::*;

verus! {

/// Margins around the surface, in logical pixels.
#[derive(Clone, Copy, Debug, Default, PartialEq, Eq)]
pub struct Margin {
    pub top: i32,
    pub right: i32,
    pub bottom: i32,
    pub left: i32,
}

impl Margin {
    /// The same margin on every side.
    pub fn same(px: i32) -> (r: Margin)
        ensures
            r.top == px,
            r.right == px,
            r.bottom == px,
            r.left == px,
    {
        Margin { top: px, right: px, bottom: px, left: px }
    }
}

} // verus!
