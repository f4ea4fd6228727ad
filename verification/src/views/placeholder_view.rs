//! An empty stand-in view.

use vstd::prelude::*;

verus! {

/// A view with no content of its own; useful while a real view is not
/// ready.
#[derive(Clone, Copy, PartialEq, Eq, Structural, Debug)]
pub struct PlaceholderView;

impl PlaceholderView {
    /// The view's display name.
    pub fn name(&self) -> (r: String)
        ensures
            r@ == "Placeholder"@,
    {
        "Placeholder".to_owned()
    }
}

} // verus!
