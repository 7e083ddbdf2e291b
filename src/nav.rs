use vstd::prelude::*;

verus! {

/// The section of the site that a page belongs to, marked in its navigation.
#[derive(Clone, Copy, Debug, PartialEq, Eq, Structural)]
pub enum Nav {
    Home,
    Blog,
    CV,
    /// No section: a page outside the three.
    Unselected,
}

} // verus!
