//! The legacy element palette tags.

use vstd::prelude::*;

verus! {

/// The early, reduced palette of element kinds. The full simulation runs
/// on [`crate::species::Species`]; this tag survives for palette tooling
/// that predates it.
#[derive(Clone, Copy, PartialEq, Eq, Structural, Debug)]
pub enum ElementType {
    Empty,
    Wall,
    Dust,
}

} // verus!
