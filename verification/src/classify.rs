//! Orientation classification of a page image from its pixel dimensions.

use vstd::prelude::*;

verus! {

/// How a page image is classified: a portrait scan is a single page and
/// takes one canonical index; a landscape or square scan is a double-page
/// spread and takes two consecutive indices.
#[derive(Clone, Copy, PartialEq, Eq, Structural, Debug)]
pub enum PageKind {
    Single,
    Double,
}

/// A strictly taller-than-wide image is a single page; anything else,
/// a square image included, is a double-page spread.
pub open spec fn classify_spec(width: nat, height: nat) -> PageKind {
    if height > width {
        PageKind::Single
    } else {
        PageKind::Double
    }
}

/// Classify an image by its pixel dimensions.
pub fn classify(width: usize, height: usize) -> (r: PageKind)
    ensures
        r == classify_spec(width as nat, height as nat),
{
    if height > width {
        PageKind::Single
    } else {
        PageKind::Double
    }
}

} // verus!
