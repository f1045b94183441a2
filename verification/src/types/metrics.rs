//! Positioning values.

use vstd::prelude::*;

verus! {

/// An adjustment of the placement and advance of a glyph. A part that is
/// `None` is left out of the encoded record.
#[derive(Debug, Clone, Copy, PartialEq, Eq, Structural)]
pub struct ValueRecord {
    pub x_placement: Option<i16>,
    pub y_placement: Option<i16>,
    pub x_advance: Option<i16>,
    pub y_advance: Option<i16>,
}

/// An attachment point on a glyph, optionally tied to a point of its contour.
#[derive(Debug, Clone, Copy, PartialEq, Eq, Structural)]
pub struct Anchor {
    pub x: i16,
    pub y: i16,
    pub contourpoint: Option<u16>,
}

impl ValueRecord {
    /// The record that adjusts nothing.
    pub fn new() -> (r: ValueRecord)
        ensures
            r == (ValueRecord {
                x_placement: None,
                y_placement: None,
                x_advance: None,
                y_advance: None,
            }),
    {
        ValueRecord { x_placement: None, y_placement: None, x_advance: None, y_advance: None }
    }
}

impl Anchor {
    /// The anchor at the given position.
    pub fn new(x: i16, y: i16) -> (r: Anchor)
        ensures
            r == (Anchor { x, y, contourpoint: None }),
    {
        Anchor { x, y, contourpoint: None }
    }
}

} // verus!
