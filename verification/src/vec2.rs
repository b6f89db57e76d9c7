//! A two-component vector of signed 16-bit coordinates, the position and
//! size type of every primitive.
use vstd::prelude::*;

verus! {

/// A 2D vector with signed 16-bit components: a framebuffer position,
/// or a (possibly negative) extent.
#[derive(Clone, Copy, Eq, PartialEq, Structural, Debug)]
pub struct I16Vec2 {
    pub x: i16,
    pub y: i16,
}

impl I16Vec2 {
    pub fn new(x: i16, y: i16) -> (v: Self)
        ensures
            v == (I16Vec2 { x, y }),
    {
        I16Vec2 { x, y }
    }

    /// The vector with both components equal to `v`.
    pub fn splat(v: i16) -> (r: Self)
        ensures
            r == (I16Vec2 { x: v, y: v }),
    {
        I16Vec2 { x: v, y: v }
    }
}

} // verus!
