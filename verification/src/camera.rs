//! The renderer's viewport anchor.

use vstd::prelude::*;

verus! {

/// The world coordinate at the center of the viewport.
#[derive(Debug)]
pub struct Camera {
    pub x: i32,
    pub y: i32,
}

impl Camera {
    /// A camera centered on the origin.
    pub fn new() -> (c: Camera)
        ensures
            c.x == 0,
            c.y == 0,
    {
        Camera { x: 0, y: 0 }
    }
}

} // verus!
