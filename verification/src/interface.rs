//! The grid-facing pieces of the user interface: hit testing and the
//! clickable button. Drawing lives outside the library.

use vstd::prelude::*;

verus! {

/// Whether a point lies inside a window of the given extent.
pub fn is_in_window(x: i32, y: i32, wx: i32, wy: i32) -> (r: bool)
    ensures
        r == (0 <= x < wx && 0 <= y < wy),
{
    x >= 0 && x < wx && y >= 0 && y < wy
}

/// A rectangular click target with a label. Drawing it is the caller's
/// business; the button only answers hit tests.
pub struct Button {
    pub x: i32,
    pub y: i32,
    pub width: i32,
    pub height: i32,
    pub text: String,
}

impl Button {
    /// The extent is nonnegative and the far corner stays representable.
    pub open spec fn wf(self) -> bool {
        &&& 0 <= self.width
        &&& 0 <= self.height
        &&& self.x + self.width <= i32::MAX
        &&& self.y + self.height <= i32::MAX
    }

    /// Whether a point lies strictly inside the button.
    pub open spec fn hovered(self, mx: int, my: int) -> bool {
        self.x < mx < self.x + self.width && self.y < my < self.y + self.height
    }

    pub fn new(x: i32, y: i32, width: i32, height: i32, text: String) -> (b: Button)
        requires
            0 <= width,
            0 <= height,
            x + width <= i32::MAX,
            y + height <= i32::MAX,
        ensures
            b.wf(),
            b.x == x,
            b.y == y,
            b.width == width,
            b.height == height,
            b.text == text,
    {
        Button { x, y, width, height, text }
    }

    /// Whether a press at the given mouse position activates the button.
    pub fn update(&self, mouse: (i32, i32), mouse_pressed: bool) -> (r: bool)
        requires
            self.wf(),
        ensures
            r == (self.hovered(mouse.0 as int, mouse.1 as int) && mouse_pressed),
    {
        mouse.0 > self.x && mouse.0 < self.x + self.width && mouse.1 > self.y && mouse.1 < self.y
            + self.height && mouse_pressed
    }
}

} // verus!
