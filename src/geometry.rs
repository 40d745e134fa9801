use vstd::prelude::*;

verus! {

/// Show command of a window shown in its normal (restored) state.
pub const SW_SHOWNORMAL: u32 = 1;

/// Show command of a maximized window.
pub const SW_MAXIMIZE: u32 = 3;

/// A position in screen coordinates.
#[derive(Clone, Copy, Debug, PartialEq, Eq, Structural)]
pub struct Point {
    pub x: i32,
    pub y: i32,
}

/// A rectangle in screen coordinates.
#[derive(Clone, Copy, Debug, PartialEq, Eq, Structural)]
pub struct Rect {
    pub left: i32,
    pub top: i32,
    pub right: i32,
    pub bottom: i32,
}

/// Absolute value of an integer.
pub open spec fn abs(v: int) -> int {
    if v < 0 { -v } else { v }
}

impl Rect {
    /// Horizontal extent: the distance between the left and right edges.
    pub open spec fn spec_width(&self) -> int {
        abs(self.right - self.left)
    }

    /// Vertical extent: the distance between the top and bottom edges.
    pub open spec fn spec_height(&self) -> int {
        abs(self.bottom - self.top)
    }

    pub fn width(&self) -> (r: u32)
        ensures
            r == self.spec_width(),
    {
        let d: i64 = self.right as i64 - self.left as i64;
        if d < 0 {
            (-d) as u32
        } else {
            d as u32
        }
    }

    pub fn height(&self) -> (r: u32)
        ensures
            r == self.spec_height(),
    {
        let d: i64 = self.bottom as i64 - self.top as i64;
        if d < 0 {
            (-d) as u32
        } else {
            d as u32
        }
    }
}

/// The placement of a window: its show command, the positions of its
/// minimized and maximized forms, and its rectangle in the normal state.
#[derive(Clone, Copy, Debug, PartialEq, Eq, Structural)]
pub struct WindowDisplay {
    pub show: u32,
    pub min: Point,
    pub max: Point,
    pub rect: Rect,
}

impl WindowDisplay {
    /// The same placement with another show command.
    pub open spec fn spec_with_show(self, show: u32) -> WindowDisplay {
        WindowDisplay { show, ..self }
    }

    pub fn with_show(&self, show: u32) -> (r: WindowDisplay)
        ensures
            r == self.spec_with_show(show),
    {
        WindowDisplay { show, min: self.min, max: self.max, rect: self.rect }
    }

    pub fn is_maximized(&self) -> (r: bool)
        ensures
            r == (self.show == SW_MAXIMIZE),
    {
        self.show == SW_MAXIMIZE
    }
}

} // verus!
