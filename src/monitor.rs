use vstd::prelude::*;

use crate::geometry::Rect;

verus! {

/// What the system reports of one display.
#[derive(Clone, Debug, PartialEq, Eq)]
pub struct MonitorInfo {
    /// Whether or not the monitor is the primary monitor
    pub primary: bool,
    /// A rectangle specifying the monitor's area in virtual screen coordinates
    pub rect: Rect,
    /// A rectangle specifying the monitor's work area
    pub work: Rect,
    /// The name of the monitor
    pub name: String,
}

/// Which of the system's DPI values to query for a monitor.
#[derive(Clone, Copy, Debug, Default, PartialEq, Eq, Structural)]
pub enum MonitorDpiType {
    #[default]
    Effective,
    Angular,
    Raw,
}

impl MonitorDpiType {
    /// The numeric code of this kind in the system's enumeration.
    pub open spec fn spec_code(self) -> u32 {
        match self {
            MonitorDpiType::Effective => 0,
            MonitorDpiType::Angular => 1,
            MonitorDpiType::Raw => 2,
        }
    }

    pub fn code(&self) -> (r: u32)
        ensures
            r == self.spec_code(),
    {
        match self {
            MonitorDpiType::Effective => 0,
            MonitorDpiType::Angular => 1,
            MonitorDpiType::Raw => 2,
        }
    }
}

/// Horizontal and vertical dots per inch of a monitor.
#[derive(Clone, Copy, Debug, Default, PartialEq, Eq, Structural)]
pub struct MonitorDpi {
    pub x: u32,
    pub y: u32,
}

/// A failure reported by the operating system, as its result code.
#[derive(Clone, Copy, Debug, PartialEq, Eq, Structural)]
pub struct OsError {
    pub code: i32,
}

} // verus!
