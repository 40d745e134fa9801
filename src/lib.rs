//! Topology-aware window placement persistence.
//!
//! The library fingerprints the monitor layout, records the placement of
//! every eligible top-level window under that layout, and computes the
//! placement calls that bring a window back when the layout reappears.
//! Everything that talks to the operating system lives outside the library
//! and hands it plain values.

pub mod engine;
pub mod geometry;
pub mod hook;
pub mod monitor;
pub mod store;
pub mod topology;
pub mod window;

pub use engine::{AppData, PlacementEngine};
pub use geometry::{Point, Rect, WindowDisplay, SW_MAXIMIZE, SW_SHOWNORMAL};
pub use hook::{EventHandle, EventHook};
pub use monitor::{MonitorDpi, MonitorDpiType, MonitorInfo, OsError};
pub use store::{entry_of, PlacementKey, PlacementStore};
pub use topology::{same_layout, topology_of, TopologyStore};
pub use window::{
    is_capture_eligible, is_restore_eligible, OwnerInfo, ResolvedWindow, WindowIdentity,
};
