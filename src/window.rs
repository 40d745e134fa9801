use vstd::prelude::*;

use crate::geometry::WindowDisplay;

verus! {

/// The process and thread that own a window.
#[derive(Clone, Copy, Debug, PartialEq, Eq, Structural)]
pub struct OwnerInfo {
    pub process_id: u32,
    pub thread_id: u32,
}

/// The durable identity of a window: the image path of its owning process,
/// its class name and its title. It outlives the window's handle.
#[derive(Clone, Debug, PartialEq, Eq)]
pub struct WindowIdentity {
    pub exe_path: String,
    pub class_name: String,
    pub title: String,
}

/// The identity of a window as three character sequences.
pub type IdentityView = (Seq<char>, Seq<char>, Seq<char>);

impl View for WindowIdentity {
    type V = IdentityView;

    open spec fn view(&self) -> IdentityView {
        (self.exe_path@, self.class_name@, self.title@)
    }
}

impl WindowIdentity {
    pub fn new(exe_path: String, class_name: String, title: String) -> (r: WindowIdentity)
        ensures
            r@ == (exe_path@, class_name@, title@),
    {
        WindowIdentity { exe_path, class_name, title }
    }

    /// Whether both identities name the same window, field for field.
    pub fn same_as(&self, other: &WindowIdentity) -> (r: bool)
        ensures
            r == (self@ == other@),
    {
        self.exe_path == other.exe_path && self.class_name == other.class_name && self.title
            == other.title
    }

    /// An owned copy of this identity.
    pub fn copied(&self) -> (r: WindowIdentity)
        ensures
            r@ == self@,
    {
        WindowIdentity {
            exe_path: self.exe_path.clone(),
            class_name: self.class_name.clone(),
            title: self.title.clone(),
        }
    }
}

/// A window whose identity and current placement were both resolved.
#[derive(Clone, Debug, PartialEq, Eq)]
pub struct ResolvedWindow {
    pub identity: WindowIdentity,
    pub placement: WindowDisplay,
}

/// A window is captured only when it is visible and is its own root.
pub open spec fn spec_capture_eligible(visible: bool, top_level: bool) -> bool {
    visible && top_level
}

/// A window is restored whenever it is visible.
pub open spec fn spec_restore_eligible(visible: bool) -> bool {
    visible
}

pub fn is_capture_eligible(visible: bool, top_level: bool) -> (r: bool)
    ensures
        r == spec_capture_eligible(visible, top_level),
{
    visible && top_level
}

pub fn is_restore_eligible(visible: bool) -> (r: bool)
    ensures
        r == spec_restore_eligible(visible),
{
    visible
}

} // verus!
