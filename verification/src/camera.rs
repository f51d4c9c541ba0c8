//! What changed in the camera since the sky was last drawn.

use vstd::prelude::*;

verus! {

/// Flags telling which of the camera's properties changed.
#[derive(Clone, Copy, PartialEq, Eq, Structural, Debug)]
pub struct CameraChangesState {
    pub changed: bool,
    pub changed_fov: bool,
    pub changed_rotation: bool,
    pub changed_projection: bool,
    pub changed_viewport_rect: bool,
}

impl Default for CameraChangesState {
    /// Nothing has changed.
    fn default() -> (r: Self)
        ensures
            !r.changed,
            !r.changed_fov,
            !r.changed_rotation,
            !r.changed_projection,
            !r.changed_viewport_rect,
    {
        CameraChangesState {
            changed: false,
            changed_fov: false,
            changed_rotation: false,
            changed_projection: false,
            changed_viewport_rect: false,
        }
    }
}

} // verus!
