//! Display rotation and the shared coordinate-swap transform.

use vstd::prelude::*;

verus! {

/// Display orientation.
///
/// At 90 and 270 degrees the logical axes are exchanged before addressing;
/// no mirroring happens here (the controller's own segment-remap and
/// common-direction settings handle that).
#[derive(Clone, Copy, Debug, PartialEq, Eq, Structural)]
pub enum DisplayRotation {
    /// No rotation.
    Rotate0,
    /// Rotate by 90 degrees clockwise.
    Rotate90,
    /// Rotate by 180 degrees clockwise.
    Rotate180,
    /// Rotate by 270 degrees clockwise.
    Rotate270,
}

impl DisplayRotation {
    /// True when the logical axes are exchanged before addressing.
    pub open spec fn spec_swaps_axes(self) -> bool {
        self is Rotate90 || self is Rotate270
    }

    /// Exec mirror of [`Self::spec_swaps_axes`].
    #[verifier::when_used_as_spec(spec_swaps_axes)]
    pub fn swaps_axes(self) -> (r: bool)
        ensures
            r == self.spec_swaps_axes(),
    {
        matches!(self, DisplayRotation::Rotate90 | DisplayRotation::Rotate270)
    }

    /// Logical-to-physical coordinate mapping for this rotation.
    pub open spec fn spec_transform(self, x: u32, y: u32) -> (u32, u32) {
        if self.spec_swaps_axes() {
            (y, x)
        } else {
            (x, y)
        }
    }

    /// Map logical coordinates to physical coordinates.
    pub fn transform(self, x: u32, y: u32) -> (r: (u32, u32))
        ensures
            r == self.spec_transform(x, y),
    {
        if self.swaps_axes() {
            (y, x)
        } else {
            (x, y)
        }
    }
}

} // verus!
