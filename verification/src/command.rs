//! Controller command values and the transport error.

use vstd::prelude::*;

verus! {

/// A command value for a page-addressed display controller.
///
/// How a command is encoded into wire bytes is the transport's business;
/// this layer decides only which commands are issued, with which arguments,
/// and in which order.
#[derive(Clone, Copy, Debug, PartialEq, Eq, Structural)]
pub enum Command {
    /// Select the page that subsequent data bytes land in.
    PageAddress(u8),
    /// Select the page, in the wider encoding some controllers need.
    LargePageAddress(u8),
    /// Low nibble of the column address.
    ColumnAddressLow(u8),
    /// High nibble of the column address.
    ColumnAddressHigh(u8),
    /// Mirror the segment (column) scan direction.
    SegmentRemap(bool),
    /// Reverse the common (row) scan direction.
    ReverseComDir(bool),
    /// Turn the display panel on or off.
    DisplayOn(bool),
    /// Set the display contrast.
    Contrast(u8),
    /// Shift the display start line.
    DisplayOffset(u8),
    /// Configure the common pads' hardware layout.
    ComPinConfig(bool),
}

/// The one error of this layer: the transport failed to transmit.
///
/// Out-of-range coordinates, zero-area rectangles and empty dirty regions
/// are never errors; they are defined as no-ops.
#[derive(Clone, Copy, Debug, PartialEq, Eq, Structural)]
pub struct DisplayError;

} // verus!
