//! The abstract command/data sink that carries everything to the device.

use vstd::prelude::*;
use crate::command::{Command, DisplayError};

verus! {

/// One accepted transmission, as the protocol layer records it: either a
/// command value or a buffer of pixel-data bytes.
pub enum SinkEvent {
    /// A command value was accepted.
    Command(Command),
    /// A pixel-data buffer was accepted.
    Data(Seq<u8>),
}

/// A write-only command/data sink: the transport boundary.
///
/// Implementations wrap a real bus (or a test double) and report `Err` on
/// transmission failure. The protocol layer assumes nothing about an
/// implementation; it keeps its own journal of which sends returned `Ok`.
pub trait DisplayInterface {
    /// Transmit one command value.
    fn send_command(&mut self, cmd: Command) -> Result<(), DisplayError>;

    /// Transmit a buffer of pixel-data bytes.
    fn send_data(&mut self, buf: &[u8]) -> Result<(), DisplayError>;
}

} // verus!
