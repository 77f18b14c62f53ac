//! Controller/panel capability descriptors.

use vstd::prelude::*;
use crate::command::Command;

verus! {

/// Immutable description of one controller + panel combination: dimensions,
/// the column offset added before transmission, the page-address command
/// encoding it expects, and its declarative initialization command table.
pub struct Variant {
    /// Panel width in pixels.
    pub width: u8,
    /// Panel height in pixels; a multiple of 8.
    pub height: u8,
    /// Offset added to every column address before transmission, for
    /// driver columns that are not wired to the panel.
    pub column_offset: u8,
    /// Whether the controller wants the wider page-address encoding.
    pub large_page_address: bool,
    /// Panel-specific register setup, sent verbatim during initialization.
    pub init_sequence: Vec<Command>,
}

impl Variant {
    /// Well-formedness: positive page-aligned dimensions, and a column
    /// offset that keeps every column address within a byte.
    pub open spec fn wf(self) -> bool {
        &&& self.width >= 1
        &&& self.height >= 1
        &&& self.height as int % 8 == 0
        &&& self.width as int + self.column_offset as int <= 256
    }
}

/// Generic 128x64 panel with an SH1106 controller.
#[derive(Clone, Copy, Debug)]
pub struct Sh1106_128_64 {}

impl Sh1106_128_64 {
    /// The capability descriptor of this panel.
    pub fn variant() -> (v: Variant)
        ensures
            v.wf(),
            v.width == 128,
            v.height == 64,
            v.column_offset == 2,
            !v.large_page_address,
            v.init_sequence@ == seq![Command::DisplayOffset(0u8), Command::ComPinConfig(true)],
    {
        let mut init: Vec<Command> = Vec::new();
        init.push(Command::DisplayOffset(0));
        init.push(Command::ComPinConfig(true));
        proof {
            assert(init@ =~= seq![Command::DisplayOffset(0u8), Command::ComPinConfig(true)]);
        }
        Variant {
            width: 128,
            height: 64,
            column_offset: 2,
            large_page_address: false,
            init_sequence: init,
        }
    }
}

} // verus!
