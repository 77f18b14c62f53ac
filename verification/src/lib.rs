//! Driver core for page-addressed monochrome displays.
//!
//! Pixels are packed one bit each into vertical 8-pixel bytes ("pages").
//! The crate verifies the framebuffer representation, the rotation-aware
//! pixel and rectangle write algorithms, and the protocol layer that turns
//! logical draw requests into device command sequences.

pub mod command;
pub mod dirty;
pub mod graphics;
pub mod interface;
pub mod plane;
pub mod properties;
pub mod rect;
pub mod rotation;
pub mod tiled;
pub mod variant;
