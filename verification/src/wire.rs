//! Control bytes of the wire format.

use vstd::prelude::*;

verus! {

/// Start marker: opens a frame.
pub const STX: u8 = 0x02;

/// End marker: closes a frame.
pub const ETX: u8 = 0x03;

/// Line feed: opens a group.
pub const LF: u8 = 0x0A;

/// Carriage return: closes a group.
pub const CR: u8 = 0x0D;

/// Space: separates the fields of a group.
pub const SP: u8 = 0x20;

} // verus!
