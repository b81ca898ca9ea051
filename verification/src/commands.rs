//! Command bytes understood and sent by the base.
use vstd::prelude::*;

verus! {

/// Lights a platform with a solid color.
pub const SOLID_COLOR: u8 = 0x90;

/// Wakes the base up; carries the activation text.
pub const ACTIVATE: u8 = 0x80;

/// Asks which platforms hold a tag, and at which tag index.
pub const INDEXES: u8 = 0xa1;

/// Marks a report from the base that answers a request.
pub const RESPONSE: u8 = 0xaa;

/// Asks for the identifier of the tag at a given index.
pub const GET_TAG: u8 = 0xb4;

/// Marks a report from the base that says the tags on it changed.
pub const NOTIFY_OBSERVERS: u8 = 0xab;

} // verus!
