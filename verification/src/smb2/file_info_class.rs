//! File information classes (MS-FSCC 2.4) used by the server.

use vstd::prelude::*;

verus! {

pub const DIRECTORY: u8 = 0x01;
pub const FULL_DIRECTORY: u8 = 0x02;
pub const BOTH_DIRECTORY: u8 = 0x03;
pub const BASIC: u8 = 0x04;
pub const STANDARD: u8 = 0x05;
pub const STREAM: u8 = 22;
pub const ATTRIBUTE_TAG: u8 = 35;
pub const NETWORK_OPEN: u8 = 0x22;
pub const ID_BOTH_DIRECTORY: u8 = 0x25;

} // verus!
