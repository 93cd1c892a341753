//! Common NT status codes used by the server.

use vstd::prelude::*;

verus! {

pub const SUCCESS: u32 = 0x0000_0000;
pub const PENDING: u32 = 0x0000_0103;
pub const NO_MORE_FILES: u32 = 0x8000_0006;
pub const END_OF_FILE: u32 = 0xC000_0011;
pub const NOT_SUPPORTED: u32 = 0xC000_00BB;
pub const INVALID_PARAMETER: u32 = 0xC000_000D;
pub const NO_SUCH_FILE: u32 = 0xC000_000F;
pub const OBJECT_NAME_NOT_FOUND: u32 = 0xC000_0034;
pub const OBJECT_PATH_NOT_FOUND: u32 = 0xC000_003A;
pub const ACCESS_DENIED: u32 = 0xC000_0022;
pub const BAD_NETWORK_NAME: u32 = 0xC000_00CC;
pub const INVALID_DEVICE_REQUEST: u32 = 0xC000_0010;
pub const BUFFER_TOO_SMALL: u32 = 0xC000_0023;
pub const NOT_A_REPARSE_POINT: u32 = 0xC000_0275;

} // verus!
