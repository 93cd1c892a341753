//! SMB2 command codes (MS-SMB2 2.2.1).

use vstd::prelude::*;

verus! {

pub const NEGOTIATE: u16 = 0x0000;
pub const SESSION_SETUP: u16 = 0x0001;
pub const LOGOFF: u16 = 0x0002;
pub const TREE_CONNECT: u16 = 0x0003;
pub const TREE_DISCONNECT: u16 = 0x0004;
pub const CREATE: u16 = 0x0005;
pub const CLOSE: u16 = 0x0006;
pub const FLUSH: u16 = 0x0007;
pub const READ: u16 = 0x0008;
pub const WRITE: u16 = 0x0009;
pub const IOCTL: u16 = 0x000B;
pub const QUERY_DIRECTORY: u16 = 0x000E;
pub const QUERY_INFO: u16 = 0x0010;

} // verus!
