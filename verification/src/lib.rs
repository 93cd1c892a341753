//! A read-only file server for virtual machines, speaking SMB2 over VMBus
//! (vSMB), with its vmbfs companion for boot files.
//!
//! Nothing here performs I/O. The layers, from the wire up: [`wire`] and
//! [`text`] (fields and names), [`smb2`] and [`protocol`] (records and
//! framing), [`backing`], [`listing`] and [`host`] (the filesystem, as the
//! server sees it), [`encode`] (information classes), [`server`] (the SMB2
//! commands), [`connection`] (one vSMB connection) and [`device`].

pub mod backing;
pub mod connection;
pub mod device;
pub mod dispatch;
pub mod encode;
pub mod host;
pub mod listing;
pub mod protocol;
pub mod server;
pub mod smb2;
pub mod text;
pub mod vmbfs;
pub mod wire;
