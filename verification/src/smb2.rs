//! Minimal SMB2 wire structures for the vSMB read-only server.
//!
//! These follow the MS-SMB2 protocol. Only the subset needed to bring up a
//! read-only share is defined: NEGOTIATE, SESSION_SETUP, TREE_CONNECT, CREATE,
//! QUERY_INFO, QUERY_DIRECTORY, IOCTL, READ, and CLOSE, plus the SMB2 header.
//!
//! All structures are little-endian (see [`Wire`]). The server negotiates SMB
//! 2.0.2 to avoid signing, encryption and leasing requirements, and grants a
//! guest session whatever the security buffer holds.

use crate::wire::{
    array16_of, array4_of, get_array16, get_array4, get_u16, get_u32, get_u64, le16, le32, le64,
    lemma_array16, lemma_array16_of, lemma_array4, lemma_array4_of, lemma_field16, lemma_field32,
    lemma_field64, lemma_field8, lemma_field_bytes, put_bytes, put_u16, put_u32, put_u64, put_u8,
    u16_at, u32_at, u64_at, Wire,
};
use vstd::prelude::*;
use vstd::slice::slice_subrange;

pub mod command;
pub mod file_info_class;
pub mod laws;
pub mod status;

verus! {

/// The SMB2 protocol id: `0xFE 'S' 'M' 'B'`.
pub const PROTOCOL_ID: [u8; 4] = [0xFE, 0x53, 0x4D, 0x42];

/// The signature field of an unsigned message.
pub const NO_SIGNATURE: [u8; 16] = [0, 0, 0, 0, 0, 0, 0, 0, 0, 0, 0, 0, 0, 0, 0, 0];

/// Size of the fixed SMB2 header, in bytes.
pub const HEADER_SIZE: usize = 64;

/// SMB 2.0.2 dialect revision.
pub const DIALECT_2_0_2: u16 = 0x0202;

/// SMB 2.1 dialect revision.
pub const DIALECT_2_1_0: u16 = 0x0210;

/// The "wildcard" revision the client sends to trigger multi-protocol
/// negotiation; the server responds with a concrete dialect.
pub const DIALECT_WILDCARD: u16 = 0x02FF;

/// The `SMB2_FLAGS_SERVER_TO_REDIR` flag, set on all responses.
pub const FLAGS_SERVER_TO_REDIR: u32 = 0x0000_0001;

/// The `SMB2_FLAGS_RELATED_OPERATIONS` flag: later commands in a compound reuse
/// the FileId opened by a preceding `CREATE`.
pub const FLAGS_RELATED_OPERATIONS: u32 = 0x0000_0004;

/// `SMB2_SESSION_FLAG_IS_GUEST`.
pub const SESSION_FLAG_IS_GUEST: u16 = 0x0001;

/// `SMB2_SHARE_TYPE_DISK`.
pub const SHARE_TYPE_DISK: u8 = 0x01;

/// `FILE_OPEN` create disposition (fail if the file does not exist).
pub const FILE_OPEN: u32 = 0x0000_0001;

/// `FILE_CREATED` / `FILE_OPENED` create actions.
pub const CREATE_ACTION_OPENED: u32 = 0x0000_0001;

/// `SMB2_0_INFO_FILE` — QUERY_INFO `InfoType` for file information.
pub const INFO_TYPE_FILE: u8 = 0x01;

/// `SMB2_0_INFO_SECURITY` — QUERY_INFO `InfoType` for the security descriptor.
pub const INFO_TYPE_SECURITY: u8 = 0x03;

/// `FSCTL_GET_REPARSE_POINT`.
pub const FSCTL_GET_REPARSE_POINT: u32 = 0x0009_00A8;

/// `SMB2_RESTART_SCANS` flag on QUERY_DIRECTORY.
pub const RESTART_SCANS: u8 = 0x01;

/// `SMB2_RETURN_SINGLE_ENTRY` flag on QUERY_DIRECTORY: the client wants exactly
/// one entry per response (the Windows inbox redirector sets this).
pub const RETURN_SINGLE_ENTRY: u8 = 0x02;

/// The fixed 64-byte SMB2 (sync) packet header (MS-SMB2 2.2.1.2).
#[derive(Copy, Clone, Debug)]
pub struct Header {
    pub protocol_id: [u8; 4],
    pub structure_size: u16,
    pub credit_charge: u16,
    pub status: u32,
    pub command: u16,
    pub credit_request: u16,
    pub flags: u32,
    pub next_command: u32,
    pub message_id: u64,
    pub reserved: u32,
    pub tree_id: u32,
    pub session_id: u64,
    pub signature: [u8; 16],
}

impl Wire for Header {
    open spec fn wire_len() -> nat {
        64
    }

    open spec fn wire_bytes(&self) -> Seq<u8> {
        Seq::<u8>::empty()
            + self.protocol_id@
            + le16(self.structure_size)
            + le16(self.credit_charge)
            + le32(self.status)
            + le16(self.command)
            + le16(self.credit_request)
            + le32(self.flags)
            + le32(self.next_command)
            + le64(self.message_id)
            + le32(self.reserved)
            + le32(self.tree_id)
            + le64(self.session_id)
            + self.signature@
    }

    open spec fn is_at(&self, s: Seq<u8>) -> bool {
        &&& self.protocol_id@ == s.subrange(0, 4)
        &&& self.structure_size == u16_at(s, 4)
        &&& self.credit_charge == u16_at(s, 6)
        &&& self.status == u32_at(s, 8)
        &&& self.command == u16_at(s, 12)
        &&& self.credit_request == u16_at(s, 14)
        &&& self.flags == u32_at(s, 16)
        &&& self.next_command == u32_at(s, 20)
        &&& self.message_id == u64_at(s, 24)
        &&& self.reserved == u32_at(s, 32)
        &&& self.tree_id == u32_at(s, 36)
        &&& self.session_id == u64_at(s, 40)
        &&& self.signature@ == s.subrange(48, 64)
    }

    proof fn lemma_layout(&self, s: Seq<u8>) {
        let p0 = Seq::<u8>::empty();
        assert(s.take(0) =~= p0);
        lemma_field_bytes(s, p0, self.protocol_id@);
        let p1 = p0 + self.protocol_id@;
        lemma_field16(s, p1, self.structure_size);
        let p2 = p1 + le16(self.structure_size);
        lemma_field16(s, p2, self.credit_charge);
        let p3 = p2 + le16(self.credit_charge);
        lemma_field32(s, p3, self.status);
        let p4 = p3 + le32(self.status);
        lemma_field16(s, p4, self.command);
        let p5 = p4 + le16(self.command);
        lemma_field16(s, p5, self.credit_request);
        let p6 = p5 + le16(self.credit_request);
        lemma_field32(s, p6, self.flags);
        let p7 = p6 + le32(self.flags);
        lemma_field32(s, p7, self.next_command);
        let p8 = p7 + le32(self.next_command);
        lemma_field64(s, p8, self.message_id);
        let p9 = p8 + le64(self.message_id);
        lemma_field32(s, p9, self.reserved);
        let p10 = p9 + le32(self.reserved);
        lemma_field32(s, p10, self.tree_id);
        let p11 = p10 + le32(self.tree_id);
        lemma_field64(s, p11, self.session_id);
        let p12 = p11 + le64(self.session_id);
        lemma_field_bytes(s, p12, self.signature@);
    }

    proof fn lemma_unique(&self, other: &Self, s: Seq<u8>) {
        lemma_array4(self.protocol_id, other.protocol_id);
        lemma_array16(self.signature, other.signature);
    }

    proof fn lemma_readable(s: Seq<u8>) {
        lemma_array4_of(s.subrange(0, 4));
        lemma_array16_of(s.subrange(48, 64));
        let v = Header {
            protocol_id: array4_of(s.subrange(0, 4)),
            structure_size: u16_at(s, 4),
            credit_charge: u16_at(s, 6),
            status: u32_at(s, 8),
            command: u16_at(s, 12),
            credit_request: u16_at(s, 14),
            flags: u32_at(s, 16),
            next_command: u32_at(s, 20),
            message_id: u64_at(s, 24),
            reserved: u32_at(s, 32),
            tree_id: u32_at(s, 36),
            session_id: u64_at(s, 40),
            signature: array16_of(s.subrange(48, 64)),
        };
        assert(v.is_at(s));
    }

    fn read_from_prefix(source: &[u8]) -> (r: Option<(Self, &[u8])>) {
        if source.len() < 64 {
            return None;
        }
        let v = Header {
            protocol_id: get_array4(source, 0),
            structure_size: get_u16(source, 4),
            credit_charge: get_u16(source, 6),
            status: get_u32(source, 8),
            command: get_u16(source, 12),
            credit_request: get_u16(source, 14),
            flags: get_u32(source, 16),
            next_command: get_u32(source, 20),
            message_id: get_u64(source, 24),
            reserved: get_u32(source, 32),
            tree_id: get_u32(source, 36),
            session_id: get_u64(source, 40),
            signature: get_array16(source, 48),
        };
        Some((v, slice_subrange(source, 64, source.len())))
    }

    fn as_bytes(&self) -> (r: Vec<u8>) {
        let mut out: Vec<u8> = Vec::new();
        put_bytes(&mut out, self.protocol_id.as_slice());
        put_u16(&mut out, self.structure_size);
        put_u16(&mut out, self.credit_charge);
        put_u32(&mut out, self.status);
        put_u16(&mut out, self.command);
        put_u16(&mut out, self.credit_request);
        put_u32(&mut out, self.flags);
        put_u32(&mut out, self.next_command);
        put_u64(&mut out, self.message_id);
        put_u32(&mut out, self.reserved);
        put_u32(&mut out, self.tree_id);
        put_u64(&mut out, self.session_id);
        put_bytes(&mut out, self.signature.as_slice());
        out
    }
}

/// NEGOTIATE request, fixed portion (MS-SMB2 2.2.3). Followed by
/// `dialect_count` little-endian `u16` dialects.
#[derive(Copy, Clone, Debug)]
pub struct NegotiateRequest {
    pub structure_size: u16,
    pub dialect_count: u16,
    pub security_mode: u16,
    pub reserved: u16,
    pub capabilities: u32,
    pub client_guid: [u8; 16],
    pub client_start_time: u64,
}

impl Wire for NegotiateRequest {
    open spec fn wire_len() -> nat {
        36
    }

    open spec fn wire_bytes(&self) -> Seq<u8> {
        Seq::<u8>::empty()
            + le16(self.structure_size)
            + le16(self.dialect_count)
            + le16(self.security_mode)
            + le16(self.reserved)
            + le32(self.capabilities)
            + self.client_guid@
            + le64(self.client_start_time)
    }

    open spec fn is_at(&self, s: Seq<u8>) -> bool {
        &&& self.structure_size == u16_at(s, 0)
        &&& self.dialect_count == u16_at(s, 2)
        &&& self.security_mode == u16_at(s, 4)
        &&& self.reserved == u16_at(s, 6)
        &&& self.capabilities == u32_at(s, 8)
        &&& self.client_guid@ == s.subrange(12, 28)
        &&& self.client_start_time == u64_at(s, 28)
    }

    proof fn lemma_layout(&self, s: Seq<u8>) {
        let p0 = Seq::<u8>::empty();
        assert(s.take(0) =~= p0);
        lemma_field16(s, p0, self.structure_size);
        let p1 = p0 + le16(self.structure_size);
        lemma_field16(s, p1, self.dialect_count);
        let p2 = p1 + le16(self.dialect_count);
        lemma_field16(s, p2, self.security_mode);
        let p3 = p2 + le16(self.security_mode);
        lemma_field16(s, p3, self.reserved);
        let p4 = p3 + le16(self.reserved);
        lemma_field32(s, p4, self.capabilities);
        let p5 = p4 + le32(self.capabilities);
        lemma_field_bytes(s, p5, self.client_guid@);
        let p6 = p5 + self.client_guid@;
        lemma_field64(s, p6, self.client_start_time);
    }

    proof fn lemma_unique(&self, other: &Self, s: Seq<u8>) {
        lemma_array16(self.client_guid, other.client_guid);
    }

    proof fn lemma_readable(s: Seq<u8>) {
        lemma_array16_of(s.subrange(12, 28));
        let v = NegotiateRequest {
            structure_size: u16_at(s, 0),
            dialect_count: u16_at(s, 2),
            security_mode: u16_at(s, 4),
            reserved: u16_at(s, 6),
            capabilities: u32_at(s, 8),
            client_guid: array16_of(s.subrange(12, 28)),
            client_start_time: u64_at(s, 28),
        };
        assert(v.is_at(s));
    }

    fn read_from_prefix(source: &[u8]) -> (r: Option<(Self, &[u8])>) {
        if source.len() < 36 {
            return None;
        }
        let v = NegotiateRequest {
            structure_size: get_u16(source, 0),
            dialect_count: get_u16(source, 2),
            security_mode: get_u16(source, 4),
            reserved: get_u16(source, 6),
            capabilities: get_u32(source, 8),
            client_guid: get_array16(source, 12),
            client_start_time: get_u64(source, 28),
        };
        Some((v, slice_subrange(source, 36, source.len())))
    }

    fn as_bytes(&self) -> (r: Vec<u8>) {
        let mut out: Vec<u8> = Vec::new();
        put_u16(&mut out, self.structure_size);
        put_u16(&mut out, self.dialect_count);
        put_u16(&mut out, self.security_mode);
        put_u16(&mut out, self.reserved);
        put_u32(&mut out, self.capabilities);
        put_bytes(&mut out, self.client_guid.as_slice());
        put_u64(&mut out, self.client_start_time);
        out
    }
}

/// NEGOTIATE response, fixed portion (MS-SMB2 2.2.4).
#[derive(Copy, Clone, Debug)]
pub struct NegotiateResponse {
    pub structure_size: u16,
    pub security_mode: u16,
    pub dialect_revision: u16,
    pub negotiate_context_count: u16,
    pub server_guid: [u8; 16],
    pub capabilities: u32,
    pub max_transact_size: u32,
    pub max_read_size: u32,
    pub max_write_size: u32,
    pub system_time: u64,
    pub server_start_time: u64,
    pub security_buffer_offset: u16,
    pub security_buffer_length: u16,
    pub negotiate_context_offset: u32,
}

impl Wire for NegotiateResponse {
    open spec fn wire_len() -> nat {
        64
    }

    open spec fn wire_bytes(&self) -> Seq<u8> {
        Seq::<u8>::empty()
            + le16(self.structure_size)
            + le16(self.security_mode)
            + le16(self.dialect_revision)
            + le16(self.negotiate_context_count)
            + self.server_guid@
            + le32(self.capabilities)
            + le32(self.max_transact_size)
            + le32(self.max_read_size)
            + le32(self.max_write_size)
            + le64(self.system_time)
            + le64(self.server_start_time)
            + le16(self.security_buffer_offset)
            + le16(self.security_buffer_length)
            + le32(self.negotiate_context_offset)
    }

    open spec fn is_at(&self, s: Seq<u8>) -> bool {
        &&& self.structure_size == u16_at(s, 0)
        &&& self.security_mode == u16_at(s, 2)
        &&& self.dialect_revision == u16_at(s, 4)
        &&& self.negotiate_context_count == u16_at(s, 6)
        &&& self.server_guid@ == s.subrange(8, 24)
        &&& self.capabilities == u32_at(s, 24)
        &&& self.max_transact_size == u32_at(s, 28)
        &&& self.max_read_size == u32_at(s, 32)
        &&& self.max_write_size == u32_at(s, 36)
        &&& self.system_time == u64_at(s, 40)
        &&& self.server_start_time == u64_at(s, 48)
        &&& self.security_buffer_offset == u16_at(s, 56)
        &&& self.security_buffer_length == u16_at(s, 58)
        &&& self.negotiate_context_offset == u32_at(s, 60)
    }

    proof fn lemma_layout(&self, s: Seq<u8>) {
        let p0 = Seq::<u8>::empty();
        assert(s.take(0) =~= p0);
        lemma_field16(s, p0, self.structure_size);
        let p1 = p0 + le16(self.structure_size);
        lemma_field16(s, p1, self.security_mode);
        let p2 = p1 + le16(self.security_mode);
        lemma_field16(s, p2, self.dialect_revision);
        let p3 = p2 + le16(self.dialect_revision);
        lemma_field16(s, p3, self.negotiate_context_count);
        let p4 = p3 + le16(self.negotiate_context_count);
        lemma_field_bytes(s, p4, self.server_guid@);
        let p5 = p4 + self.server_guid@;
        lemma_field32(s, p5, self.capabilities);
        let p6 = p5 + le32(self.capabilities);
        lemma_field32(s, p6, self.max_transact_size);
        let p7 = p6 + le32(self.max_transact_size);
        lemma_field32(s, p7, self.max_read_size);
        let p8 = p7 + le32(self.max_read_size);
        lemma_field32(s, p8, self.max_write_size);
        let p9 = p8 + le32(self.max_write_size);
        lemma_field64(s, p9, self.system_time);
        let p10 = p9 + le64(self.system_time);
        lemma_field64(s, p10, self.server_start_time);
        let p11 = p10 + le64(self.server_start_time);
        lemma_field16(s, p11, self.security_buffer_offset);
        let p12 = p11 + le16(self.security_buffer_offset);
        lemma_field16(s, p12, self.security_buffer_length);
        let p13 = p12 + le16(self.security_buffer_length);
        lemma_field32(s, p13, self.negotiate_context_offset);
    }

    proof fn lemma_unique(&self, other: &Self, s: Seq<u8>) {
        lemma_array16(self.server_guid, other.server_guid);
    }

    proof fn lemma_readable(s: Seq<u8>) {
        lemma_array16_of(s.subrange(8, 24));
        let v = NegotiateResponse {
            structure_size: u16_at(s, 0),
            security_mode: u16_at(s, 2),
            dialect_revision: u16_at(s, 4),
            negotiate_context_count: u16_at(s, 6),
            server_guid: array16_of(s.subrange(8, 24)),
            capabilities: u32_at(s, 24),
            max_transact_size: u32_at(s, 28),
            max_read_size: u32_at(s, 32),
            max_write_size: u32_at(s, 36),
            system_time: u64_at(s, 40),
            server_start_time: u64_at(s, 48),
            security_buffer_offset: u16_at(s, 56),
            security_buffer_length: u16_at(s, 58),
            negotiate_context_offset: u32_at(s, 60),
        };
        assert(v.is_at(s));
    }

    fn read_from_prefix(source: &[u8]) -> (r: Option<(Self, &[u8])>) {
        if source.len() < 64 {
            return None;
        }
        let v = NegotiateResponse {
            structure_size: get_u16(source, 0),
            security_mode: get_u16(source, 2),
            dialect_revision: get_u16(source, 4),
            negotiate_context_count: get_u16(source, 6),
            server_guid: get_array16(source, 8),
            capabilities: get_u32(source, 24),
            max_transact_size: get_u32(source, 28),
            max_read_size: get_u32(source, 32),
            max_write_size: get_u32(source, 36),
            system_time: get_u64(source, 40),
            server_start_time: get_u64(source, 48),
            security_buffer_offset: get_u16(source, 56),
            security_buffer_length: get_u16(source, 58),
            negotiate_context_offset: get_u32(source, 60),
        };
        Some((v, slice_subrange(source, 64, source.len())))
    }

    fn as_bytes(&self) -> (r: Vec<u8>) {
        let mut out: Vec<u8> = Vec::new();
        put_u16(&mut out, self.structure_size);
        put_u16(&mut out, self.security_mode);
        put_u16(&mut out, self.dialect_revision);
        put_u16(&mut out, self.negotiate_context_count);
        put_bytes(&mut out, self.server_guid.as_slice());
        put_u32(&mut out, self.capabilities);
        put_u32(&mut out, self.max_transact_size);
        put_u32(&mut out, self.max_read_size);
        put_u32(&mut out, self.max_write_size);
        put_u64(&mut out, self.system_time);
        put_u64(&mut out, self.server_start_time);
        put_u16(&mut out, self.security_buffer_offset);
        put_u16(&mut out, self.security_buffer_length);
        put_u32(&mut out, self.negotiate_context_offset);
        out
    }
}

/// SESSION_SETUP request, fixed portion (MS-SMB2 2.2.5).
#[derive(Copy, Clone, Debug)]
pub struct SessionSetupRequest {
    pub structure_size: u16,
    pub flags: u8,
    pub security_mode: u8,
    pub capabilities: u32,
    pub channel: u32,
    pub security_buffer_offset: u16,
    pub security_buffer_length: u16,
    pub previous_session_id: u64,
}

impl Wire for SessionSetupRequest {
    open spec fn wire_len() -> nat {
        24
    }

    open spec fn wire_bytes(&self) -> Seq<u8> {
        Seq::<u8>::empty()
            + le16(self.structure_size)
            + seq![self.flags]
            + seq![self.security_mode]
            + le32(self.capabilities)
            + le32(self.channel)
            + le16(self.security_buffer_offset)
            + le16(self.security_buffer_length)
            + le64(self.previous_session_id)
    }

    open spec fn is_at(&self, s: Seq<u8>) -> bool {
        &&& self.structure_size == u16_at(s, 0)
        &&& self.flags == s[2]
        &&& self.security_mode == s[3]
        &&& self.capabilities == u32_at(s, 4)
        &&& self.channel == u32_at(s, 8)
        &&& self.security_buffer_offset == u16_at(s, 12)
        &&& self.security_buffer_length == u16_at(s, 14)
        &&& self.previous_session_id == u64_at(s, 16)
    }

    proof fn lemma_layout(&self, s: Seq<u8>) {
        let p0 = Seq::<u8>::empty();
        assert(s.take(0) =~= p0);
        lemma_field16(s, p0, self.structure_size);
        let p1 = p0 + le16(self.structure_size);
        lemma_field8(s, p1, self.flags);
        let p2 = p1 + seq![self.flags];
        lemma_field8(s, p2, self.security_mode);
        let p3 = p2 + seq![self.security_mode];
        lemma_field32(s, p3, self.capabilities);
        let p4 = p3 + le32(self.capabilities);
        lemma_field32(s, p4, self.channel);
        let p5 = p4 + le32(self.channel);
        lemma_field16(s, p5, self.security_buffer_offset);
        let p6 = p5 + le16(self.security_buffer_offset);
        lemma_field16(s, p6, self.security_buffer_length);
        let p7 = p6 + le16(self.security_buffer_length);
        lemma_field64(s, p7, self.previous_session_id);
    }

    proof fn lemma_unique(&self, other: &Self, s: Seq<u8>) {
    }

    proof fn lemma_readable(s: Seq<u8>) {
        let v = SessionSetupRequest {
            structure_size: u16_at(s, 0),
            flags: s[2],
            security_mode: s[3],
            capabilities: u32_at(s, 4),
            channel: u32_at(s, 8),
            security_buffer_offset: u16_at(s, 12),
            security_buffer_length: u16_at(s, 14),
            previous_session_id: u64_at(s, 16),
        };
        assert(v.is_at(s));
    }

    fn read_from_prefix(source: &[u8]) -> (r: Option<(Self, &[u8])>) {
        if source.len() < 24 {
            return None;
        }
        let v = SessionSetupRequest {
            structure_size: get_u16(source, 0),
            flags: source[2],
            security_mode: source[3],
            capabilities: get_u32(source, 4),
            channel: get_u32(source, 8),
            security_buffer_offset: get_u16(source, 12),
            security_buffer_length: get_u16(source, 14),
            previous_session_id: get_u64(source, 16),
        };
        Some((v, slice_subrange(source, 24, source.len())))
    }

    fn as_bytes(&self) -> (r: Vec<u8>) {
        let mut out: Vec<u8> = Vec::new();
        put_u16(&mut out, self.structure_size);
        put_u8(&mut out, self.flags);
        put_u8(&mut out, self.security_mode);
        put_u32(&mut out, self.capabilities);
        put_u32(&mut out, self.channel);
        put_u16(&mut out, self.security_buffer_offset);
        put_u16(&mut out, self.security_buffer_length);
        put_u64(&mut out, self.previous_session_id);
        out
    }
}

/// SESSION_SETUP response, fixed portion (MS-SMB2 2.2.6).
#[derive(Copy, Clone, Debug)]
pub struct SessionSetupResponse {
    pub structure_size: u16,
    pub session_flags: u16,
    pub security_buffer_offset: u16,
    pub security_buffer_length: u16,
}

impl Wire for SessionSetupResponse {
    open spec fn wire_len() -> nat {
        8
    }

    open spec fn wire_bytes(&self) -> Seq<u8> {
        Seq::<u8>::empty()
            + le16(self.structure_size)
            + le16(self.session_flags)
            + le16(self.security_buffer_offset)
            + le16(self.security_buffer_length)
    }

    open spec fn is_at(&self, s: Seq<u8>) -> bool {
        &&& self.structure_size == u16_at(s, 0)
        &&& self.session_flags == u16_at(s, 2)
        &&& self.security_buffer_offset == u16_at(s, 4)
        &&& self.security_buffer_length == u16_at(s, 6)
    }

    proof fn lemma_layout(&self, s: Seq<u8>) {
        let p0 = Seq::<u8>::empty();
        assert(s.take(0) =~= p0);
        lemma_field16(s, p0, self.structure_size);
        let p1 = p0 + le16(self.structure_size);
        lemma_field16(s, p1, self.session_flags);
        let p2 = p1 + le16(self.session_flags);
        lemma_field16(s, p2, self.security_buffer_offset);
        let p3 = p2 + le16(self.security_buffer_offset);
        lemma_field16(s, p3, self.security_buffer_length);
    }

    proof fn lemma_unique(&self, other: &Self, s: Seq<u8>) {
    }

    proof fn lemma_readable(s: Seq<u8>) {
        let v = SessionSetupResponse {
            structure_size: u16_at(s, 0),
            session_flags: u16_at(s, 2),
            security_buffer_offset: u16_at(s, 4),
            security_buffer_length: u16_at(s, 6),
        };
        assert(v.is_at(s));
    }

    fn read_from_prefix(source: &[u8]) -> (r: Option<(Self, &[u8])>) {
        if source.len() < 8 {
            return None;
        }
        let v = SessionSetupResponse {
            structure_size: get_u16(source, 0),
            session_flags: get_u16(source, 2),
            security_buffer_offset: get_u16(source, 4),
            security_buffer_length: get_u16(source, 6),
        };
        Some((v, slice_subrange(source, 8, source.len())))
    }

    fn as_bytes(&self) -> (r: Vec<u8>) {
        let mut out: Vec<u8> = Vec::new();
        put_u16(&mut out, self.structure_size);
        put_u16(&mut out, self.session_flags);
        put_u16(&mut out, self.security_buffer_offset);
        put_u16(&mut out, self.security_buffer_length);
        out
    }
}

/// TREE_CONNECT request, fixed portion (MS-SMB2 2.2.9). Followed by the share
/// path as UTF-16.
#[derive(Copy, Clone, Debug)]
pub struct TreeConnectRequest {
    pub structure_size: u16,
    pub reserved: u16,
    pub path_offset: u16,
    pub path_length: u16,
}

impl Wire for TreeConnectRequest {
    open spec fn wire_len() -> nat {
        8
    }

    open spec fn wire_bytes(&self) -> Seq<u8> {
        Seq::<u8>::empty()
            + le16(self.structure_size)
            + le16(self.reserved)
            + le16(self.path_offset)
            + le16(self.path_length)
    }

    open spec fn is_at(&self, s: Seq<u8>) -> bool {
        &&& self.structure_size == u16_at(s, 0)
        &&& self.reserved == u16_at(s, 2)
        &&& self.path_offset == u16_at(s, 4)
        &&& self.path_length == u16_at(s, 6)
    }

    proof fn lemma_layout(&self, s: Seq<u8>) {
        let p0 = Seq::<u8>::empty();
        assert(s.take(0) =~= p0);
        lemma_field16(s, p0, self.structure_size);
        let p1 = p0 + le16(self.structure_size);
        lemma_field16(s, p1, self.reserved);
        let p2 = p1 + le16(self.reserved);
        lemma_field16(s, p2, self.path_offset);
        let p3 = p2 + le16(self.path_offset);
        lemma_field16(s, p3, self.path_length);
    }

    proof fn lemma_unique(&self, other: &Self, s: Seq<u8>) {
    }

    proof fn lemma_readable(s: Seq<u8>) {
        let v = TreeConnectRequest {
            structure_size: u16_at(s, 0),
            reserved: u16_at(s, 2),
            path_offset: u16_at(s, 4),
            path_length: u16_at(s, 6),
        };
        assert(v.is_at(s));
    }

    fn read_from_prefix(source: &[u8]) -> (r: Option<(Self, &[u8])>) {
        if source.len() < 8 {
            return None;
        }
        let v = TreeConnectRequest {
            structure_size: get_u16(source, 0),
            reserved: get_u16(source, 2),
            path_offset: get_u16(source, 4),
            path_length: get_u16(source, 6),
        };
        Some((v, slice_subrange(source, 8, source.len())))
    }

    fn as_bytes(&self) -> (r: Vec<u8>) {
        let mut out: Vec<u8> = Vec::new();
        put_u16(&mut out, self.structure_size);
        put_u16(&mut out, self.reserved);
        put_u16(&mut out, self.path_offset);
        put_u16(&mut out, self.path_length);
        out
    }
}

/// TREE_CONNECT response (MS-SMB2 2.2.10).
#[derive(Copy, Clone, Debug)]
pub struct TreeConnectResponse {
    pub structure_size: u16,
    pub share_type: u8,
    pub reserved: u8,
    pub share_flags: u32,
    pub capabilities: u32,
    pub maximal_access: u32,
}

impl Wire for TreeConnectResponse {
    open spec fn wire_len() -> nat {
        16
    }

    open spec fn wire_bytes(&self) -> Seq<u8> {
        Seq::<u8>::empty()
            + le16(self.structure_size)
            + seq![self.share_type]
            + seq![self.reserved]
            + le32(self.share_flags)
            + le32(self.capabilities)
            + le32(self.maximal_access)
    }

    open spec fn is_at(&self, s: Seq<u8>) -> bool {
        &&& self.structure_size == u16_at(s, 0)
        &&& self.share_type == s[2]
        &&& self.reserved == s[3]
        &&& self.share_flags == u32_at(s, 4)
        &&& self.capabilities == u32_at(s, 8)
        &&& self.maximal_access == u32_at(s, 12)
    }

    proof fn lemma_layout(&self, s: Seq<u8>) {
        let p0 = Seq::<u8>::empty();
        assert(s.take(0) =~= p0);
        lemma_field16(s, p0, self.structure_size);
        let p1 = p0 + le16(self.structure_size);
        lemma_field8(s, p1, self.share_type);
        let p2 = p1 + seq![self.share_type];
        lemma_field8(s, p2, self.reserved);
        let p3 = p2 + seq![self.reserved];
        lemma_field32(s, p3, self.share_flags);
        let p4 = p3 + le32(self.share_flags);
        lemma_field32(s, p4, self.capabilities);
        let p5 = p4 + le32(self.capabilities);
        lemma_field32(s, p5, self.maximal_access);
    }

    proof fn lemma_unique(&self, other: &Self, s: Seq<u8>) {
    }

    proof fn lemma_readable(s: Seq<u8>) {
        let v = TreeConnectResponse {
            structure_size: u16_at(s, 0),
            share_type: s[2],
            reserved: s[3],
            share_flags: u32_at(s, 4),
            capabilities: u32_at(s, 8),
            maximal_access: u32_at(s, 12),
        };
        assert(v.is_at(s));
    }

    fn read_from_prefix(source: &[u8]) -> (r: Option<(Self, &[u8])>) {
        if source.len() < 16 {
            return None;
        }
        let v = TreeConnectResponse {
            structure_size: get_u16(source, 0),
            share_type: source[2],
            reserved: source[3],
            share_flags: get_u32(source, 4),
            capabilities: get_u32(source, 8),
            maximal_access: get_u32(source, 12),
        };
        Some((v, slice_subrange(source, 16, source.len())))
    }

    fn as_bytes(&self) -> (r: Vec<u8>) {
        let mut out: Vec<u8> = Vec::new();
        put_u16(&mut out, self.structure_size);
        put_u8(&mut out, self.share_type);
        put_u8(&mut out, self.reserved);
        put_u32(&mut out, self.share_flags);
        put_u32(&mut out, self.capabilities);
        put_u32(&mut out, self.maximal_access);
        out
    }
}

/// CREATE request, fixed portion (MS-SMB2 2.2.13). Followed by the file name
/// (UTF-16) and optional create contexts.
#[derive(Copy, Clone, Debug)]
pub struct CreateRequest {
    pub structure_size: u16,
    pub security_flags: u8,
    pub requested_oplock_level: u8,
    pub impersonation_level: u32,
    pub smb_create_flags: u64,
    pub reserved: u64,
    pub desired_access: u32,
    pub file_attributes: u32,
    pub share_access: u32,
    pub create_disposition: u32,
    pub create_options: u32,
    pub name_offset: u16,
    pub name_length: u16,
    pub create_contexts_offset: u32,
    pub create_contexts_length: u32,
}

impl Wire for CreateRequest {
    open spec fn wire_len() -> nat {
        56
    }

    open spec fn wire_bytes(&self) -> Seq<u8> {
        Seq::<u8>::empty()
            + le16(self.structure_size)
            + seq![self.security_flags]
            + seq![self.requested_oplock_level]
            + le32(self.impersonation_level)
            + le64(self.smb_create_flags)
            + le64(self.reserved)
            + le32(self.desired_access)
            + le32(self.file_attributes)
            + le32(self.share_access)
            + le32(self.create_disposition)
            + le32(self.create_options)
            + le16(self.name_offset)
            + le16(self.name_length)
            + le32(self.create_contexts_offset)
            + le32(self.create_contexts_length)
    }

    open spec fn is_at(&self, s: Seq<u8>) -> bool {
        &&& self.structure_size == u16_at(s, 0)
        &&& self.security_flags == s[2]
        &&& self.requested_oplock_level == s[3]
        &&& self.impersonation_level == u32_at(s, 4)
        &&& self.smb_create_flags == u64_at(s, 8)
        &&& self.reserved == u64_at(s, 16)
        &&& self.desired_access == u32_at(s, 24)
        &&& self.file_attributes == u32_at(s, 28)
        &&& self.share_access == u32_at(s, 32)
        &&& self.create_disposition == u32_at(s, 36)
        &&& self.create_options == u32_at(s, 40)
        &&& self.name_offset == u16_at(s, 44)
        &&& self.name_length == u16_at(s, 46)
        &&& self.create_contexts_offset == u32_at(s, 48)
        &&& self.create_contexts_length == u32_at(s, 52)
    }

    proof fn lemma_layout(&self, s: Seq<u8>) {
        let p0 = Seq::<u8>::empty();
        assert(s.take(0) =~= p0);
        lemma_field16(s, p0, self.structure_size);
        let p1 = p0 + le16(self.structure_size);
        lemma_field8(s, p1, self.security_flags);
        let p2 = p1 + seq![self.security_flags];
        lemma_field8(s, p2, self.requested_oplock_level);
        let p3 = p2 + seq![self.requested_oplock_level];
        lemma_field32(s, p3, self.impersonation_level);
        let p4 = p3 + le32(self.impersonation_level);
        lemma_field64(s, p4, self.smb_create_flags);
        let p5 = p4 + le64(self.smb_create_flags);
        lemma_field64(s, p5, self.reserved);
        let p6 = p5 + le64(self.reserved);
        lemma_field32(s, p6, self.desired_access);
        let p7 = p6 + le32(self.desired_access);
        lemma_field32(s, p7, self.file_attributes);
        let p8 = p7 + le32(self.file_attributes);
        lemma_field32(s, p8, self.share_access);
        let p9 = p8 + le32(self.share_access);
        lemma_field32(s, p9, self.create_disposition);
        let p10 = p9 + le32(self.create_disposition);
        lemma_field32(s, p10, self.create_options);
        let p11 = p10 + le32(self.create_options);
        lemma_field16(s, p11, self.name_offset);
        let p12 = p11 + le16(self.name_offset);
        lemma_field16(s, p12, self.name_length);
        let p13 = p12 + le16(self.name_length);
        lemma_field32(s, p13, self.create_contexts_offset);
        let p14 = p13 + le32(self.create_contexts_offset);
        lemma_field32(s, p14, self.create_contexts_length);
    }

    proof fn lemma_unique(&self, other: &Self, s: Seq<u8>) {
    }

    proof fn lemma_readable(s: Seq<u8>) {
        let v = CreateRequest {
            structure_size: u16_at(s, 0),
            security_flags: s[2],
            requested_oplock_level: s[3],
            impersonation_level: u32_at(s, 4),
            smb_create_flags: u64_at(s, 8),
            reserved: u64_at(s, 16),
            desired_access: u32_at(s, 24),
            file_attributes: u32_at(s, 28),
            share_access: u32_at(s, 32),
            create_disposition: u32_at(s, 36),
            create_options: u32_at(s, 40),
            name_offset: u16_at(s, 44),
            name_length: u16_at(s, 46),
            create_contexts_offset: u32_at(s, 48),
            create_contexts_length: u32_at(s, 52),
        };
        assert(v.is_at(s));
    }

    fn read_from_prefix(source: &[u8]) -> (r: Option<(Self, &[u8])>) {
        if source.len() < 56 {
            return None;
        }
        let v = CreateRequest {
            structure_size: get_u16(source, 0),
            security_flags: source[2],
            requested_oplock_level: source[3],
            impersonation_level: get_u32(source, 4),
            smb_create_flags: get_u64(source, 8),
            reserved: get_u64(source, 16),
            desired_access: get_u32(source, 24),
            file_attributes: get_u32(source, 28),
            share_access: get_u32(source, 32),
            create_disposition: get_u32(source, 36),
            create_options: get_u32(source, 40),
            name_offset: get_u16(source, 44),
            name_length: get_u16(source, 46),
            create_contexts_offset: get_u32(source, 48),
            create_contexts_length: get_u32(source, 52),
        };
        Some((v, slice_subrange(source, 56, source.len())))
    }

    fn as_bytes(&self) -> (r: Vec<u8>) {
        let mut out: Vec<u8> = Vec::new();
        put_u16(&mut out, self.structure_size);
        put_u8(&mut out, self.security_flags);
        put_u8(&mut out, self.requested_oplock_level);
        put_u32(&mut out, self.impersonation_level);
        put_u64(&mut out, self.smb_create_flags);
        put_u64(&mut out, self.reserved);
        put_u32(&mut out, self.desired_access);
        put_u32(&mut out, self.file_attributes);
        put_u32(&mut out, self.share_access);
        put_u32(&mut out, self.create_disposition);
        put_u32(&mut out, self.create_options);
        put_u16(&mut out, self.name_offset);
        put_u16(&mut out, self.name_length);
        put_u32(&mut out, self.create_contexts_offset);
        put_u32(&mut out, self.create_contexts_length);
        out
    }
}

/// CREATE response, fixed portion (MS-SMB2 2.2.14).
#[derive(Copy, Clone, Debug)]
pub struct CreateResponse {
    pub structure_size: u16,
    pub oplock_level: u8,
    pub flags: u8,
    pub create_action: u32,
    pub creation_time: u64,
    pub last_access_time: u64,
    pub last_write_time: u64,
    pub change_time: u64,
    pub allocation_size: u64,
    pub end_of_file: u64,
    pub file_attributes: u32,
    pub reserved2: u32,
    pub file_id: [u8; 16],
    pub create_contexts_offset: u32,
    pub create_contexts_length: u32,
}

impl Wire for CreateResponse {
    open spec fn wire_len() -> nat {
        88
    }

    open spec fn wire_bytes(&self) -> Seq<u8> {
        Seq::<u8>::empty()
            + le16(self.structure_size)
            + seq![self.oplock_level]
            + seq![self.flags]
            + le32(self.create_action)
            + le64(self.creation_time)
            + le64(self.last_access_time)
            + le64(self.last_write_time)
            + le64(self.change_time)
            + le64(self.allocation_size)
            + le64(self.end_of_file)
            + le32(self.file_attributes)
            + le32(self.reserved2)
            + self.file_id@
            + le32(self.create_contexts_offset)
            + le32(self.create_contexts_length)
    }

    open spec fn is_at(&self, s: Seq<u8>) -> bool {
        &&& self.structure_size == u16_at(s, 0)
        &&& self.oplock_level == s[2]
        &&& self.flags == s[3]
        &&& self.create_action == u32_at(s, 4)
        &&& self.creation_time == u64_at(s, 8)
        &&& self.last_access_time == u64_at(s, 16)
        &&& self.last_write_time == u64_at(s, 24)
        &&& self.change_time == u64_at(s, 32)
        &&& self.allocation_size == u64_at(s, 40)
        &&& self.end_of_file == u64_at(s, 48)
        &&& self.file_attributes == u32_at(s, 56)
        &&& self.reserved2 == u32_at(s, 60)
        &&& self.file_id@ == s.subrange(64, 80)
        &&& self.create_contexts_offset == u32_at(s, 80)
        &&& self.create_contexts_length == u32_at(s, 84)
    }

    proof fn lemma_layout(&self, s: Seq<u8>) {
        let p0 = Seq::<u8>::empty();
        assert(s.take(0) =~= p0);
        lemma_field16(s, p0, self.structure_size);
        let p1 = p0 + le16(self.structure_size);
        lemma_field8(s, p1, self.oplock_level);
        let p2 = p1 + seq![self.oplock_level];
        lemma_field8(s, p2, self.flags);
        let p3 = p2 + seq![self.flags];
        lemma_field32(s, p3, self.create_action);
        let p4 = p3 + le32(self.create_action);
        lemma_field64(s, p4, self.creation_time);
        let p5 = p4 + le64(self.creation_time);
        lemma_field64(s, p5, self.last_access_time);
        let p6 = p5 + le64(self.last_access_time);
        lemma_field64(s, p6, self.last_write_time);
        let p7 = p6 + le64(self.last_write_time);
        lemma_field64(s, p7, self.change_time);
        let p8 = p7 + le64(self.change_time);
        lemma_field64(s, p8, self.allocation_size);
        let p9 = p8 + le64(self.allocation_size);
        lemma_field64(s, p9, self.end_of_file);
        let p10 = p9 + le64(self.end_of_file);
        lemma_field32(s, p10, self.file_attributes);
        let p11 = p10 + le32(self.file_attributes);
        lemma_field32(s, p11, self.reserved2);
        let p12 = p11 + le32(self.reserved2);
        lemma_field_bytes(s, p12, self.file_id@);
        let p13 = p12 + self.file_id@;
        lemma_field32(s, p13, self.create_contexts_offset);
        let p14 = p13 + le32(self.create_contexts_offset);
        lemma_field32(s, p14, self.create_contexts_length);
    }

    proof fn lemma_unique(&self, other: &Self, s: Seq<u8>) {
        lemma_array16(self.file_id, other.file_id);
    }

    proof fn lemma_readable(s: Seq<u8>) {
        lemma_array16_of(s.subrange(64, 80));
        let v = CreateResponse {
            structure_size: u16_at(s, 0),
            oplock_level: s[2],
            flags: s[3],
            create_action: u32_at(s, 4),
            creation_time: u64_at(s, 8),
            last_access_time: u64_at(s, 16),
            last_write_time: u64_at(s, 24),
            change_time: u64_at(s, 32),
            allocation_size: u64_at(s, 40),
            end_of_file: u64_at(s, 48),
            file_attributes: u32_at(s, 56),
            reserved2: u32_at(s, 60),
            file_id: array16_of(s.subrange(64, 80)),
            create_contexts_offset: u32_at(s, 80),
            create_contexts_length: u32_at(s, 84),
        };
        assert(v.is_at(s));
    }

    fn read_from_prefix(source: &[u8]) -> (r: Option<(Self, &[u8])>) {
        if source.len() < 88 {
            return None;
        }
        let v = CreateResponse {
            structure_size: get_u16(source, 0),
            oplock_level: source[2],
            flags: source[3],
            create_action: get_u32(source, 4),
            creation_time: get_u64(source, 8),
            last_access_time: get_u64(source, 16),
            last_write_time: get_u64(source, 24),
            change_time: get_u64(source, 32),
            allocation_size: get_u64(source, 40),
            end_of_file: get_u64(source, 48),
            file_attributes: get_u32(source, 56),
            reserved2: get_u32(source, 60),
            file_id: get_array16(source, 64),
            create_contexts_offset: get_u32(source, 80),
            create_contexts_length: get_u32(source, 84),
        };
        Some((v, slice_subrange(source, 88, source.len())))
    }

    fn as_bytes(&self) -> (r: Vec<u8>) {
        let mut out: Vec<u8> = Vec::new();
        put_u16(&mut out, self.structure_size);
        put_u8(&mut out, self.oplock_level);
        put_u8(&mut out, self.flags);
        put_u32(&mut out, self.create_action);
        put_u64(&mut out, self.creation_time);
        put_u64(&mut out, self.last_access_time);
        put_u64(&mut out, self.last_write_time);
        put_u64(&mut out, self.change_time);
        put_u64(&mut out, self.allocation_size);
        put_u64(&mut out, self.end_of_file);
        put_u32(&mut out, self.file_attributes);
        put_u32(&mut out, self.reserved2);
        put_bytes(&mut out, self.file_id.as_slice());
        put_u32(&mut out, self.create_contexts_offset);
        put_u32(&mut out, self.create_contexts_length);
        out
    }
}

/// READ request, fixed portion (MS-SMB2 2.2.19).
#[derive(Copy, Clone, Debug)]
pub struct ReadRequest {
    pub structure_size: u16,
    pub padding: u8,
    pub flags: u8,
    pub length: u32,
    pub offset: u64,
    pub file_id: [u8; 16],
    pub minimum_count: u32,
    pub channel: u32,
    pub remaining_bytes: u32,
    pub read_channel_info_offset: u16,
    pub read_channel_info_length: u16,
}

impl Wire for ReadRequest {
    open spec fn wire_len() -> nat {
        48
    }

    open spec fn wire_bytes(&self) -> Seq<u8> {
        Seq::<u8>::empty()
            + le16(self.structure_size)
            + seq![self.padding]
            + seq![self.flags]
            + le32(self.length)
            + le64(self.offset)
            + self.file_id@
            + le32(self.minimum_count)
            + le32(self.channel)
            + le32(self.remaining_bytes)
            + le16(self.read_channel_info_offset)
            + le16(self.read_channel_info_length)
    }

    open spec fn is_at(&self, s: Seq<u8>) -> bool {
        &&& self.structure_size == u16_at(s, 0)
        &&& self.padding == s[2]
        &&& self.flags == s[3]
        &&& self.length == u32_at(s, 4)
        &&& self.offset == u64_at(s, 8)
        &&& self.file_id@ == s.subrange(16, 32)
        &&& self.minimum_count == u32_at(s, 32)
        &&& self.channel == u32_at(s, 36)
        &&& self.remaining_bytes == u32_at(s, 40)
        &&& self.read_channel_info_offset == u16_at(s, 44)
        &&& self.read_channel_info_length == u16_at(s, 46)
    }

    proof fn lemma_layout(&self, s: Seq<u8>) {
        let p0 = Seq::<u8>::empty();
        assert(s.take(0) =~= p0);
        lemma_field16(s, p0, self.structure_size);
        let p1 = p0 + le16(self.structure_size);
        lemma_field8(s, p1, self.padding);
        let p2 = p1 + seq![self.padding];
        lemma_field8(s, p2, self.flags);
        let p3 = p2 + seq![self.flags];
        lemma_field32(s, p3, self.length);
        let p4 = p3 + le32(self.length);
        lemma_field64(s, p4, self.offset);
        let p5 = p4 + le64(self.offset);
        lemma_field_bytes(s, p5, self.file_id@);
        let p6 = p5 + self.file_id@;
        lemma_field32(s, p6, self.minimum_count);
        let p7 = p6 + le32(self.minimum_count);
        lemma_field32(s, p7, self.channel);
        let p8 = p7 + le32(self.channel);
        lemma_field32(s, p8, self.remaining_bytes);
        let p9 = p8 + le32(self.remaining_bytes);
        lemma_field16(s, p9, self.read_channel_info_offset);
        let p10 = p9 + le16(self.read_channel_info_offset);
        lemma_field16(s, p10, self.read_channel_info_length);
    }

    proof fn lemma_unique(&self, other: &Self, s: Seq<u8>) {
        lemma_array16(self.file_id, other.file_id);
    }

    proof fn lemma_readable(s: Seq<u8>) {
        lemma_array16_of(s.subrange(16, 32));
        let v = ReadRequest {
            structure_size: u16_at(s, 0),
            padding: s[2],
            flags: s[3],
            length: u32_at(s, 4),
            offset: u64_at(s, 8),
            file_id: array16_of(s.subrange(16, 32)),
            minimum_count: u32_at(s, 32),
            channel: u32_at(s, 36),
            remaining_bytes: u32_at(s, 40),
            read_channel_info_offset: u16_at(s, 44),
            read_channel_info_length: u16_at(s, 46),
        };
        assert(v.is_at(s));
    }

    fn read_from_prefix(source: &[u8]) -> (r: Option<(Self, &[u8])>) {
        if source.len() < 48 {
            return None;
        }
        let v = ReadRequest {
            structure_size: get_u16(source, 0),
            padding: source[2],
            flags: source[3],
            length: get_u32(source, 4),
            offset: get_u64(source, 8),
            file_id: get_array16(source, 16),
            minimum_count: get_u32(source, 32),
            channel: get_u32(source, 36),
            remaining_bytes: get_u32(source, 40),
            read_channel_info_offset: get_u16(source, 44),
            read_channel_info_length: get_u16(source, 46),
        };
        Some((v, slice_subrange(source, 48, source.len())))
    }

    fn as_bytes(&self) -> (r: Vec<u8>) {
        let mut out: Vec<u8> = Vec::new();
        put_u16(&mut out, self.structure_size);
        put_u8(&mut out, self.padding);
        put_u8(&mut out, self.flags);
        put_u32(&mut out, self.length);
        put_u64(&mut out, self.offset);
        put_bytes(&mut out, self.file_id.as_slice());
        put_u32(&mut out, self.minimum_count);
        put_u32(&mut out, self.channel);
        put_u32(&mut out, self.remaining_bytes);
        put_u16(&mut out, self.read_channel_info_offset);
        put_u16(&mut out, self.read_channel_info_length);
        out
    }
}

/// READ response, fixed portion (MS-SMB2 2.2.20). Followed by the data.
#[derive(Copy, Clone, Debug)]
pub struct ReadResponse {
    pub structure_size: u16,
    pub data_offset: u8,
    pub reserved: u8,
    pub data_length: u32,
    pub data_remaining: u32,
    pub reserved2: u32,
}

impl Wire for ReadResponse {
    open spec fn wire_len() -> nat {
        16
    }

    open spec fn wire_bytes(&self) -> Seq<u8> {
        Seq::<u8>::empty()
            + le16(self.structure_size)
            + seq![self.data_offset]
            + seq![self.reserved]
            + le32(self.data_length)
            + le32(self.data_remaining)
            + le32(self.reserved2)
    }

    open spec fn is_at(&self, s: Seq<u8>) -> bool {
        &&& self.structure_size == u16_at(s, 0)
        &&& self.data_offset == s[2]
        &&& self.reserved == s[3]
        &&& self.data_length == u32_at(s, 4)
        &&& self.data_remaining == u32_at(s, 8)
        &&& self.reserved2 == u32_at(s, 12)
    }

    proof fn lemma_layout(&self, s: Seq<u8>) {
        let p0 = Seq::<u8>::empty();
        assert(s.take(0) =~= p0);
        lemma_field16(s, p0, self.structure_size);
        let p1 = p0 + le16(self.structure_size);
        lemma_field8(s, p1, self.data_offset);
        let p2 = p1 + seq![self.data_offset];
        lemma_field8(s, p2, self.reserved);
        let p3 = p2 + seq![self.reserved];
        lemma_field32(s, p3, self.data_length);
        let p4 = p3 + le32(self.data_length);
        lemma_field32(s, p4, self.data_remaining);
        let p5 = p4 + le32(self.data_remaining);
        lemma_field32(s, p5, self.reserved2);
    }

    proof fn lemma_unique(&self, other: &Self, s: Seq<u8>) {
    }

    proof fn lemma_readable(s: Seq<u8>) {
        let v = ReadResponse {
            structure_size: u16_at(s, 0),
            data_offset: s[2],
            reserved: s[3],
            data_length: u32_at(s, 4),
            data_remaining: u32_at(s, 8),
            reserved2: u32_at(s, 12),
        };
        assert(v.is_at(s));
    }

    fn read_from_prefix(source: &[u8]) -> (r: Option<(Self, &[u8])>) {
        if source.len() < 16 {
            return None;
        }
        let v = ReadResponse {
            structure_size: get_u16(source, 0),
            data_offset: source[2],
            reserved: source[3],
            data_length: get_u32(source, 4),
            data_remaining: get_u32(source, 8),
            reserved2: get_u32(source, 12),
        };
        Some((v, slice_subrange(source, 16, source.len())))
    }

    fn as_bytes(&self) -> (r: Vec<u8>) {
        let mut out: Vec<u8> = Vec::new();
        put_u16(&mut out, self.structure_size);
        put_u8(&mut out, self.data_offset);
        put_u8(&mut out, self.reserved);
        put_u32(&mut out, self.data_length);
        put_u32(&mut out, self.data_remaining);
        put_u32(&mut out, self.reserved2);
        out
    }
}

/// CLOSE request (MS-SMB2 2.2.15).
#[derive(Copy, Clone, Debug)]
pub struct CloseRequest {
    pub structure_size: u16,
    pub flags: u16,
    pub reserved: u32,
    pub file_id: [u8; 16],
}

impl Wire for CloseRequest {
    open spec fn wire_len() -> nat {
        24
    }

    open spec fn wire_bytes(&self) -> Seq<u8> {
        Seq::<u8>::empty()
            + le16(self.structure_size)
            + le16(self.flags)
            + le32(self.reserved)
            + self.file_id@
    }

    open spec fn is_at(&self, s: Seq<u8>) -> bool {
        &&& self.structure_size == u16_at(s, 0)
        &&& self.flags == u16_at(s, 2)
        &&& self.reserved == u32_at(s, 4)
        &&& self.file_id@ == s.subrange(8, 24)
    }

    proof fn lemma_layout(&self, s: Seq<u8>) {
        let p0 = Seq::<u8>::empty();
        assert(s.take(0) =~= p0);
        lemma_field16(s, p0, self.structure_size);
        let p1 = p0 + le16(self.structure_size);
        lemma_field16(s, p1, self.flags);
        let p2 = p1 + le16(self.flags);
        lemma_field32(s, p2, self.reserved);
        let p3 = p2 + le32(self.reserved);
        lemma_field_bytes(s, p3, self.file_id@);
    }

    proof fn lemma_unique(&self, other: &Self, s: Seq<u8>) {
        lemma_array16(self.file_id, other.file_id);
    }

    proof fn lemma_readable(s: Seq<u8>) {
        lemma_array16_of(s.subrange(8, 24));
        let v = CloseRequest {
            structure_size: u16_at(s, 0),
            flags: u16_at(s, 2),
            reserved: u32_at(s, 4),
            file_id: array16_of(s.subrange(8, 24)),
        };
        assert(v.is_at(s));
    }

    fn read_from_prefix(source: &[u8]) -> (r: Option<(Self, &[u8])>) {
        if source.len() < 24 {
            return None;
        }
        let v = CloseRequest {
            structure_size: get_u16(source, 0),
            flags: get_u16(source, 2),
            reserved: get_u32(source, 4),
            file_id: get_array16(source, 8),
        };
        Some((v, slice_subrange(source, 24, source.len())))
    }

    fn as_bytes(&self) -> (r: Vec<u8>) {
        let mut out: Vec<u8> = Vec::new();
        put_u16(&mut out, self.structure_size);
        put_u16(&mut out, self.flags);
        put_u32(&mut out, self.reserved);
        put_bytes(&mut out, self.file_id.as_slice());
        out
    }
}

/// CLOSE response (MS-SMB2 2.2.16).
#[derive(Copy, Clone, Debug)]
pub struct CloseResponse {
    pub structure_size: u16,
    pub flags: u16,
    pub reserved: u32,
    pub creation_time: u64,
    pub last_access_time: u64,
    pub last_write_time: u64,
    pub change_time: u64,
    pub allocation_size: u64,
    pub end_of_file: u64,
    pub file_attributes: u32,
}

impl Wire for CloseResponse {
    open spec fn wire_len() -> nat {
        60
    }

    open spec fn wire_bytes(&self) -> Seq<u8> {
        Seq::<u8>::empty()
            + le16(self.structure_size)
            + le16(self.flags)
            + le32(self.reserved)
            + le64(self.creation_time)
            + le64(self.last_access_time)
            + le64(self.last_write_time)
            + le64(self.change_time)
            + le64(self.allocation_size)
            + le64(self.end_of_file)
            + le32(self.file_attributes)
    }

    open spec fn is_at(&self, s: Seq<u8>) -> bool {
        &&& self.structure_size == u16_at(s, 0)
        &&& self.flags == u16_at(s, 2)
        &&& self.reserved == u32_at(s, 4)
        &&& self.creation_time == u64_at(s, 8)
        &&& self.last_access_time == u64_at(s, 16)
        &&& self.last_write_time == u64_at(s, 24)
        &&& self.change_time == u64_at(s, 32)
        &&& self.allocation_size == u64_at(s, 40)
        &&& self.end_of_file == u64_at(s, 48)
        &&& self.file_attributes == u32_at(s, 56)
    }

    proof fn lemma_layout(&self, s: Seq<u8>) {
        let p0 = Seq::<u8>::empty();
        assert(s.take(0) =~= p0);
        lemma_field16(s, p0, self.structure_size);
        let p1 = p0 + le16(self.structure_size);
        lemma_field16(s, p1, self.flags);
        let p2 = p1 + le16(self.flags);
        lemma_field32(s, p2, self.reserved);
        let p3 = p2 + le32(self.reserved);
        lemma_field64(s, p3, self.creation_time);
        let p4 = p3 + le64(self.creation_time);
        lemma_field64(s, p4, self.last_access_time);
        let p5 = p4 + le64(self.last_access_time);
        lemma_field64(s, p5, self.last_write_time);
        let p6 = p5 + le64(self.last_write_time);
        lemma_field64(s, p6, self.change_time);
        let p7 = p6 + le64(self.change_time);
        lemma_field64(s, p7, self.allocation_size);
        let p8 = p7 + le64(self.allocation_size);
        lemma_field64(s, p8, self.end_of_file);
        let p9 = p8 + le64(self.end_of_file);
        lemma_field32(s, p9, self.file_attributes);
    }

    proof fn lemma_unique(&self, other: &Self, s: Seq<u8>) {
    }

    proof fn lemma_readable(s: Seq<u8>) {
        let v = CloseResponse {
            structure_size: u16_at(s, 0),
            flags: u16_at(s, 2),
            reserved: u32_at(s, 4),
            creation_time: u64_at(s, 8),
            last_access_time: u64_at(s, 16),
            last_write_time: u64_at(s, 24),
            change_time: u64_at(s, 32),
            allocation_size: u64_at(s, 40),
            end_of_file: u64_at(s, 48),
            file_attributes: u32_at(s, 56),
        };
        assert(v.is_at(s));
    }

    fn read_from_prefix(source: &[u8]) -> (r: Option<(Self, &[u8])>) {
        if source.len() < 60 {
            return None;
        }
        let v = CloseResponse {
            structure_size: get_u16(source, 0),
            flags: get_u16(source, 2),
            reserved: get_u32(source, 4),
            creation_time: get_u64(source, 8),
            last_access_time: get_u64(source, 16),
            last_write_time: get_u64(source, 24),
            change_time: get_u64(source, 32),
            allocation_size: get_u64(source, 40),
            end_of_file: get_u64(source, 48),
            file_attributes: get_u32(source, 56),
        };
        Some((v, slice_subrange(source, 60, source.len())))
    }

    fn as_bytes(&self) -> (r: Vec<u8>) {
        let mut out: Vec<u8> = Vec::new();
        put_u16(&mut out, self.structure_size);
        put_u16(&mut out, self.flags);
        put_u32(&mut out, self.reserved);
        put_u64(&mut out, self.creation_time);
        put_u64(&mut out, self.last_access_time);
        put_u64(&mut out, self.last_write_time);
        put_u64(&mut out, self.change_time);
        put_u64(&mut out, self.allocation_size);
        put_u64(&mut out, self.end_of_file);
        put_u32(&mut out, self.file_attributes);
        out
    }
}

/// QUERY_INFO request, fixed portion (MS-SMB2 2.2.37).
#[derive(Copy, Clone, Debug)]
pub struct QueryInfoRequest {
    pub structure_size: u16,
    pub info_type: u8,
    pub file_info_class: u8,
    pub output_buffer_length: u32,
    pub input_buffer_offset: u16,
    pub reserved: u16,
    pub input_buffer_length: u32,
    pub additional_information: u32,
    pub flags: u32,
    pub file_id: [u8; 16],
}

impl Wire for QueryInfoRequest {
    open spec fn wire_len() -> nat {
        40
    }

    open spec fn wire_bytes(&self) -> Seq<u8> {
        Seq::<u8>::empty()
            + le16(self.structure_size)
            + seq![self.info_type]
            + seq![self.file_info_class]
            + le32(self.output_buffer_length)
            + le16(self.input_buffer_offset)
            + le16(self.reserved)
            + le32(self.input_buffer_length)
            + le32(self.additional_information)
            + le32(self.flags)
            + self.file_id@
    }

    open spec fn is_at(&self, s: Seq<u8>) -> bool {
        &&& self.structure_size == u16_at(s, 0)
        &&& self.info_type == s[2]
        &&& self.file_info_class == s[3]
        &&& self.output_buffer_length == u32_at(s, 4)
        &&& self.input_buffer_offset == u16_at(s, 8)
        &&& self.reserved == u16_at(s, 10)
        &&& self.input_buffer_length == u32_at(s, 12)
        &&& self.additional_information == u32_at(s, 16)
        &&& self.flags == u32_at(s, 20)
        &&& self.file_id@ == s.subrange(24, 40)
    }

    proof fn lemma_layout(&self, s: Seq<u8>) {
        let p0 = Seq::<u8>::empty();
        assert(s.take(0) =~= p0);
        lemma_field16(s, p0, self.structure_size);
        let p1 = p0 + le16(self.structure_size);
        lemma_field8(s, p1, self.info_type);
        let p2 = p1 + seq![self.info_type];
        lemma_field8(s, p2, self.file_info_class);
        let p3 = p2 + seq![self.file_info_class];
        lemma_field32(s, p3, self.output_buffer_length);
        let p4 = p3 + le32(self.output_buffer_length);
        lemma_field16(s, p4, self.input_buffer_offset);
        let p5 = p4 + le16(self.input_buffer_offset);
        lemma_field16(s, p5, self.reserved);
        let p6 = p5 + le16(self.reserved);
        lemma_field32(s, p6, self.input_buffer_length);
        let p7 = p6 + le32(self.input_buffer_length);
        lemma_field32(s, p7, self.additional_information);
        let p8 = p7 + le32(self.additional_information);
        lemma_field32(s, p8, self.flags);
        let p9 = p8 + le32(self.flags);
        lemma_field_bytes(s, p9, self.file_id@);
    }

    proof fn lemma_unique(&self, other: &Self, s: Seq<u8>) {
        lemma_array16(self.file_id, other.file_id);
    }

    proof fn lemma_readable(s: Seq<u8>) {
        lemma_array16_of(s.subrange(24, 40));
        let v = QueryInfoRequest {
            structure_size: u16_at(s, 0),
            info_type: s[2],
            file_info_class: s[3],
            output_buffer_length: u32_at(s, 4),
            input_buffer_offset: u16_at(s, 8),
            reserved: u16_at(s, 10),
            input_buffer_length: u32_at(s, 12),
            additional_information: u32_at(s, 16),
            flags: u32_at(s, 20),
            file_id: array16_of(s.subrange(24, 40)),
        };
        assert(v.is_at(s));
    }

    fn read_from_prefix(source: &[u8]) -> (r: Option<(Self, &[u8])>) {
        if source.len() < 40 {
            return None;
        }
        let v = QueryInfoRequest {
            structure_size: get_u16(source, 0),
            info_type: source[2],
            file_info_class: source[3],
            output_buffer_length: get_u32(source, 4),
            input_buffer_offset: get_u16(source, 8),
            reserved: get_u16(source, 10),
            input_buffer_length: get_u32(source, 12),
            additional_information: get_u32(source, 16),
            flags: get_u32(source, 20),
            file_id: get_array16(source, 24),
        };
        Some((v, slice_subrange(source, 40, source.len())))
    }

    fn as_bytes(&self) -> (r: Vec<u8>) {
        let mut out: Vec<u8> = Vec::new();
        put_u16(&mut out, self.structure_size);
        put_u8(&mut out, self.info_type);
        put_u8(&mut out, self.file_info_class);
        put_u32(&mut out, self.output_buffer_length);
        put_u16(&mut out, self.input_buffer_offset);
        put_u16(&mut out, self.reserved);
        put_u32(&mut out, self.input_buffer_length);
        put_u32(&mut out, self.additional_information);
        put_u32(&mut out, self.flags);
        put_bytes(&mut out, self.file_id.as_slice());
        out
    }
}

/// QUERY_DIRECTORY request, fixed portion (MS-SMB2 2.2.33). Followed by the
/// search pattern (UTF-16).
#[derive(Copy, Clone, Debug)]
pub struct QueryDirectoryRequest {
    pub structure_size: u16,
    pub file_information_class: u8,
    pub flags: u8,
    pub file_index: u32,
    pub file_id: [u8; 16],
    pub file_name_offset: u16,
    pub file_name_length: u16,
    pub output_buffer_length: u32,
}

impl Wire for QueryDirectoryRequest {
    open spec fn wire_len() -> nat {
        32
    }

    open spec fn wire_bytes(&self) -> Seq<u8> {
        Seq::<u8>::empty()
            + le16(self.structure_size)
            + seq![self.file_information_class]
            + seq![self.flags]
            + le32(self.file_index)
            + self.file_id@
            + le16(self.file_name_offset)
            + le16(self.file_name_length)
            + le32(self.output_buffer_length)
    }

    open spec fn is_at(&self, s: Seq<u8>) -> bool {
        &&& self.structure_size == u16_at(s, 0)
        &&& self.file_information_class == s[2]
        &&& self.flags == s[3]
        &&& self.file_index == u32_at(s, 4)
        &&& self.file_id@ == s.subrange(8, 24)
        &&& self.file_name_offset == u16_at(s, 24)
        &&& self.file_name_length == u16_at(s, 26)
        &&& self.output_buffer_length == u32_at(s, 28)
    }

    proof fn lemma_layout(&self, s: Seq<u8>) {
        let p0 = Seq::<u8>::empty();
        assert(s.take(0) =~= p0);
        lemma_field16(s, p0, self.structure_size);
        let p1 = p0 + le16(self.structure_size);
        lemma_field8(s, p1, self.file_information_class);
        let p2 = p1 + seq![self.file_information_class];
        lemma_field8(s, p2, self.flags);
        let p3 = p2 + seq![self.flags];
        lemma_field32(s, p3, self.file_index);
        let p4 = p3 + le32(self.file_index);
        lemma_field_bytes(s, p4, self.file_id@);
        let p5 = p4 + self.file_id@;
        lemma_field16(s, p5, self.file_name_offset);
        let p6 = p5 + le16(self.file_name_offset);
        lemma_field16(s, p6, self.file_name_length);
        let p7 = p6 + le16(self.file_name_length);
        lemma_field32(s, p7, self.output_buffer_length);
    }

    proof fn lemma_unique(&self, other: &Self, s: Seq<u8>) {
        lemma_array16(self.file_id, other.file_id);
    }

    proof fn lemma_readable(s: Seq<u8>) {
        lemma_array16_of(s.subrange(8, 24));
        let v = QueryDirectoryRequest {
            structure_size: u16_at(s, 0),
            file_information_class: s[2],
            flags: s[3],
            file_index: u32_at(s, 4),
            file_id: array16_of(s.subrange(8, 24)),
            file_name_offset: u16_at(s, 24),
            file_name_length: u16_at(s, 26),
            output_buffer_length: u32_at(s, 28),
        };
        assert(v.is_at(s));
    }

    fn read_from_prefix(source: &[u8]) -> (r: Option<(Self, &[u8])>) {
        if source.len() < 32 {
            return None;
        }
        let v = QueryDirectoryRequest {
            structure_size: get_u16(source, 0),
            file_information_class: source[2],
            flags: source[3],
            file_index: get_u32(source, 4),
            file_id: get_array16(source, 8),
            file_name_offset: get_u16(source, 24),
            file_name_length: get_u16(source, 26),
            output_buffer_length: get_u32(source, 28),
        };
        Some((v, slice_subrange(source, 32, source.len())))
    }

    fn as_bytes(&self) -> (r: Vec<u8>) {
        let mut out: Vec<u8> = Vec::new();
        put_u16(&mut out, self.structure_size);
        put_u8(&mut out, self.file_information_class);
        put_u8(&mut out, self.flags);
        put_u32(&mut out, self.file_index);
        put_bytes(&mut out, self.file_id.as_slice());
        put_u16(&mut out, self.file_name_offset);
        put_u16(&mut out, self.file_name_length);
        put_u32(&mut out, self.output_buffer_length);
        out
    }
}

/// A variable-length response with an 8-byte fixed part used by both
/// QUERY_INFO (2.2.38) and QUERY_DIRECTORY (2.2.34): `StructureSize(9)`,
/// `OutputBufferOffset`, `OutputBufferLength`, then the buffer.
#[derive(Copy, Clone, Debug)]
pub struct OutputBufferResponse {
    pub structure_size: u16,
    pub output_buffer_offset: u16,
    pub output_buffer_length: u32,
}

impl Wire for OutputBufferResponse {
    open spec fn wire_len() -> nat {
        8
    }

    open spec fn wire_bytes(&self) -> Seq<u8> {
        Seq::<u8>::empty()
            + le16(self.structure_size)
            + le16(self.output_buffer_offset)
            + le32(self.output_buffer_length)
    }

    open spec fn is_at(&self, s: Seq<u8>) -> bool {
        &&& self.structure_size == u16_at(s, 0)
        &&& self.output_buffer_offset == u16_at(s, 2)
        &&& self.output_buffer_length == u32_at(s, 4)
    }

    proof fn lemma_layout(&self, s: Seq<u8>) {
        let p0 = Seq::<u8>::empty();
        assert(s.take(0) =~= p0);
        lemma_field16(s, p0, self.structure_size);
        let p1 = p0 + le16(self.structure_size);
        lemma_field16(s, p1, self.output_buffer_offset);
        let p2 = p1 + le16(self.output_buffer_offset);
        lemma_field32(s, p2, self.output_buffer_length);
    }

    proof fn lemma_unique(&self, other: &Self, s: Seq<u8>) {
    }

    proof fn lemma_readable(s: Seq<u8>) {
        let v = OutputBufferResponse {
            structure_size: u16_at(s, 0),
            output_buffer_offset: u16_at(s, 2),
            output_buffer_length: u32_at(s, 4),
        };
        assert(v.is_at(s));
    }

    fn read_from_prefix(source: &[u8]) -> (r: Option<(Self, &[u8])>) {
        if source.len() < 8 {
            return None;
        }
        let v = OutputBufferResponse {
            structure_size: get_u16(source, 0),
            output_buffer_offset: get_u16(source, 2),
            output_buffer_length: get_u32(source, 4),
        };
        Some((v, slice_subrange(source, 8, source.len())))
    }

    fn as_bytes(&self) -> (r: Vec<u8>) {
        let mut out: Vec<u8> = Vec::new();
        put_u16(&mut out, self.structure_size);
        put_u16(&mut out, self.output_buffer_offset);
        put_u32(&mut out, self.output_buffer_length);
        out
    }
}

/// IOCTL request, fixed portion (MS-SMB2 2.2.31). Followed by the input buffer.
#[derive(Copy, Clone, Debug)]
pub struct IoctlRequest {
    pub structure_size: u16,
    pub reserved: u16,
    pub ctl_code: u32,
    pub file_id: [u8; 16],
    pub input_offset: u32,
    pub input_count: u32,
    pub max_input_response: u32,
    pub output_offset: u32,
    pub output_count: u32,
    pub max_output_response: u32,
    pub flags: u32,
    pub reserved2: u32,
}

impl Wire for IoctlRequest {
    open spec fn wire_len() -> nat {
        56
    }

    open spec fn wire_bytes(&self) -> Seq<u8> {
        Seq::<u8>::empty()
            + le16(self.structure_size)
            + le16(self.reserved)
            + le32(self.ctl_code)
            + self.file_id@
            + le32(self.input_offset)
            + le32(self.input_count)
            + le32(self.max_input_response)
            + le32(self.output_offset)
            + le32(self.output_count)
            + le32(self.max_output_response)
            + le32(self.flags)
            + le32(self.reserved2)
    }

    open spec fn is_at(&self, s: Seq<u8>) -> bool {
        &&& self.structure_size == u16_at(s, 0)
        &&& self.reserved == u16_at(s, 2)
        &&& self.ctl_code == u32_at(s, 4)
        &&& self.file_id@ == s.subrange(8, 24)
        &&& self.input_offset == u32_at(s, 24)
        &&& self.input_count == u32_at(s, 28)
        &&& self.max_input_response == u32_at(s, 32)
        &&& self.output_offset == u32_at(s, 36)
        &&& self.output_count == u32_at(s, 40)
        &&& self.max_output_response == u32_at(s, 44)
        &&& self.flags == u32_at(s, 48)
        &&& self.reserved2 == u32_at(s, 52)
    }

    proof fn lemma_layout(&self, s: Seq<u8>) {
        let p0 = Seq::<u8>::empty();
        assert(s.take(0) =~= p0);
        lemma_field16(s, p0, self.structure_size);
        let p1 = p0 + le16(self.structure_size);
        lemma_field16(s, p1, self.reserved);
        let p2 = p1 + le16(self.reserved);
        lemma_field32(s, p2, self.ctl_code);
        let p3 = p2 + le32(self.ctl_code);
        lemma_field_bytes(s, p3, self.file_id@);
        let p4 = p3 + self.file_id@;
        lemma_field32(s, p4, self.input_offset);
        let p5 = p4 + le32(self.input_offset);
        lemma_field32(s, p5, self.input_count);
        let p6 = p5 + le32(self.input_count);
        lemma_field32(s, p6, self.max_input_response);
        let p7 = p6 + le32(self.max_input_response);
        lemma_field32(s, p7, self.output_offset);
        let p8 = p7 + le32(self.output_offset);
        lemma_field32(s, p8, self.output_count);
        let p9 = p8 + le32(self.output_count);
        lemma_field32(s, p9, self.max_output_response);
        let p10 = p9 + le32(self.max_output_response);
        lemma_field32(s, p10, self.flags);
        let p11 = p10 + le32(self.flags);
        lemma_field32(s, p11, self.reserved2);
    }

    proof fn lemma_unique(&self, other: &Self, s: Seq<u8>) {
        lemma_array16(self.file_id, other.file_id);
    }

    proof fn lemma_readable(s: Seq<u8>) {
        lemma_array16_of(s.subrange(8, 24));
        let v = IoctlRequest {
            structure_size: u16_at(s, 0),
            reserved: u16_at(s, 2),
            ctl_code: u32_at(s, 4),
            file_id: array16_of(s.subrange(8, 24)),
            input_offset: u32_at(s, 24),
            input_count: u32_at(s, 28),
            max_input_response: u32_at(s, 32),
            output_offset: u32_at(s, 36),
            output_count: u32_at(s, 40),
            max_output_response: u32_at(s, 44),
            flags: u32_at(s, 48),
            reserved2: u32_at(s, 52),
        };
        assert(v.is_at(s));
    }

    fn read_from_prefix(source: &[u8]) -> (r: Option<(Self, &[u8])>) {
        if source.len() < 56 {
            return None;
        }
        let v = IoctlRequest {
            structure_size: get_u16(source, 0),
            reserved: get_u16(source, 2),
            ctl_code: get_u32(source, 4),
            file_id: get_array16(source, 8),
            input_offset: get_u32(source, 24),
            input_count: get_u32(source, 28),
            max_input_response: get_u32(source, 32),
            output_offset: get_u32(source, 36),
            output_count: get_u32(source, 40),
            max_output_response: get_u32(source, 44),
            flags: get_u32(source, 48),
            reserved2: get_u32(source, 52),
        };
        Some((v, slice_subrange(source, 56, source.len())))
    }

    fn as_bytes(&self) -> (r: Vec<u8>) {
        let mut out: Vec<u8> = Vec::new();
        put_u16(&mut out, self.structure_size);
        put_u16(&mut out, self.reserved);
        put_u32(&mut out, self.ctl_code);
        put_bytes(&mut out, self.file_id.as_slice());
        put_u32(&mut out, self.input_offset);
        put_u32(&mut out, self.input_count);
        put_u32(&mut out, self.max_input_response);
        put_u32(&mut out, self.output_offset);
        put_u32(&mut out, self.output_count);
        put_u32(&mut out, self.max_output_response);
        put_u32(&mut out, self.flags);
        put_u32(&mut out, self.reserved2);
        out
    }
}

/// IOCTL response, fixed portion (MS-SMB2 2.2.32). Followed by the output.
#[derive(Copy, Clone, Debug)]
pub struct IoctlResponse {
    pub structure_size: u16,
    pub reserved: u16,
    pub ctl_code: u32,
    pub file_id: [u8; 16],
    pub input_offset: u32,
    pub input_count: u32,
    pub output_offset: u32,
    pub output_count: u32,
    pub flags: u32,
    pub reserved2: u32,
}

impl Wire for IoctlResponse {
    open spec fn wire_len() -> nat {
        48
    }

    open spec fn wire_bytes(&self) -> Seq<u8> {
        Seq::<u8>::empty()
            + le16(self.structure_size)
            + le16(self.reserved)
            + le32(self.ctl_code)
            + self.file_id@
            + le32(self.input_offset)
            + le32(self.input_count)
            + le32(self.output_offset)
            + le32(self.output_count)
            + le32(self.flags)
            + le32(self.reserved2)
    }

    open spec fn is_at(&self, s: Seq<u8>) -> bool {
        &&& self.structure_size == u16_at(s, 0)
        &&& self.reserved == u16_at(s, 2)
        &&& self.ctl_code == u32_at(s, 4)
        &&& self.file_id@ == s.subrange(8, 24)
        &&& self.input_offset == u32_at(s, 24)
        &&& self.input_count == u32_at(s, 28)
        &&& self.output_offset == u32_at(s, 32)
        &&& self.output_count == u32_at(s, 36)
        &&& self.flags == u32_at(s, 40)
        &&& self.reserved2 == u32_at(s, 44)
    }

    proof fn lemma_layout(&self, s: Seq<u8>) {
        let p0 = Seq::<u8>::empty();
        assert(s.take(0) =~= p0);
        lemma_field16(s, p0, self.structure_size);
        let p1 = p0 + le16(self.structure_size);
        lemma_field16(s, p1, self.reserved);
        let p2 = p1 + le16(self.reserved);
        lemma_field32(s, p2, self.ctl_code);
        let p3 = p2 + le32(self.ctl_code);
        lemma_field_bytes(s, p3, self.file_id@);
        let p4 = p3 + self.file_id@;
        lemma_field32(s, p4, self.input_offset);
        let p5 = p4 + le32(self.input_offset);
        lemma_field32(s, p5, self.input_count);
        let p6 = p5 + le32(self.input_count);
        lemma_field32(s, p6, self.output_offset);
        let p7 = p6 + le32(self.output_offset);
        lemma_field32(s, p7, self.output_count);
        let p8 = p7 + le32(self.output_count);
        lemma_field32(s, p8, self.flags);
        let p9 = p8 + le32(self.flags);
        lemma_field32(s, p9, self.reserved2);
    }

    proof fn lemma_unique(&self, other: &Self, s: Seq<u8>) {
        lemma_array16(self.file_id, other.file_id);
    }

    proof fn lemma_readable(s: Seq<u8>) {
        lemma_array16_of(s.subrange(8, 24));
        let v = IoctlResponse {
            structure_size: u16_at(s, 0),
            reserved: u16_at(s, 2),
            ctl_code: u32_at(s, 4),
            file_id: array16_of(s.subrange(8, 24)),
            input_offset: u32_at(s, 24),
            input_count: u32_at(s, 28),
            output_offset: u32_at(s, 32),
            output_count: u32_at(s, 36),
            flags: u32_at(s, 40),
            reserved2: u32_at(s, 44),
        };
        assert(v.is_at(s));
    }

    fn read_from_prefix(source: &[u8]) -> (r: Option<(Self, &[u8])>) {
        if source.len() < 48 {
            return None;
        }
        let v = IoctlResponse {
            structure_size: get_u16(source, 0),
            reserved: get_u16(source, 2),
            ctl_code: get_u32(source, 4),
            file_id: get_array16(source, 8),
            input_offset: get_u32(source, 24),
            input_count: get_u32(source, 28),
            output_offset: get_u32(source, 32),
            output_count: get_u32(source, 36),
            flags: get_u32(source, 40),
            reserved2: get_u32(source, 44),
        };
        Some((v, slice_subrange(source, 48, source.len())))
    }

    fn as_bytes(&self) -> (r: Vec<u8>) {
        let mut out: Vec<u8> = Vec::new();
        put_u16(&mut out, self.structure_size);
        put_u16(&mut out, self.reserved);
        put_u32(&mut out, self.ctl_code);
        put_bytes(&mut out, self.file_id.as_slice());
        put_u32(&mut out, self.input_offset);
        put_u32(&mut out, self.input_count);
        put_u32(&mut out, self.output_offset);
        put_u32(&mut out, self.output_count);
        put_u32(&mut out, self.flags);
        put_u32(&mut out, self.reserved2);
        out
    }
}

impl Header {
    /// The header of the response to `request`: the routing fields are echoed,
    /// one credit is granted, and the message is marked as coming from the
    /// server.
    pub open spec fn responding(request: Header, status: u32) -> Header {
        Header {
            protocol_id: PROTOCOL_ID,
            structure_size: 64,
            credit_charge: request.credit_charge,
            status,
            command: request.command,
            credit_request: 1,
            flags: FLAGS_SERVER_TO_REDIR,
            next_command: 0,
            message_id: request.message_id,
            reserved: 0,
            tree_id: request.tree_id,
            session_id: request.session_id,
            signature: NO_SIGNATURE,
        }
    }

    /// Builds a response header echoing the routing fields of a request.
    pub fn response_for(request: &Header, status: u32) -> (r: Header)
        ensures
            r == Header::responding(*request, status),
    {
        Header {
            protocol_id: PROTOCOL_ID,
            structure_size: 64,
            credit_charge: request.credit_charge,
            status,
            command: request.command,
            // Grant a fixed credit so the client can keep issuing requests.
            credit_request: 1,
            flags: FLAGS_SERVER_TO_REDIR,
            next_command: 0,
            message_id: request.message_id,
            reserved: 0,
            tree_id: request.tree_id,
            session_id: request.session_id,
            signature: NO_SIGNATURE,
        }
    }
}

/// Whether `s` starts with an SMB2 header: the magic, then a structure size of
/// 64.
pub open spec fn starts_with_header(s: Seq<u8>) -> bool {
    &&& s.len() >= 64
    &&& s.subrange(0, 4) == PROTOCOL_ID@
    &&& u16_at(s, 4) == 64
}

/// Parses the fixed header from the front of a segment, validating the magic
/// and structure size. Returns the header and the remaining bytes.
pub fn parse_header(buf: &[u8]) -> (r: Option<(Header, &[u8])>)
    ensures
        r is Some <==> starts_with_header(buf@),
        r matches Some((header, rest)) ==> header.is_at(buf@) && rest@ == buf@.skip(64),
{
    match Header::read_from_prefix(buf) {
        None => None,
        Some((header, rest)) => {
            let id = &header.protocol_id;
            if id[0] == PROTOCOL_ID[0] && id[1] == PROTOCOL_ID[1] && id[2] == PROTOCOL_ID[2]
                && id[3] == PROTOCOL_ID[3] && header.structure_size as usize == HEADER_SIZE {
                assert(header.protocol_id@ =~= PROTOCOL_ID@);
                Some((header, rest))
            } else {
                None
            }
        },
    }
}

/// The numbers that stand for commands, statuses, flags and classes on the wire.
pub proof fn law_wire_codes()
    ensures
        command::NEGOTIATE == 0 && command::SESSION_SETUP == 1 && command::LOGOFF == 2,
        command::TREE_CONNECT == 3 && command::TREE_DISCONNECT == 4 && command::CREATE == 5,
        command::CLOSE == 6 && command::FLUSH == 7 && command::READ == 8 && command::WRITE == 9,
        command::IOCTL == 0x0B && command::QUERY_DIRECTORY == 0x0E && command::QUERY_INFO == 0x10,
        status::SUCCESS == 0 && status::PENDING == 0x103,
        status::NO_MORE_FILES == 0x8000_0006 && status::END_OF_FILE == 0xC000_0011,
        status::NOT_SUPPORTED == 0xC000_00BB && status::INVALID_PARAMETER == 0xC000_000D,
        status::NO_SUCH_FILE == 0xC000_000F && status::OBJECT_NAME_NOT_FOUND == 0xC000_0034,
        status::OBJECT_PATH_NOT_FOUND == 0xC000_003A && status::ACCESS_DENIED == 0xC000_0022,
        status::BAD_NETWORK_NAME == 0xC000_00CC && status::INVALID_DEVICE_REQUEST == 0xC000_0010,
        status::BUFFER_TOO_SMALL == 0xC000_0023 && status::NOT_A_REPARSE_POINT == 0xC000_0275,
        file_info_class::DIRECTORY == 1 && file_info_class::FULL_DIRECTORY == 2,
        file_info_class::BOTH_DIRECTORY == 3 && file_info_class::BASIC == 4,
        file_info_class::STANDARD == 5 && file_info_class::STREAM == 22,
        file_info_class::NETWORK_OPEN == 34 && file_info_class::ATTRIBUTE_TAG == 35,
        file_info_class::ID_BOTH_DIRECTORY == 37,
        DIALECT_2_0_2 == 0x0202 && DIALECT_2_1_0 == 0x0210 && DIALECT_WILDCARD == 0x02FF,
        FLAGS_SERVER_TO_REDIR == 1 && FLAGS_RELATED_OPERATIONS == 4 && SESSION_FLAG_IS_GUEST == 1,
        SHARE_TYPE_DISK == 1 && FILE_OPEN == 1 && CREATE_ACTION_OPENED == 1,
        INFO_TYPE_FILE == 1 && INFO_TYPE_SECURITY == 3 && FSCTL_GET_REPARSE_POINT == 0x0009_00A8,
        RESTART_SCANS == 1 && RETURN_SINGLE_ENTRY == 2,
{
}

} // verus!
