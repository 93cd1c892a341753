//! Where each field of each record stands on the wire.

use super::{
    parse_header, Header, NegotiateRequest, NegotiateResponse, SessionSetupRequest,
    SessionSetupResponse, TreeConnectRequest, TreeConnectResponse, CreateRequest, CreateResponse,
    ReadRequest, ReadResponse, CloseRequest, CloseResponse, QueryInfoRequest, QueryDirectoryRequest,
    OutputBufferResponse, IoctlRequest, IoctlResponse,
};
use crate::wire::{
    law_every_buffer_is_readable, law_write_then_read, lemma_record_at, record_at, u16_at, u32_at,
    u64_at, Wire,
};
use vstd::prelude::*;

verus! {

/// The layout of the header record, 64 bytes: what a record is written as,
/// and what a buffer is read as.
pub proof fn law_header_layout(v: Header, s: Seq<u8>)
    requires
        s.len() >= 64,
    ensures
        ({
            let w = v.wire_bytes();
            &&& w.len() == 64
            &&& w.subrange(0, 4) == v.protocol_id@
            &&& u16_at(w, 4) == v.structure_size
            &&& u16_at(w, 6) == v.credit_charge
            &&& u32_at(w, 8) == v.status
            &&& u16_at(w, 12) == v.command
            &&& u16_at(w, 14) == v.credit_request
            &&& u32_at(w, 16) == v.flags
            &&& u32_at(w, 20) == v.next_command
            &&& u64_at(w, 24) == v.message_id
            &&& u32_at(w, 32) == v.reserved
            &&& u32_at(w, 36) == v.tree_id
            &&& u64_at(w, 40) == v.session_id
            &&& w.subrange(48, 64) == v.signature@
        }),
        ({
            let r = record_at::<Header>(s);
            &&& r.protocol_id@ == s.subrange(0, 4)
            &&& r.structure_size == u16_at(s, 4)
            &&& r.credit_charge == u16_at(s, 6)
            &&& r.status == u32_at(s, 8)
            &&& r.command == u16_at(s, 12)
            &&& r.credit_request == u16_at(s, 14)
            &&& r.flags == u32_at(s, 16)
            &&& r.next_command == u32_at(s, 20)
            &&& r.message_id == u64_at(s, 24)
            &&& r.reserved == u32_at(s, 32)
            &&& r.tree_id == u32_at(s, 36)
            &&& r.session_id == u64_at(s, 40)
            &&& r.signature@ == s.subrange(48, 64)
        }),
{
    v.lemma_layout(s);
    law_write_then_read(v, v, Seq::empty());
    assert(v.wire_bytes() + Seq::<u8>::empty() =~= v.wire_bytes());
    law_every_buffer_is_readable::<Header>(s);
}

/// The layout of the negotiate request record, 36 bytes: what a record is written as,
/// and what a buffer is read as.
pub proof fn law_negotiate_request_layout(v: NegotiateRequest, s: Seq<u8>)
    requires
        s.len() >= 36,
    ensures
        ({
            let w = v.wire_bytes();
            &&& w.len() == 36
            &&& u16_at(w, 0) == v.structure_size
            &&& u16_at(w, 2) == v.dialect_count
            &&& u16_at(w, 4) == v.security_mode
            &&& u16_at(w, 6) == v.reserved
            &&& u32_at(w, 8) == v.capabilities
            &&& w.subrange(12, 28) == v.client_guid@
            &&& u64_at(w, 28) == v.client_start_time
        }),
        ({
            let r = record_at::<NegotiateRequest>(s);
            &&& r.structure_size == u16_at(s, 0)
            &&& r.dialect_count == u16_at(s, 2)
            &&& r.security_mode == u16_at(s, 4)
            &&& r.reserved == u16_at(s, 6)
            &&& r.capabilities == u32_at(s, 8)
            &&& r.client_guid@ == s.subrange(12, 28)
            &&& r.client_start_time == u64_at(s, 28)
        }),
{
    v.lemma_layout(s);
    law_write_then_read(v, v, Seq::empty());
    assert(v.wire_bytes() + Seq::<u8>::empty() =~= v.wire_bytes());
    law_every_buffer_is_readable::<NegotiateRequest>(s);
}

/// The layout of the negotiate response record, 64 bytes: what a record is written as,
/// and what a buffer is read as.
pub proof fn law_negotiate_response_layout(v: NegotiateResponse, s: Seq<u8>)
    requires
        s.len() >= 64,
    ensures
        ({
            let w = v.wire_bytes();
            &&& w.len() == 64
            &&& u16_at(w, 0) == v.structure_size
            &&& u16_at(w, 2) == v.security_mode
            &&& u16_at(w, 4) == v.dialect_revision
            &&& u16_at(w, 6) == v.negotiate_context_count
            &&& w.subrange(8, 24) == v.server_guid@
            &&& u32_at(w, 24) == v.capabilities
            &&& u32_at(w, 28) == v.max_transact_size
            &&& u32_at(w, 32) == v.max_read_size
            &&& u32_at(w, 36) == v.max_write_size
            &&& u64_at(w, 40) == v.system_time
            &&& u64_at(w, 48) == v.server_start_time
            &&& u16_at(w, 56) == v.security_buffer_offset
            &&& u16_at(w, 58) == v.security_buffer_length
            &&& u32_at(w, 60) == v.negotiate_context_offset
        }),
        ({
            let r = record_at::<NegotiateResponse>(s);
            &&& r.structure_size == u16_at(s, 0)
            &&& r.security_mode == u16_at(s, 2)
            &&& r.dialect_revision == u16_at(s, 4)
            &&& r.negotiate_context_count == u16_at(s, 6)
            &&& r.server_guid@ == s.subrange(8, 24)
            &&& r.capabilities == u32_at(s, 24)
            &&& r.max_transact_size == u32_at(s, 28)
            &&& r.max_read_size == u32_at(s, 32)
            &&& r.max_write_size == u32_at(s, 36)
            &&& r.system_time == u64_at(s, 40)
            &&& r.server_start_time == u64_at(s, 48)
            &&& r.security_buffer_offset == u16_at(s, 56)
            &&& r.security_buffer_length == u16_at(s, 58)
            &&& r.negotiate_context_offset == u32_at(s, 60)
        }),
{
    v.lemma_layout(s);
    law_write_then_read(v, v, Seq::empty());
    assert(v.wire_bytes() + Seq::<u8>::empty() =~= v.wire_bytes());
    law_every_buffer_is_readable::<NegotiateResponse>(s);
}

/// The layout of the session setup request record, 24 bytes: what a record is written as,
/// and what a buffer is read as.
pub proof fn law_session_setup_request_layout(v: SessionSetupRequest, s: Seq<u8>)
    requires
        s.len() >= 24,
    ensures
        ({
            let w = v.wire_bytes();
            &&& w.len() == 24
            &&& u16_at(w, 0) == v.structure_size
            &&& w[2] == v.flags
            &&& w[3] == v.security_mode
            &&& u32_at(w, 4) == v.capabilities
            &&& u32_at(w, 8) == v.channel
            &&& u16_at(w, 12) == v.security_buffer_offset
            &&& u16_at(w, 14) == v.security_buffer_length
            &&& u64_at(w, 16) == v.previous_session_id
        }),
        ({
            let r = record_at::<SessionSetupRequest>(s);
            &&& r.structure_size == u16_at(s, 0)
            &&& r.flags == s[2]
            &&& r.security_mode == s[3]
            &&& r.capabilities == u32_at(s, 4)
            &&& r.channel == u32_at(s, 8)
            &&& r.security_buffer_offset == u16_at(s, 12)
            &&& r.security_buffer_length == u16_at(s, 14)
            &&& r.previous_session_id == u64_at(s, 16)
        }),
{
    v.lemma_layout(s);
    law_write_then_read(v, v, Seq::empty());
    assert(v.wire_bytes() + Seq::<u8>::empty() =~= v.wire_bytes());
    law_every_buffer_is_readable::<SessionSetupRequest>(s);
}

/// The layout of the session setup response record, 8 bytes: what a record is written as,
/// and what a buffer is read as.
pub proof fn law_session_setup_response_layout(v: SessionSetupResponse, s: Seq<u8>)
    requires
        s.len() >= 8,
    ensures
        ({
            let w = v.wire_bytes();
            &&& w.len() == 8
            &&& u16_at(w, 0) == v.structure_size
            &&& u16_at(w, 2) == v.session_flags
            &&& u16_at(w, 4) == v.security_buffer_offset
            &&& u16_at(w, 6) == v.security_buffer_length
        }),
        ({
            let r = record_at::<SessionSetupResponse>(s);
            &&& r.structure_size == u16_at(s, 0)
            &&& r.session_flags == u16_at(s, 2)
            &&& r.security_buffer_offset == u16_at(s, 4)
            &&& r.security_buffer_length == u16_at(s, 6)
        }),
{
    v.lemma_layout(s);
    law_write_then_read(v, v, Seq::empty());
    assert(v.wire_bytes() + Seq::<u8>::empty() =~= v.wire_bytes());
    law_every_buffer_is_readable::<SessionSetupResponse>(s);
}

/// The layout of the tree connect request record, 8 bytes: what a record is written as,
/// and what a buffer is read as.
pub proof fn law_tree_connect_request_layout(v: TreeConnectRequest, s: Seq<u8>)
    requires
        s.len() >= 8,
    ensures
        ({
            let w = v.wire_bytes();
            &&& w.len() == 8
            &&& u16_at(w, 0) == v.structure_size
            &&& u16_at(w, 2) == v.reserved
            &&& u16_at(w, 4) == v.path_offset
            &&& u16_at(w, 6) == v.path_length
        }),
        ({
            let r = record_at::<TreeConnectRequest>(s);
            &&& r.structure_size == u16_at(s, 0)
            &&& r.reserved == u16_at(s, 2)
            &&& r.path_offset == u16_at(s, 4)
            &&& r.path_length == u16_at(s, 6)
        }),
{
    v.lemma_layout(s);
    law_write_then_read(v, v, Seq::empty());
    assert(v.wire_bytes() + Seq::<u8>::empty() =~= v.wire_bytes());
    law_every_buffer_is_readable::<TreeConnectRequest>(s);
}

/// The layout of the tree connect response record, 16 bytes: what a record is written as,
/// and what a buffer is read as.
pub proof fn law_tree_connect_response_layout(v: TreeConnectResponse, s: Seq<u8>)
    requires
        s.len() >= 16,
    ensures
        ({
            let w = v.wire_bytes();
            &&& w.len() == 16
            &&& u16_at(w, 0) == v.structure_size
            &&& w[2] == v.share_type
            &&& w[3] == v.reserved
            &&& u32_at(w, 4) == v.share_flags
            &&& u32_at(w, 8) == v.capabilities
            &&& u32_at(w, 12) == v.maximal_access
        }),
        ({
            let r = record_at::<TreeConnectResponse>(s);
            &&& r.structure_size == u16_at(s, 0)
            &&& r.share_type == s[2]
            &&& r.reserved == s[3]
            &&& r.share_flags == u32_at(s, 4)
            &&& r.capabilities == u32_at(s, 8)
            &&& r.maximal_access == u32_at(s, 12)
        }),
{
    v.lemma_layout(s);
    law_write_then_read(v, v, Seq::empty());
    assert(v.wire_bytes() + Seq::<u8>::empty() =~= v.wire_bytes());
    law_every_buffer_is_readable::<TreeConnectResponse>(s);
}

/// The layout of the create request record, 56 bytes: what a record is written as,
/// and what a buffer is read as.
pub proof fn law_create_request_layout(v: CreateRequest, s: Seq<u8>)
    requires
        s.len() >= 56,
    ensures
        ({
            let w = v.wire_bytes();
            &&& w.len() == 56
            &&& u16_at(w, 0) == v.structure_size
            &&& w[2] == v.security_flags
            &&& w[3] == v.requested_oplock_level
            &&& u32_at(w, 4) == v.impersonation_level
            &&& u64_at(w, 8) == v.smb_create_flags
            &&& u64_at(w, 16) == v.reserved
            &&& u32_at(w, 24) == v.desired_access
            &&& u32_at(w, 28) == v.file_attributes
            &&& u32_at(w, 32) == v.share_access
            &&& u32_at(w, 36) == v.create_disposition
            &&& u32_at(w, 40) == v.create_options
            &&& u16_at(w, 44) == v.name_offset
            &&& u16_at(w, 46) == v.name_length
            &&& u32_at(w, 48) == v.create_contexts_offset
            &&& u32_at(w, 52) == v.create_contexts_length
        }),
        ({
            let r = record_at::<CreateRequest>(s);
            &&& r.structure_size == u16_at(s, 0)
            &&& r.security_flags == s[2]
            &&& r.requested_oplock_level == s[3]
            &&& r.impersonation_level == u32_at(s, 4)
            &&& r.smb_create_flags == u64_at(s, 8)
            &&& r.reserved == u64_at(s, 16)
            &&& r.desired_access == u32_at(s, 24)
            &&& r.file_attributes == u32_at(s, 28)
            &&& r.share_access == u32_at(s, 32)
            &&& r.create_disposition == u32_at(s, 36)
            &&& r.create_options == u32_at(s, 40)
            &&& r.name_offset == u16_at(s, 44)
            &&& r.name_length == u16_at(s, 46)
            &&& r.create_contexts_offset == u32_at(s, 48)
            &&& r.create_contexts_length == u32_at(s, 52)
        }),
{
    v.lemma_layout(s);
    law_write_then_read(v, v, Seq::empty());
    assert(v.wire_bytes() + Seq::<u8>::empty() =~= v.wire_bytes());
    law_every_buffer_is_readable::<CreateRequest>(s);
}

/// The layout of the create response record, 88 bytes: what a record is written as,
/// and what a buffer is read as.
pub proof fn law_create_response_layout(v: CreateResponse, s: Seq<u8>)
    requires
        s.len() >= 88,
    ensures
        ({
            let w = v.wire_bytes();
            &&& w.len() == 88
            &&& u16_at(w, 0) == v.structure_size
            &&& w[2] == v.oplock_level
            &&& w[3] == v.flags
            &&& u32_at(w, 4) == v.create_action
            &&& u64_at(w, 8) == v.creation_time
            &&& u64_at(w, 16) == v.last_access_time
            &&& u64_at(w, 24) == v.last_write_time
            &&& u64_at(w, 32) == v.change_time
            &&& u64_at(w, 40) == v.allocation_size
            &&& u64_at(w, 48) == v.end_of_file
            &&& u32_at(w, 56) == v.file_attributes
            &&& u32_at(w, 60) == v.reserved2
            &&& w.subrange(64, 80) == v.file_id@
            &&& u32_at(w, 80) == v.create_contexts_offset
            &&& u32_at(w, 84) == v.create_contexts_length
        }),
        ({
            let r = record_at::<CreateResponse>(s);
            &&& r.structure_size == u16_at(s, 0)
            &&& r.oplock_level == s[2]
            &&& r.flags == s[3]
            &&& r.create_action == u32_at(s, 4)
            &&& r.creation_time == u64_at(s, 8)
            &&& r.last_access_time == u64_at(s, 16)
            &&& r.last_write_time == u64_at(s, 24)
            &&& r.change_time == u64_at(s, 32)
            &&& r.allocation_size == u64_at(s, 40)
            &&& r.end_of_file == u64_at(s, 48)
            &&& r.file_attributes == u32_at(s, 56)
            &&& r.reserved2 == u32_at(s, 60)
            &&& r.file_id@ == s.subrange(64, 80)
            &&& r.create_contexts_offset == u32_at(s, 80)
            &&& r.create_contexts_length == u32_at(s, 84)
        }),
{
    v.lemma_layout(s);
    law_write_then_read(v, v, Seq::empty());
    assert(v.wire_bytes() + Seq::<u8>::empty() =~= v.wire_bytes());
    law_every_buffer_is_readable::<CreateResponse>(s);
}

/// The layout of the read request record, 48 bytes: what a record is written as,
/// and what a buffer is read as.
pub proof fn law_read_request_layout(v: ReadRequest, s: Seq<u8>)
    requires
        s.len() >= 48,
    ensures
        ({
            let w = v.wire_bytes();
            &&& w.len() == 48
            &&& u16_at(w, 0) == v.structure_size
            &&& w[2] == v.padding
            &&& w[3] == v.flags
            &&& u32_at(w, 4) == v.length
            &&& u64_at(w, 8) == v.offset
            &&& w.subrange(16, 32) == v.file_id@
            &&& u32_at(w, 32) == v.minimum_count
            &&& u32_at(w, 36) == v.channel
            &&& u32_at(w, 40) == v.remaining_bytes
            &&& u16_at(w, 44) == v.read_channel_info_offset
            &&& u16_at(w, 46) == v.read_channel_info_length
        }),
        ({
            let r = record_at::<ReadRequest>(s);
            &&& r.structure_size == u16_at(s, 0)
            &&& r.padding == s[2]
            &&& r.flags == s[3]
            &&& r.length == u32_at(s, 4)
            &&& r.offset == u64_at(s, 8)
            &&& r.file_id@ == s.subrange(16, 32)
            &&& r.minimum_count == u32_at(s, 32)
            &&& r.channel == u32_at(s, 36)
            &&& r.remaining_bytes == u32_at(s, 40)
            &&& r.read_channel_info_offset == u16_at(s, 44)
            &&& r.read_channel_info_length == u16_at(s, 46)
        }),
{
    v.lemma_layout(s);
    law_write_then_read(v, v, Seq::empty());
    assert(v.wire_bytes() + Seq::<u8>::empty() =~= v.wire_bytes());
    law_every_buffer_is_readable::<ReadRequest>(s);
}

/// The layout of the read response record, 16 bytes: what a record is written as,
/// and what a buffer is read as.
pub proof fn law_read_response_layout(v: ReadResponse, s: Seq<u8>)
    requires
        s.len() >= 16,
    ensures
        ({
            let w = v.wire_bytes();
            &&& w.len() == 16
            &&& u16_at(w, 0) == v.structure_size
            &&& w[2] == v.data_offset
            &&& w[3] == v.reserved
            &&& u32_at(w, 4) == v.data_length
            &&& u32_at(w, 8) == v.data_remaining
            &&& u32_at(w, 12) == v.reserved2
        }),
        ({
            let r = record_at::<ReadResponse>(s);
            &&& r.structure_size == u16_at(s, 0)
            &&& r.data_offset == s[2]
            &&& r.reserved == s[3]
            &&& r.data_length == u32_at(s, 4)
            &&& r.data_remaining == u32_at(s, 8)
            &&& r.reserved2 == u32_at(s, 12)
        }),
{
    v.lemma_layout(s);
    law_write_then_read(v, v, Seq::empty());
    assert(v.wire_bytes() + Seq::<u8>::empty() =~= v.wire_bytes());
    law_every_buffer_is_readable::<ReadResponse>(s);
}

/// The layout of the close request record, 24 bytes: what a record is written as,
/// and what a buffer is read as.
pub proof fn law_close_request_layout(v: CloseRequest, s: Seq<u8>)
    requires
        s.len() >= 24,
    ensures
        ({
            let w = v.wire_bytes();
            &&& w.len() == 24
            &&& u16_at(w, 0) == v.structure_size
            &&& u16_at(w, 2) == v.flags
            &&& u32_at(w, 4) == v.reserved
            &&& w.subrange(8, 24) == v.file_id@
        }),
        ({
            let r = record_at::<CloseRequest>(s);
            &&& r.structure_size == u16_at(s, 0)
            &&& r.flags == u16_at(s, 2)
            &&& r.reserved == u32_at(s, 4)
            &&& r.file_id@ == s.subrange(8, 24)
        }),
{
    v.lemma_layout(s);
    law_write_then_read(v, v, Seq::empty());
    assert(v.wire_bytes() + Seq::<u8>::empty() =~= v.wire_bytes());
    law_every_buffer_is_readable::<CloseRequest>(s);
}

/// The layout of the close response record, 60 bytes: what a record is written as,
/// and what a buffer is read as.
pub proof fn law_close_response_layout(v: CloseResponse, s: Seq<u8>)
    requires
        s.len() >= 60,
    ensures
        ({
            let w = v.wire_bytes();
            &&& w.len() == 60
            &&& u16_at(w, 0) == v.structure_size
            &&& u16_at(w, 2) == v.flags
            &&& u32_at(w, 4) == v.reserved
            &&& u64_at(w, 8) == v.creation_time
            &&& u64_at(w, 16) == v.last_access_time
            &&& u64_at(w, 24) == v.last_write_time
            &&& u64_at(w, 32) == v.change_time
            &&& u64_at(w, 40) == v.allocation_size
            &&& u64_at(w, 48) == v.end_of_file
            &&& u32_at(w, 56) == v.file_attributes
        }),
        ({
            let r = record_at::<CloseResponse>(s);
            &&& r.structure_size == u16_at(s, 0)
            &&& r.flags == u16_at(s, 2)
            &&& r.reserved == u32_at(s, 4)
            &&& r.creation_time == u64_at(s, 8)
            &&& r.last_access_time == u64_at(s, 16)
            &&& r.last_write_time == u64_at(s, 24)
            &&& r.change_time == u64_at(s, 32)
            &&& r.allocation_size == u64_at(s, 40)
            &&& r.end_of_file == u64_at(s, 48)
            &&& r.file_attributes == u32_at(s, 56)
        }),
{
    v.lemma_layout(s);
    law_write_then_read(v, v, Seq::empty());
    assert(v.wire_bytes() + Seq::<u8>::empty() =~= v.wire_bytes());
    law_every_buffer_is_readable::<CloseResponse>(s);
}

/// The layout of the query info request record, 40 bytes: what a record is written as,
/// and what a buffer is read as.
pub proof fn law_query_info_request_layout(v: QueryInfoRequest, s: Seq<u8>)
    requires
        s.len() >= 40,
    ensures
        ({
            let w = v.wire_bytes();
            &&& w.len() == 40
            &&& u16_at(w, 0) == v.structure_size
            &&& w[2] == v.info_type
            &&& w[3] == v.file_info_class
            &&& u32_at(w, 4) == v.output_buffer_length
            &&& u16_at(w, 8) == v.input_buffer_offset
            &&& u16_at(w, 10) == v.reserved
            &&& u32_at(w, 12) == v.input_buffer_length
            &&& u32_at(w, 16) == v.additional_information
            &&& u32_at(w, 20) == v.flags
            &&& w.subrange(24, 40) == v.file_id@
        }),
        ({
            let r = record_at::<QueryInfoRequest>(s);
            &&& r.structure_size == u16_at(s, 0)
            &&& r.info_type == s[2]
            &&& r.file_info_class == s[3]
            &&& r.output_buffer_length == u32_at(s, 4)
            &&& r.input_buffer_offset == u16_at(s, 8)
            &&& r.reserved == u16_at(s, 10)
            &&& r.input_buffer_length == u32_at(s, 12)
            &&& r.additional_information == u32_at(s, 16)
            &&& r.flags == u32_at(s, 20)
            &&& r.file_id@ == s.subrange(24, 40)
        }),
{
    v.lemma_layout(s);
    law_write_then_read(v, v, Seq::empty());
    assert(v.wire_bytes() + Seq::<u8>::empty() =~= v.wire_bytes());
    law_every_buffer_is_readable::<QueryInfoRequest>(s);
}

/// The layout of the query directory request record, 32 bytes: what a record is written as,
/// and what a buffer is read as.
pub proof fn law_query_directory_request_layout(v: QueryDirectoryRequest, s: Seq<u8>)
    requires
        s.len() >= 32,
    ensures
        ({
            let w = v.wire_bytes();
            &&& w.len() == 32
            &&& u16_at(w, 0) == v.structure_size
            &&& w[2] == v.file_information_class
            &&& w[3] == v.flags
            &&& u32_at(w, 4) == v.file_index
            &&& w.subrange(8, 24) == v.file_id@
            &&& u16_at(w, 24) == v.file_name_offset
            &&& u16_at(w, 26) == v.file_name_length
            &&& u32_at(w, 28) == v.output_buffer_length
        }),
        ({
            let r = record_at::<QueryDirectoryRequest>(s);
            &&& r.structure_size == u16_at(s, 0)
            &&& r.file_information_class == s[2]
            &&& r.flags == s[3]
            &&& r.file_index == u32_at(s, 4)
            &&& r.file_id@ == s.subrange(8, 24)
            &&& r.file_name_offset == u16_at(s, 24)
            &&& r.file_name_length == u16_at(s, 26)
            &&& r.output_buffer_length == u32_at(s, 28)
        }),
{
    v.lemma_layout(s);
    law_write_then_read(v, v, Seq::empty());
    assert(v.wire_bytes() + Seq::<u8>::empty() =~= v.wire_bytes());
    law_every_buffer_is_readable::<QueryDirectoryRequest>(s);
}

/// The layout of the output buffer response record, 8 bytes: what a record is written as,
/// and what a buffer is read as.
pub proof fn law_output_buffer_response_layout(v: OutputBufferResponse, s: Seq<u8>)
    requires
        s.len() >= 8,
    ensures
        ({
            let w = v.wire_bytes();
            &&& w.len() == 8
            &&& u16_at(w, 0) == v.structure_size
            &&& u16_at(w, 2) == v.output_buffer_offset
            &&& u32_at(w, 4) == v.output_buffer_length
        }),
        ({
            let r = record_at::<OutputBufferResponse>(s);
            &&& r.structure_size == u16_at(s, 0)
            &&& r.output_buffer_offset == u16_at(s, 2)
            &&& r.output_buffer_length == u32_at(s, 4)
        }),
{
    v.lemma_layout(s);
    law_write_then_read(v, v, Seq::empty());
    assert(v.wire_bytes() + Seq::<u8>::empty() =~= v.wire_bytes());
    law_every_buffer_is_readable::<OutputBufferResponse>(s);
}

/// The layout of the ioctl request record, 56 bytes: what a record is written as,
/// and what a buffer is read as.
pub proof fn law_ioctl_request_layout(v: IoctlRequest, s: Seq<u8>)
    requires
        s.len() >= 56,
    ensures
        ({
            let w = v.wire_bytes();
            &&& w.len() == 56
            &&& u16_at(w, 0) == v.structure_size
            &&& u16_at(w, 2) == v.reserved
            &&& u32_at(w, 4) == v.ctl_code
            &&& w.subrange(8, 24) == v.file_id@
            &&& u32_at(w, 24) == v.input_offset
            &&& u32_at(w, 28) == v.input_count
            &&& u32_at(w, 32) == v.max_input_response
            &&& u32_at(w, 36) == v.output_offset
            &&& u32_at(w, 40) == v.output_count
            &&& u32_at(w, 44) == v.max_output_response
            &&& u32_at(w, 48) == v.flags
            &&& u32_at(w, 52) == v.reserved2
        }),
        ({
            let r = record_at::<IoctlRequest>(s);
            &&& r.structure_size == u16_at(s, 0)
            &&& r.reserved == u16_at(s, 2)
            &&& r.ctl_code == u32_at(s, 4)
            &&& r.file_id@ == s.subrange(8, 24)
            &&& r.input_offset == u32_at(s, 24)
            &&& r.input_count == u32_at(s, 28)
            &&& r.max_input_response == u32_at(s, 32)
            &&& r.output_offset == u32_at(s, 36)
            &&& r.output_count == u32_at(s, 40)
            &&& r.max_output_response == u32_at(s, 44)
            &&& r.flags == u32_at(s, 48)
            &&& r.reserved2 == u32_at(s, 52)
        }),
{
    v.lemma_layout(s);
    law_write_then_read(v, v, Seq::empty());
    assert(v.wire_bytes() + Seq::<u8>::empty() =~= v.wire_bytes());
    law_every_buffer_is_readable::<IoctlRequest>(s);
}

/// The layout of the ioctl response record, 48 bytes: what a record is written as,
/// and what a buffer is read as.
pub proof fn law_ioctl_response_layout(v: IoctlResponse, s: Seq<u8>)
    requires
        s.len() >= 48,
    ensures
        ({
            let w = v.wire_bytes();
            &&& w.len() == 48
            &&& u16_at(w, 0) == v.structure_size
            &&& u16_at(w, 2) == v.reserved
            &&& u32_at(w, 4) == v.ctl_code
            &&& w.subrange(8, 24) == v.file_id@
            &&& u32_at(w, 24) == v.input_offset
            &&& u32_at(w, 28) == v.input_count
            &&& u32_at(w, 32) == v.output_offset
            &&& u32_at(w, 36) == v.output_count
            &&& u32_at(w, 40) == v.flags
            &&& u32_at(w, 44) == v.reserved2
        }),
        ({
            let r = record_at::<IoctlResponse>(s);
            &&& r.structure_size == u16_at(s, 0)
            &&& r.reserved == u16_at(s, 2)
            &&& r.ctl_code == u32_at(s, 4)
            &&& r.file_id@ == s.subrange(8, 24)
            &&& r.input_offset == u32_at(s, 24)
            &&& r.input_count == u32_at(s, 28)
            &&& r.output_offset == u32_at(s, 32)
            &&& r.output_count == u32_at(s, 36)
            &&& r.flags == u32_at(s, 40)
            &&& r.reserved2 == u32_at(s, 44)
        }),
{
    v.lemma_layout(s);
    law_write_then_read(v, v, Seq::empty());
    assert(v.wire_bytes() + Seq::<u8>::empty() =~= v.wire_bytes());
    law_every_buffer_is_readable::<IoctlResponse>(s);
}

/// A header is read exactly where the four bytes of the protocol and a structure size
/// of 64 stand, from the 64 bytes there, and what is left is what stands behind them.
pub proof fn law_header_is_read(buf: &[u8], r: Option<(Header, &[u8])>)
    requires
        call_ensures(parse_header, (buf,), r),
    ensures
        r is Some <==> buf@.len() >= 64 && buf@[0] == 0xFE && buf@[1] == 0x53 && buf@[2] == 0x4D
            && buf@[3] == 0x42 && u16_at(buf@, 4) == 64,
        r matches Some((header, rest)) ==> header == record_at::<Header>(buf@) && rest@
            == buf@.skip(64),
{
    if buf@.len() >= 64 {
        let magic = buf@.subrange(0, 4);
        assert(magic[0] == buf@[0] && magic[1] == buf@[1] && magic[2] == buf@[2] && magic[3]
            == buf@[3]);
        if buf@[0] == 0xFE && buf@[1] == 0x53 && buf@[2] == 0x4D && buf@[3] == 0x42 {
            assert(magic =~= super::PROTOCOL_ID@);
        }
    }
    if let Some((header, rest)) = r {
        lemma_record_at(header, buf@);
    }
}

/// A response header echoes the request's command, message, tree, session and credit
/// charge, carries the status, grants one credit, and has the flag of a server's
/// message alone.
pub proof fn law_response_header(request: Header, nt_status: u32, r: Header)
    requires
        call_ensures(Header::response_for, (&request, nt_status), r),
    ensures
        r.protocol_id@ == seq![0xFEu8, 0x53, 0x4D, 0x42],
        r.structure_size == 64,
        r.credit_charge == request.credit_charge,
        r.status == nt_status,
        r.command == request.command,
        r.credit_request == 1,
        r.flags == 1,
        r.next_command == 0,
        r.message_id == request.message_id,
        r.reserved == 0,
        r.tree_id == request.tree_id,
        r.session_id == request.session_id,
        forall|i: int| 0 <= i < 16 ==> r.signature@[i] == 0,
{
    assert(super::PROTOCOL_ID@ =~= seq![0xFEu8, 0x53, 0x4D, 0x42]);
}

} // verus!
