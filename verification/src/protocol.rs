//! vSMB wire protocol constants and structures.
//!
//! The transport is a VMBus **byte pipe**. A stream of *segments* flows over
//! it. Each segment is prefixed with a 4-byte, **big-endian** header:
//!
//! ```text
//! bits 31..24  segment type  (SMB = 0x00, VERSION = 0x01)
//! bits 23..0   segment length (payload byte count, excluding this header)
//! ```
//!
//! The first segment the guest sends is a VERSION segment used to negotiate
//! the protocol version and capabilities. After that, SMB2 segments flow.

use crate::wire::{
    get_u32, law_every_buffer_is_readable, law_write_then_read, le32, lemma_field32, put_u32,
    record_at, u32_at, Wire,
};
use vstd::prelude::*;
use vstd::slice::slice_subrange;

verus! {

/// vSMB VMBus interface (device) type GUID,
/// `4d12e519-17a0-4ae4-8eaa-5270fc6abdb7`.
pub const INTERFACE_TYPE: u128 = 0x4d12e519_17a0_4ae4_8eaa_5270fc6abdb7;

/// vSMB VMBus channel instance GUID, `dcc079ae-60ba-4d07-847c-3493609c0870`.
pub const INSTANCE: u128 = 0xdcc079ae_60ba_4d07_847c_3493609c0870;

/// Segment header type: an SMB2 payload.
pub const SEGMENT_HEADER_TYPE_SMB: u32 = 0x0000_0000;

/// Segment header type: a version-negotiation payload.
pub const SEGMENT_HEADER_TYPE_VERSION: u32 = 0x0100_0000;

/// Mask selecting the segment type bits from the segment header.
pub const SEGMENT_HEADER_TYPE_MASK: u32 = 0xFF00_0000;

/// Returned in a version response when the requested version is unsupported.
pub const PROTOCOL_VERSION_INVALID: u32 = 0xFFFF_FFFF;

/// RS1-era pre-negotiation version.
pub const PROTOCOL_VERSION_LEGACY: u32 = 0;

/// RS2 version: supports RFG and protocol negotiation.
pub const PROTOCOL_VERSION_1: u32 = 1;

/// Highest version this host understands.
pub const PROTOCOL_VERSION_CURRENT: u32 = PROTOCOL_VERSION_1;

/// Capability flag: RDMA-v2 (the DirectMap / zero-copy channel).
pub const CAPABILITY_FLAG_RDMA_V2: u32 = 0x0000_0001;

/// All capability flags this host knows about.
pub const CAPABILITY_KNOWN_FLAGS: u32 = 0x0000_0001;

/// The maximum segment payload length this device will accept from the guest.
///
/// The wire format allows up to 24 bits (~16 MiB); we cap smaller to bound
/// guest-controlled allocations during bring-up.
pub const MAX_SEGMENT_LEN: usize = 0x10_0000;

/// A version-negotiation packet. Mirrors `VSMB_SEGMENT_VERSION_PACKET`.
///
/// The fields are plain little-endian `ULONG`s (the Hyper-V source does not
/// byte-swap them; only the segment header is network byte order).
#[derive(Copy, Clone, Debug)]
pub struct VersionPacket {
    /// Guest: highest supported version. Host: accepted version, or
    /// [`PROTOCOL_VERSION_INVALID`].
    pub version_requested: u32,
    /// Guest: requested capability bits. Host: the subset it will support.
    pub capabilities: u32,
}

impl Wire for VersionPacket {
    open spec fn wire_len() -> nat {
        8
    }

    open spec fn wire_bytes(&self) -> Seq<u8> {
        Seq::<u8>::empty()
            + le32(self.version_requested)
            + le32(self.capabilities)
    }

    open spec fn is_at(&self, s: Seq<u8>) -> bool {
        &&& self.version_requested == u32_at(s, 0)
        &&& self.capabilities == u32_at(s, 4)
    }

    proof fn lemma_layout(&self, s: Seq<u8>) {
        let p0 = Seq::<u8>::empty();
        assert(s.take(0) =~= p0);
        lemma_field32(s, p0, self.version_requested);
        let p1 = p0 + le32(self.version_requested);
        lemma_field32(s, p1, self.capabilities);
    }

    proof fn lemma_unique(&self, other: &Self, s: Seq<u8>) {
    }

    proof fn lemma_readable(s: Seq<u8>) {
        let v = VersionPacket {
            version_requested: u32_at(s, 0),
            capabilities: u32_at(s, 4),
        };
        assert(v.is_at(s));
    }

    fn read_from_prefix(source: &[u8]) -> (r: Option<(Self, &[u8])>) {
        if source.len() < 8 {
            return None;
        }
        let v = VersionPacket {
            version_requested: get_u32(source, 0),
            capabilities: get_u32(source, 4),
        };
        Some((v, slice_subrange(source, 8, source.len())))
    }

    fn as_bytes(&self) -> (r: Vec<u8>) {
        let mut out: Vec<u8> = Vec::new();
        put_u32(&mut out, self.version_requested);
        put_u32(&mut out, self.capabilities);
        out
    }
}

/// The segment type in a header value: its top eight bits, in place.
pub open spec fn type_bits(header: u32) -> u32 {
    header & SEGMENT_HEADER_TYPE_MASK
}

/// The payload length in a header value: its low 24 bits.
pub open spec fn length_bits(header: u32) -> u32 {
    header & !SEGMENT_HEADER_TYPE_MASK
}

/// The header value of a segment: the top eight bits of the type above the low
/// 24 bits of the payload length.
pub open spec fn header_value(segment_type: u32, payload_len: int) -> u32 {
    (segment_type / 0x100_0000 * 0x100_0000 + payload_len % 0x100_0000) as u32
}

/// The two fields of a header value, in arithmetic terms.
pub proof fn lemma_header_fields(header: u32)
    ensures
        type_bits(header) == header / 0x100_0000 * 0x100_0000,
        length_bits(header) == header % 0x100_0000,
        length_bits(header) < 0x100_0000,
{
    assert(header & 0xFF00_0000u32 == header / 0x100_0000 * 0x100_0000) by (bit_vector);
    assert(header & !0xFF00_0000u32 == header % 0x100_0000) by (bit_vector);
}

/// What a segment header is read back as: the type bits always, and the
/// payload length wherever 24 bits can hold it.
pub proof fn law_segment_header_round_trip(segment_type: u32, payload_len: int)
    requires
        0 <= payload_len < 0x100_0000,
    ensures
        type_bits(header_value(segment_type, payload_len)) == type_bits(segment_type),
        length_bits(header_value(segment_type, payload_len)) == payload_len,
{
    let h = header_value(segment_type, payload_len);
    lemma_header_fields(h);
    lemma_header_fields(segment_type);
}

/// Builds the big-endian segment header value from a type and payload length.
pub fn segment_header(segment_type: u32, payload_len: usize) -> (r: u32)
    ensures
        r == header_value(segment_type, payload_len as int),
{
    let len: u64 = payload_len as u64;
    let low: u32 = len as u32;
    assert(low & !0xFF00_0000u32 == len % 0x100_0000) by (bit_vector)
        requires
            low == len as u32,
    ;
    proof {
        lemma_header_fields(segment_type);
        let a = low & !SEGMENT_HEADER_TYPE_MASK;
        let b = segment_type & SEGMENT_HEADER_TYPE_MASK;
        assert(a | b == a + b) by (bit_vector)
            requires
                a == low & !0xFF00_0000u32,
                b == segment_type & 0xFF00_0000u32,
        ;
    }
    (low & !SEGMENT_HEADER_TYPE_MASK) | (segment_type & SEGMENT_HEADER_TYPE_MASK)
}

/// The value of four big-endian bytes.
pub open spec fn be32(b: Seq<u8>) -> u32 {
    (16777216 * b[0] + 65536 * b[1] + 256 * b[2] + b[3]) as u32
}

/// The four big-endian bytes of `v`.
pub open spec fn be32_bytes(v: u32) -> Seq<u8> {
    seq![
        (v / 16777216) as u8,
        (v / 65536 % 256) as u8,
        (v / 256 % 256) as u8,
        (v % 256) as u8,
    ]
}

/// Four big-endian bytes are read back as the value they were written from.
pub proof fn law_be32_round_trip(v: u32)
    ensures
        be32(be32_bytes(v)) == v,
{
    assert(v / 65536 == v / 256 / 256);
    assert(v / 16777216 == v / 65536 / 256);
}

/// Reads a big-endian `u32`.
pub fn from_be_bytes(b: [u8; 4]) -> (r: u32)
    ensures
        r == be32(b@),
{
    16777216 * (b[0] as u32) + 65536 * (b[1] as u32) + 256 * (b[2] as u32) + b[3] as u32
}

/// Writes a big-endian `u32`.
pub fn to_be_bytes(v: u32) -> (r: [u8; 4])
    ensures
        r@ == be32_bytes(v),
{
    let r = [
        (v / 16777216) as u8,
        (v / 65536 % 256) as u8,
        (v / 256 % 256) as u8,
        (v % 256) as u8,
    ];
    assert(r@ =~= be32_bytes(v));
    r
}

/// A segment header: the type in its top byte, the length in its low 24 bits, and
/// both as big-endian bytes.
pub proof fn law_segment_header(segment_type: u32, payload_len: usize, r: u32, b: [u8; 4])
    requires
        call_ensures(segment_header, (segment_type, payload_len), r),
        call_ensures(to_be_bytes, (r,), b),
    ensures
        r / 0x100_0000 == segment_type / 0x100_0000,
        r % 0x100_0000 == payload_len as int % 0x100_0000,
        b@[0] == segment_type / 0x100_0000,
        b@[1] * 0x1_0000 + b@[2] * 0x100 + b@[3] == payload_len as int % 0x100_0000,
{
    assert(r / 65536 == r / 256 / 256);
    assert(r / 16777216 == r / 65536 / 256);
}

/// What four bytes say as a segment header, the first being the most significant.
pub proof fn law_big_endian(b: [u8; 4], r: u32)
    requires
        call_ensures(from_be_bytes, (b,), r),
    ensures
        r == b@[0] * 0x100_0000 + b@[1] * 0x1_0000 + b@[2] * 0x100 + b@[3],
{
}

/// The layout of a version packet: the version, then the capabilities.
pub proof fn law_version_packet_layout(v: VersionPacket, s: Seq<u8>)
    requires
        s.len() >= 8,
    ensures
        v.wire_bytes().len() == 8,
        u32_at(v.wire_bytes(), 0) == v.version_requested,
        u32_at(v.wire_bytes(), 4) == v.capabilities,
        record_at::<VersionPacket>(s).version_requested == u32_at(s, 0),
        record_at::<VersionPacket>(s).capabilities == u32_at(s, 4),
{
    v.lemma_layout(s);
    law_write_then_read(v, v, Seq::empty());
    assert(v.wire_bytes() + Seq::<u8>::empty() =~= v.wire_bytes());
    law_every_buffer_is_readable::<VersionPacket>(s);
}

/// The numbers of the protocol.
pub proof fn law_protocol_codes()
    ensures
        SEGMENT_HEADER_TYPE_SMB == 0 && SEGMENT_HEADER_TYPE_VERSION == 0x0100_0000,
        SEGMENT_HEADER_TYPE_MASK == 0xFF00_0000 && MAX_SEGMENT_LEN == 0x10_0000,
        PROTOCOL_VERSION_INVALID == 0xFFFF_FFFF && PROTOCOL_VERSION_LEGACY == 0,
        PROTOCOL_VERSION_1 == 1 && PROTOCOL_VERSION_CURRENT == 1,
        CAPABILITY_FLAG_RDMA_V2 == 1 && CAPABILITY_KNOWN_FLAGS == 1,
{
}

} // verus!
