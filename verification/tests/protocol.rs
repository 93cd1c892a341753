//! Version negotiation, segment framing, and the record layouts.

use vsmb::connection::{frame_segment, handle_version, version_response, ConnectionError};
use vsmb::protocol::{
    from_be_bytes, segment_header, to_be_bytes, VersionPacket, CAPABILITY_FLAG_RDMA_V2,
    CAPABILITY_KNOWN_FLAGS, PROTOCOL_VERSION_1, PROTOCOL_VERSION_CURRENT,
    PROTOCOL_VERSION_INVALID, PROTOCOL_VERSION_LEGACY, SEGMENT_HEADER_TYPE_MASK,
    SEGMENT_HEADER_TYPE_SMB, SEGMENT_HEADER_TYPE_VERSION,
};
use vsmb::smb2::{
    command, parse_header, status, CreateRequest, CreateResponse, Header, IoctlRequest,
    IoctlResponse, NegotiateResponse, FLAGS_SERVER_TO_REDIR, HEADER_SIZE, PROTOCOL_ID,
};
use vsmb::wire::Wire;

#[test]
fn segment_header_round_trip() {
    let header = segment_header(SEGMENT_HEADER_TYPE_VERSION, 8);
    assert_eq!(
        header & SEGMENT_HEADER_TYPE_MASK,
        SEGMENT_HEADER_TYPE_VERSION
    );
    assert_eq!((header & !SEGMENT_HEADER_TYPE_MASK) as usize, 8);

    let header = segment_header(SEGMENT_HEADER_TYPE_SMB, 4096);
    assert_eq!(header & SEGMENT_HEADER_TYPE_MASK, SEGMENT_HEADER_TYPE_SMB);
    assert_eq!((header & !SEGMENT_HEADER_TYPE_MASK) as usize, 4096);
}

#[test]
fn segment_header_keeps_only_the_low_24_bits_of_a_length() {
    assert_eq!(segment_header(0x0100_0000, 0x1234_5678), 0x0134_5678);
    assert_eq!(segment_header(0xAB12_3456, 1), 0xAB00_0001);
}

#[test]
fn version_negotiation_accepts_v1() {
    // Guest requests v1 with RDMA-v2; host offers no capabilities.
    let resp = version_response(PROTOCOL_VERSION_1, CAPABILITY_FLAG_RDMA_V2, 0);
    assert_eq!(resp.version_requested, PROTOCOL_VERSION_1);
    assert_eq!(resp.capabilities, 0);
}

#[test]
fn version_negotiation_intersects_capabilities() {
    // Host supports RDMA-v2, guest requests it: it survives the intersection.
    let resp = version_response(
        PROTOCOL_VERSION_1,
        CAPABILITY_FLAG_RDMA_V2,
        CAPABILITY_KNOWN_FLAGS,
    );
    assert_eq!(resp.capabilities, CAPABILITY_FLAG_RDMA_V2);
}

#[test]
fn version_negotiation_rejects_newer_version() {
    let resp = version_response(PROTOCOL_VERSION_CURRENT + 1, 0, 0);
    assert_eq!(resp.version_requested, PROTOCOL_VERSION_INVALID);
}

#[test]
fn version_negotiation_allows_legacy() {
    let resp = version_response(PROTOCOL_VERSION_LEGACY, 0, 0);
    assert_eq!(resp.version_requested, PROTOCOL_VERSION_LEGACY);
}

#[test]
fn version_packets_mark_the_connection_as_negotiated() {
    let mut negotiated = false;
    let packet = VersionPacket {
        version_requested: 2,
        capabilities: 1,
    };
    let resp = handle_version(&packet.as_bytes(), &mut negotiated).unwrap();
    assert_eq!(resp.version_requested, PROTOCOL_VERSION_INVALID);
    assert_eq!(resp.capabilities, 0);
    assert!(!negotiated);

    let packet = VersionPacket {
        version_requested: 1,
        capabilities: 1,
    };
    let resp = handle_version(&packet.as_bytes(), &mut negotiated).unwrap();
    assert_eq!(resp.version_requested, 1);
    assert_eq!(resp.capabilities, 0);
    assert!(negotiated);

    assert!(matches!(
        handle_version(&[0u8; 7], &mut negotiated),
        Err(ConnectionError::ShortVersionPacket)
    ));
    assert!(negotiated);
}

#[test]
fn segments_are_framed_big_endian() {
    assert_eq!(
        frame_segment(SEGMENT_HEADER_TYPE_VERSION, &[9, 8, 7]),
        vec![1, 0, 0, 3, 9, 8, 7]
    );
    assert_eq!(to_be_bytes(0x0102_0304), [1, 2, 3, 4]);
    assert_eq!(from_be_bytes([1, 2, 3, 4]), 0x0102_0304);
}

#[test]
fn header_is_64_bytes() {
    let (header, rest) = Header::read_from_prefix(&[0u8; HEADER_SIZE]).unwrap();
    assert!(rest.is_empty());
    assert_eq!(header.as_bytes().len(), HEADER_SIZE);
}

#[test]
fn negotiate_response_is_64_bytes_fixed() {
    // MS-SMB2: StructureSize field value is 65 (fixed part + 1), but the
    // fixed record itself is 64 bytes; the security buffer follows.
    let (resp, _) = NegotiateResponse::read_from_prefix(&[0u8; 64]).unwrap();
    assert_eq!(resp.as_bytes().len(), 64);
    assert!(NegotiateResponse::read_from_prefix(&[0u8; 63]).is_none());
}

#[test]
fn parse_rejects_bad_magic() {
    let mut buf = vec![0u8; HEADER_SIZE];
    buf[0..4].copy_from_slice(&[0, 0, 0, 0]);
    assert!(parse_header(&buf).is_none());
}

#[test]
fn parse_rejects_short_and_wrongly_sized_headers() {
    let mut buf = vec![0u8; HEADER_SIZE];
    buf[0..4].copy_from_slice(&PROTOCOL_ID);
    assert!(parse_header(&buf).is_none());
    buf[4] = 64;
    assert!(parse_header(&buf).is_some());
    assert!(parse_header(&buf[..63]).is_none());
    buf.push(7);
    assert_eq!(parse_header(&buf).unwrap().1, &[7]);
}

#[test]
fn response_header_echoes_routing() {
    let (mut req, _) = Header::read_from_prefix(&[0u8; HEADER_SIZE]).unwrap();
    req.protocol_id = PROTOCOL_ID;
    req.structure_size = HEADER_SIZE as u16;
    req.command = command::TREE_CONNECT;
    req.message_id = 7;
    req.session_id = 0x1234;
    req.tree_id = 9;
    let resp = Header::response_for(&req, status::SUCCESS);
    assert_eq!(resp.message_id, 7);
    assert_eq!(resp.session_id, 0x1234);
    assert_eq!(resp.tree_id, 9);
    assert_eq!(resp.command, command::TREE_CONNECT);
    assert_eq!(resp.flags & FLAGS_SERVER_TO_REDIR, FLAGS_SERVER_TO_REDIR);
}

#[test]
fn records_read_back_what_was_written() {
    let bytes: Vec<u8> = (0u8..200).collect();
    let (header, rest) = Header::read_from_prefix(&bytes).unwrap();
    assert_eq!(header.protocol_id, [0, 1, 2, 3]);
    assert_eq!(header.structure_size, 0x0504);
    assert_eq!(header.status, 0x0B0A_0908);
    assert_eq!(header.message_id, 0x1F1E_1D1C_1B1A_1918);
    assert_eq!(header.as_bytes(), bytes[..64].to_vec());
    assert_eq!(rest, &bytes[64..]);

    let (create, _) = CreateRequest::read_from_prefix(&bytes).unwrap();
    assert_eq!(create.as_bytes(), bytes[..56].to_vec());
    let (created, _) = CreateResponse::read_from_prefix(&bytes).unwrap();
    assert_eq!(created.file_id[0], 64);
    assert_eq!(created.as_bytes(), bytes[..88].to_vec());
    let (ioctl, _) = IoctlRequest::read_from_prefix(&bytes).unwrap();
    assert_eq!(ioctl.as_bytes(), bytes[..56].to_vec());
    let (ioctl, _) = IoctlResponse::read_from_prefix(&bytes).unwrap();
    assert_eq!(ioctl.as_bytes(), bytes[..48].to_vec());
}
