//! The SMB2 server and its connections, served from a directory tree in memory.

use vsmb::backing::{allocation_size, DirEntry, FileInfo, IoErrorKind, ATTR_DIRECTORY};
use vsmb::connection::{Action, Connection, ConnectionError, Event};
use vsmb::device::{VsmbDevice, VsmbDeviceHandle, VsmbResolver, VsmbShare};
use vsmb::dispatch::{InitializedVm, Resume};
use vsmb::encode::{
    encode_attribute_tag_info, encode_basic_info, encode_dir_entry, encode_dir_page,
    encode_network_open_info, encode_standard_info, encode_stream_info, push_common_dir_fields,
};
use vsmb::host::{FsOp, FsReply, FsRequest};
use vsmb::listing::{list_directory, Found};
use vsmb::protocol::{
    segment_header, to_be_bytes, VersionPacket, INSTANCE, INTERFACE_TYPE, PROTOCOL_VERSION_1,
    SEGMENT_HEADER_TYPE_MASK, SEGMENT_HEADER_TYPE_SMB, SEGMENT_HEADER_TYPE_VERSION,
};
use vsmb::server::{Progress, Share, Smb2Server};
use vsmb::smb2::{
    command, file_info_class, parse_header, status, CloseRequest, CloseResponse, CreateRequest,
    CreateResponse, Header, IoctlRequest, IoctlResponse, NegotiateRequest, NegotiateResponse,
    OutputBufferResponse, QueryDirectoryRequest, QueryInfoRequest, ReadRequest, ReadResponse,
    SessionSetupRequest, SessionSetupResponse, TreeConnectRequest, TreeConnectResponse,
    DIALECT_2_0_2, DIALECT_2_1_0, DIALECT_WILDCARD, FILE_OPEN, FLAGS_RELATED_OPERATIONS,
    FSCTL_GET_REPARSE_POINT, HEADER_SIZE, INFO_TYPE_FILE, INFO_TYPE_SECURITY, PROTOCOL_ID,
    RESTART_SCANS, RETURN_SINGLE_ENTRY, SESSION_FLAG_IS_GUEST,
};
use vsmb::wire::Wire;

const LINK_TAG: u32 = 0xA000_000C;

/// A file or directory in memory: its path from the root, and its contents.
struct Node {
    path: &'static str,
    data: Option<&'static [u8]>,
    link: bool,
}

fn file(path: &'static str, data: &'static [u8]) -> Node {
    Node {
        path,
        data: Some(data),
        link: false,
    }
}

fn dir(path: &'static str) -> Node {
    Node {
        path,
        data: None,
        link: false,
    }
}

fn link(path: &'static str) -> Node {
    Node {
        path,
        data: None,
        link: true,
    }
}

struct Tree {
    nodes: Vec<Node>,
}

impl Tree {
    fn new(nodes: Vec<Node>) -> Tree {
        Tree { nodes }
    }

    fn info(node: &Node) -> FileInfo {
        let size = node.data.map_or(0, |d| d.len() as u64);
        FileInfo {
            size,
            allocation_size: allocation_size(size),
            attributes: if node.link {
                0x410
            } else if node.data.is_some() {
                0x81
            } else {
                ATTR_DIRECTORY
            },
            is_dir: node.data.is_none(),
            creation_time: 11,
            last_access_time: 12,
            last_write_time: 13,
            change_time: 14,
            reparse_tag: if node.link { LINK_TAG } else { 0 },
        }
    }

    fn answer(&self, request: &FsRequest) -> FsReply {
        let path = match request.locate() {
            Ok(path) => path,
            Err(reply) => return reply,
        };
        let name = path.parts.join("/");
        let root = dir("");
        let node = if name.is_empty() {
            Some(&root)
        } else {
            self.nodes.iter().find(|n| n.path == name)
        };
        match request.op {
            FsOp::Stat => FsReply::Stat(match node {
                Some(node) => Ok(Tree::info(node)),
                None => Err(IoErrorKind::NotFound),
            }),
            FsOp::Read { offset, len } => FsReply::Data(match node.and_then(|n| n.data) {
                Some(data) => {
                    let start = (offset as usize).min(data.len());
                    let end = (start + len as usize).min(data.len());
                    Ok(data[start..end].to_vec())
                }
                None => Err(IoErrorKind::PermissionDenied),
            }),
            FsOp::ReadReparse => FsReply::Data(Ok(b"reparse-data".to_vec())),
            FsOp::ReadSecurity => match node {
                Some(node) if !node.link => FsReply::Security(Some(b"descriptor".to_vec())),
                _ => FsReply::Security(None),
            },
            FsOp::ListStreams => FsReply::Streams(vec![
                ("::$DATA".to_owned(), 3),
                (":ads:$DATA".to_owned(), 5000),
            ]),
            FsOp::Enumerate => {
                let mut found: Vec<Found> = Vec::new();
                for n in &self.nodes {
                    if !n.path.contains('/') {
                        found.push(Found {
                            name: Some(n.path.to_owned()),
                            info: Some(Tree::info(n)),
                        });
                    }
                }
                FsReply::Listing(Ok(list_directory(Tree::info(&root), &found)))
            }
        }
    }

    /// Carries one segment through, answering what the server asks.
    fn handle(&self, s: &mut Smb2Server, payload: &[u8]) -> Option<Vec<u8>> {
        assert!(s.ids_suffice_for(payload.len()));
        let mut progress = s.handle(payload);
        loop {
            match progress {
                Progress::Done(response) => return response,
                Progress::Ask(request) => {
                    let reply = self.answer(&request);
                    assert!(s.awaited().unwrap().accepts(&reply));
                    assert!(s.ids_suffice_to_resume());
                    progress = s.resume(reply);
                }
            }
        }
    }
}

fn server() -> Smb2Server {
    Smb2Server::new(
        vec![(
            "layers".to_owned(),
            Share {
                root: "C:\\layers".to_owned(),
            },
        )],
        "/tmp/empty",
    )
}

fn header_bytes(command: u16, flags: u32, session_id: u64, tree_id: u32, next: u32) -> Vec<u8> {
    let (mut header, _) = Header::read_from_prefix(&[0u8; HEADER_SIZE]).unwrap();
    header.protocol_id = PROTOCOL_ID;
    header.structure_size = HEADER_SIZE as u16;
    header.command = command;
    header.flags = flags;
    header.next_command = next;
    header.message_id = 1;
    header.session_id = session_id;
    header.tree_id = tree_id;
    header.as_bytes()
}

fn request(command: u16, session_id: u64, tree_id: u32, body: &[u8]) -> Vec<u8> {
    let mut out = header_bytes(command, 0, session_id, tree_id, 0);
    out.extend_from_slice(body);
    out
}

fn utf16(s: &str) -> Vec<u8> {
    s.encode_utf16().flat_map(|u| u.to_le_bytes()).collect()
}

fn negotiate_body(dialects: &[u16]) -> Vec<u8> {
    let req = NegotiateRequest {
        structure_size: 36,
        dialect_count: dialects.len() as u16,
        security_mode: 1,
        reserved: 0,
        capabilities: 0,
        client_guid: [0; 16],
        client_start_time: 0,
    };
    let mut out = req.as_bytes();
    for d in dialects {
        out.extend_from_slice(&d.to_le_bytes());
    }
    out
}

fn session_setup_body() -> Vec<u8> {
    SessionSetupRequest {
        structure_size: 25,
        flags: 0,
        security_mode: 1,
        capabilities: 0,
        channel: 0,
        security_buffer_offset: 0,
        security_buffer_length: 0,
        previous_session_id: 0,
    }
    .as_bytes()
}

fn tree_connect_body(path: &str) -> Vec<u8> {
    let path_bytes = utf16(path);
    let fixed = TreeConnectRequest {
        structure_size: 9,
        reserved: 0,
        path_offset: (HEADER_SIZE + 8) as u16,
        path_length: path_bytes.len() as u16,
    };
    let mut body = fixed.as_bytes();
    body.extend_from_slice(&path_bytes);
    body
}

fn create_body_with(name: &str, disposition: u32) -> Vec<u8> {
    let name_bytes = utf16(name);
    let fixed = CreateRequest {
        structure_size: 57,
        security_flags: 0,
        requested_oplock_level: 0,
        impersonation_level: 0,
        smb_create_flags: 0,
        reserved: 0,
        desired_access: 0x0012_00A9,
        file_attributes: 0,
        share_access: 0x07,
        create_disposition: disposition,
        create_options: 0,
        name_offset: (HEADER_SIZE + 56) as u16,
        name_length: name_bytes.len() as u16,
        create_contexts_offset: 0,
        create_contexts_length: 0,
    };
    let mut body = fixed.as_bytes();
    body.extend_from_slice(&name_bytes);
    body
}

fn create_body(name: &str) -> Vec<u8> {
    create_body_with(name, FILE_OPEN)
}

fn read_body(file_id: [u8; 16], offset: u64, length: u32) -> Vec<u8> {
    let fixed = ReadRequest {
        structure_size: 49,
        padding: 0,
        flags: 0,
        length,
        offset,
        file_id,
        minimum_count: 0,
        channel: 0,
        remaining_bytes: 0,
        read_channel_info_offset: 0,
        read_channel_info_length: 0,
    };
    let mut body = fixed.as_bytes();
    body.push(0); // 1-byte buffer minimum
    body
}

fn query_directory_body(file_id: [u8; 16], class: u8, flags: u8, max: u32) -> Vec<u8> {
    QueryDirectoryRequest {
        structure_size: 33,
        file_information_class: class,
        flags,
        file_index: 0,
        file_id,
        file_name_offset: 0,
        file_name_length: 0,
        output_buffer_length: max,
    }
    .as_bytes()
}

fn query_info_body(file_id: [u8; 16], info_type: u8, class: u8, max: u32) -> Vec<u8> {
    QueryInfoRequest {
        structure_size: 41,
        info_type,
        file_info_class: class,
        output_buffer_length: max,
        input_buffer_offset: 0,
        reserved: 0,
        input_buffer_length: 0,
        additional_information: 0,
        flags: 0,
        file_id,
    }
    .as_bytes()
}

fn ioctl_body(file_id: [u8; 16], ctl_code: u32) -> Vec<u8> {
    IoctlRequest {
        structure_size: 57,
        reserved: 0,
        ctl_code,
        file_id,
        input_offset: 0,
        input_count: 0,
        max_input_response: 0,
        output_offset: 0,
        output_count: 0,
        max_output_response: 0x4000,
        flags: 1,
        reserved2: 0,
    }
    .as_bytes()
}

fn close_body(file_id: [u8; 16], flags: u16) -> Vec<u8> {
    CloseRequest {
        structure_size: 24,
        flags,
        reserved: 0,
        file_id,
    }
    .as_bytes()
}

fn status_of(resp: &[u8]) -> u32 {
    parse_header(resp).unwrap().0.status
}

/// Connects to the `layers` share.
fn connect(t: &Tree, s: &mut Smb2Server) -> u32 {
    let body = tree_connect_body("\\\\server\\layers");
    let resp = t
        .handle(s, &request(command::TREE_CONNECT, 1, 0, &body))
        .unwrap();
    parse_header(&resp).unwrap().0.tree_id
}

/// Opens a file of the `layers` share.
fn open(t: &Tree, s: &mut Smb2Server, tree_id: u32, name: &str) -> [u8; 16] {
    let resp = t
        .handle(s, &request(command::CREATE, 1, tree_id, &create_body(name)))
        .unwrap();
    assert_eq!(status_of(&resp), status::SUCCESS);
    CreateResponse::read_from_prefix(&resp[64..])
        .unwrap()
        .0
        .file_id
}

/// Walks the NextEntryOffset chain of a page, decoding each entry's name.
fn walk(buf: &[u8], name_offset: usize) -> Vec<String> {
    let mut names = Vec::new();
    let mut off = 0usize;
    loop {
        let next = u32::from_le_bytes(buf[off..off + 4].try_into().unwrap()) as usize;
        let name_len = u32::from_le_bytes(buf[off + 60..off + 64].try_into().unwrap()) as usize;
        let name_start = off + name_offset;
        let name_u16: Vec<u16> = buf[name_start..name_start + name_len]
            .chunks_exact(2)
            .map(|c| u16::from_le_bytes([c[0], c[1]]))
            .collect();
        names.push(String::from_utf16_lossy(&name_u16));
        if next == 0 {
            break;
        }
        off += next;
    }
    names
}

#[test]
fn negotiate_selects_202() {
    let t = Tree::new(vec![]);
    let mut s = server();
    let req = request(command::NEGOTIATE, 0, 0, &negotiate_body(&[0x0202, 0x0210]));
    let resp = t.handle(&mut s, &req).unwrap();
    let (h, body) = parse_header(&resp).unwrap();
    assert_eq!(h.status, status::SUCCESS);
    let (neg, _) = NegotiateResponse::read_from_prefix(body).unwrap();
    assert_eq!(neg.dialect_revision, DIALECT_2_0_2);
    assert_eq!(&neg.server_guid, b"openvmm-vsmb\0\0\0\0");
    assert_eq!(neg.max_read_size, 1 << 20);
    assert_eq!(neg.security_buffer_offset, 128);
}

#[test]
fn negotiate_falls_back_and_refuses() {
    let t = Tree::new(vec![]);
    let mut s = server();
    let req = request(
        command::NEGOTIATE,
        0,
        0,
        &negotiate_body(&[0x0311, DIALECT_2_1_0]),
    );
    let resp = t.handle(&mut s, &req).unwrap();
    let (neg, _) = NegotiateResponse::read_from_prefix(&resp[64..]).unwrap();
    assert_eq!(neg.dialect_revision, DIALECT_2_1_0);

    let req = request(
        command::NEGOTIATE,
        0,
        0,
        &negotiate_body(&[DIALECT_WILDCARD]),
    );
    let resp = t.handle(&mut s, &req).unwrap();
    assert_eq!(status_of(&resp), status::SUCCESS);
    let (neg, _) = NegotiateResponse::read_from_prefix(&resp[64..]).unwrap();
    assert_eq!(neg.dialect_revision, DIALECT_2_0_2);

    // 2.1 goes before the wildcard.
    let req = request(
        command::NEGOTIATE,
        0,
        0,
        &negotiate_body(&[DIALECT_WILDCARD, DIALECT_2_1_0]),
    );
    let resp = t.handle(&mut s, &req).unwrap();
    let (neg, _) = NegotiateResponse::read_from_prefix(&resp[64..]).unwrap();
    assert_eq!(neg.dialect_revision, DIALECT_2_1_0);

    let req = request(
        command::NEGOTIATE,
        0,
        0,
        &negotiate_body(&[0x0300, 0x0311]),
    );
    assert_eq!(
        status_of(&t.handle(&mut s, &req).unwrap()),
        status::NOT_SUPPORTED
    );

    // More dialects announced than sent, and a body that is too short.
    let mut body = negotiate_body(&[0x0202]);
    body[2] = 2;
    let req = request(command::NEGOTIATE, 0, 0, &body);
    assert_eq!(
        status_of(&t.handle(&mut s, &req).unwrap()),
        status::INVALID_PARAMETER
    );
    let req = request(command::NEGOTIATE, 0, 0, &body[..35]);
    assert_eq!(
        status_of(&t.handle(&mut s, &req).unwrap()),
        status::INVALID_PARAMETER
    );
}

#[test]
fn session_setup_grants_guest_session() {
    let t = Tree::new(vec![]);
    let mut s = server();
    let req = request(command::SESSION_SETUP, 0, 0, &session_setup_body());
    let resp = t.handle(&mut s, &req).unwrap();
    let (h, rest) = parse_header(&resp).unwrap();
    assert_eq!(h.status, status::SUCCESS);
    assert_ne!(h.session_id, 0);
    let (ss, _) = SessionSetupResponse::read_from_prefix(rest).unwrap();
    assert_eq!(ss.session_flags, SESSION_FLAG_IS_GUEST);

    // A named session is kept; a fresh one gets another id.
    let req = request(command::SESSION_SETUP, 77, 0, &session_setup_body());
    let resp = t.handle(&mut s, &req).unwrap();
    assert_eq!(parse_header(&resp).unwrap().0.session_id, 77);
    let req = request(command::SESSION_SETUP, 0, 0, &session_setup_body());
    let resp = t.handle(&mut s, &req).unwrap();
    assert_ne!(parse_header(&resp).unwrap().0.session_id, h.session_id);
    let req = request(command::SESSION_SETUP, 0, 0, &[0u8; 23]);
    assert_eq!(
        status_of(&t.handle(&mut s, &req).unwrap()),
        status::INVALID_PARAMETER
    );
}

#[test]
fn tree_connect_known_and_unknown() {
    let t = Tree::new(vec![]);
    let mut s = server();
    // Known share -> success with a fresh tree id.
    let body = tree_connect_body("\\\\server\\layers");
    let resp = t
        .handle(&mut s, &request(command::TREE_CONNECT, 1, 0, &body))
        .unwrap();
    let (h, rest) = parse_header(&resp).unwrap();
    assert_eq!(h.status, status::SUCCESS);
    assert_ne!(h.tree_id, 0);
    let (tc, _) = TreeConnectResponse::read_from_prefix(rest).unwrap();
    assert_eq!(tc.maximal_access, 0x0012_00A9);

    // Unknown share -> BAD_NETWORK_NAME.
    let body2 = tree_connect_body("\\\\server\\nope");
    let resp2 = t
        .handle(&mut s, &request(command::TREE_CONNECT, 1, 0, &body2))
        .unwrap();
    assert_eq!(status_of(&resp2), status::BAD_NETWORK_NAME);
}

#[test]
fn tree_connect_ignores_case_and_checks_the_path() {
    let t = Tree::new(vec![]);
    let mut s = server();
    for path in ["\\\\SERVER\\LaYeRs", "layers", "\\\\x\\defaultEmptyShare"] {
        let req = request(command::TREE_CONNECT, 1, 0, &tree_connect_body(path));
        assert_eq!(
            status_of(&t.handle(&mut s, &req).unwrap()),
            status::SUCCESS
        );
    }
    // An odd length, an offset inside the header, and a path past the end.
    for (at, value) in [(6usize, 3u8), (4, 8), (6, 200)] {
        let mut body = tree_connect_body("\\\\server\\layers");
        body[at] = value;
        let req = request(command::TREE_CONNECT, 1, 0, &body);
        assert_eq!(
            status_of(&t.handle(&mut s, &req).unwrap()),
            status::INVALID_PARAMETER
        );
    }
}

#[test]
fn later_shares_take_the_place_of_earlier_ones() {
    let share = |root: &str| Share {
        root: root.to_owned(),
    };
    let mut s = Smb2Server::new(
        vec![
            ("Layers".to_owned(), share("one")),
            ("LAYERS".to_owned(), share("two")),
        ],
        "empty",
    );
    let t = Tree::new(vec![]);
    let tree_id = connect(&t, &mut s);
    match s.handle(&request(command::CREATE, 1, tree_id, &create_body("x"))) {
        Progress::Ask(request) => {
            assert_eq!(request.root, "two");
            assert_eq!(request.rel, "x");
        }
        Progress::Done(_) => panic!("expected a request"),
    }
}

#[test]
fn unsupported_command_errors() {
    let t = Tree::new(vec![]);
    let mut s = server();
    let req = request(command::WRITE, 1, 1, &[0u8; 4]);
    let resp = t.handle(&mut s, &req).unwrap();
    assert_eq!(status_of(&resp), status::NOT_SUPPORTED);
    assert_eq!(resp.len(), 73);
    assert_eq!(&resp[64..], &[9, 0, 0, 0, 0, 0, 0, 0, 0]);
}

#[test]
fn undecodable_segments_get_no_response() {
    let t = Tree::new(vec![]);
    let mut s = server();
    assert!(t.handle(&mut s, &[]).is_none());
    assert!(t.handle(&mut s, &[0u8; 64]).is_none());
    let req = request(command::LOGOFF, 1, 1, &[0u8; 4]);
    assert!(t.handle(&mut s, &req[..63]).is_none());
    // A NextCommand inside the header, and one past the end.
    for next in [63u32, 4096] {
        let mut req = header_bytes(command::LOGOFF, 0, 1, 1, next);
        req.extend_from_slice(&[0u8; 64]);
        assert!(t.handle(&mut s, &req).is_none());
    }
    // A second command that cannot be decoded: the first is carried out all
    // the same.
    let body = tree_connect_body("\\\\server\\layers");
    let mut req = header_bytes(command::TREE_CONNECT, 0, 1, 0, (64 + body.len()) as u32);
    req.extend_from_slice(&body);
    req.extend_from_slice(&[0u8; 64]);
    assert!(t.handle(&mut s, &req).is_none());
    assert_eq!(connect(&t, &mut s), 2);
}

#[test]
fn compound_create_and_query_directory() {
    let t = Tree::new(vec![file("a.txt", b"a"), file("b.txt", b"bb")]);
    let mut s = server();
    assert_eq!(connect(&t, &mut s), 1);

    // Command 1: CREATE the share root (empty name).
    let mut cr_body = create_body("");
    cr_body.push(0); // minimum 1-byte buffer

    // Command 2: QUERY_DIRECTORY, related (sentinel FileId), restart scan.
    let qd_body = query_directory_body(
        [0xFF; 16],
        file_info_class::ID_BOTH_DIRECTORY,
        RESTART_SCANS,
        64 * 1024,
    );

    // Assemble the compound: [header1 + create][pad to 8][header2 + qd].
    let cmd1_len = HEADER_SIZE + cr_body.len();
    let cmd1_aligned = cmd1_len.next_multiple_of(8);
    let mut msg = header_bytes(command::CREATE, 0, 1, 1, cmd1_aligned as u32);
    msg.extend_from_slice(&cr_body);
    msg.resize(cmd1_aligned, 0);
    msg.extend_from_slice(&header_bytes(
        command::QUERY_DIRECTORY,
        FLAGS_RELATED_OPERATIONS,
        1,
        1,
        0,
    ));
    msg.extend_from_slice(&qd_body);

    let resp = t.handle(&mut s, &msg).unwrap();

    // First response: CREATE success, with a NextCommand link.
    let (h_a, _) = parse_header(&resp).unwrap();
    assert_eq!(h_a.command, command::CREATE);
    assert_eq!(h_a.status, status::SUCCESS);
    let next = h_a.next_command as usize;
    assert!(next > 0);
    assert_eq!(next, 152);

    // Second response: QUERY_DIRECTORY success with entries.
    let (h_b, rest_b) = parse_header(&resp[next..]).unwrap();
    assert_eq!(h_b.command, command::QUERY_DIRECTORY);
    assert_eq!(h_b.status, status::SUCCESS);
    assert_eq!(h_b.next_command, 0);
    let (_, buf) = OutputBufferResponse::read_from_prefix(rest_b).unwrap();
    let needle = utf16("a.txt");
    assert!(
        buf.windows(needle.len()).any(|w| w == needle.as_slice()),
        "compound QUERY_DIRECTORY should list a.txt"
    );
    assert_eq!(walk(buf, 104), vec![".", "..", "a.txt", "b.txt"]);
}

#[test]
fn compound_open_read_close() {
    let t = Tree::new(vec![file("f", b"0123456789")]);
    let mut s = server();
    let tree_id = connect(&t, &mut s);
    let mut msg: Vec<u8> = Vec::new();
    let related = FLAGS_RELATED_OPERATIONS;
    let commands = [
        (command::CREATE, 0u32, create_body("f")),
        (command::READ, related, read_body([0xFF; 16], 2, 3)),
        (command::CLOSE, related, close_body([0xFF; 16], 0)),
        (command::READ, related, read_body([0xFF; 16], 2, 3)),
    ];
    for (i, (code, flags, body)) in commands.iter().enumerate() {
        let len = (64 + body.len()).next_multiple_of(8);
        let next = if i + 1 < commands.len() { len as u32 } else { 0 };
        let start = msg.len();
        msg.extend_from_slice(&header_bytes(*code, *flags, 1, tree_id, next));
        msg.extend_from_slice(body);
        msg.resize(start + len, 0);
    }
    let resp = t.handle(&mut s, &msg).unwrap();
    let mut off = 0usize;
    let mut found = Vec::new();
    loop {
        let (h, rest) = parse_header(&resp[off..]).unwrap();
        found.push((h.command, h.status));
        if h.command == command::READ && h.status == status::SUCCESS {
            assert_eq!(&rest[16..19], b"234");
        }
        if h.next_command == 0 {
            break;
        }
        assert_eq!(h.next_command % 8, 0);
        off += h.next_command as usize;
    }
    assert_eq!(
        found,
        vec![
            (command::CREATE, status::SUCCESS),
            (command::READ, status::SUCCESS),
            (command::CLOSE, status::SUCCESS),
            (command::READ, status::INVALID_PARAMETER),
        ]
    );
}

#[test]
fn query_security_and_attribute_tag() {
    let t = Tree::new(vec![file("f.txt", b"x"), link("l")]);
    let mut s = server();
    let tree_id = connect(&t, &mut s);
    let fid = open(&t, &mut s, tree_id, "f.txt");

    // QUERY_INFO(SECURITY) returns a non-empty security descriptor.
    let q = query_info_body(fid, INFO_TYPE_SECURITY, 0, 64 * 1024);
    let resp = t
        .handle(&mut s, &request(command::QUERY_INFO, 1, 1, &q))
        .unwrap();
    let (h, rest) = parse_header(&resp).unwrap();
    assert_eq!(h.status, status::SUCCESS);
    let (ob, buf) = OutputBufferResponse::read_from_prefix(rest).unwrap();
    assert!(ob.output_buffer_length > 0);
    assert_eq!(buf, b"descriptor");

    // QUERY_INFO(FILE, AttributeTag) succeeds.
    let q2 = query_info_body(fid, INFO_TYPE_FILE, file_info_class::ATTRIBUTE_TAG, 64);
    let resp2 = t
        .handle(&mut s, &request(command::QUERY_INFO, 1, 1, &q2))
        .unwrap();
    assert_eq!(status_of(&resp2), status::SUCCESS);
    assert_eq!(&resp2[72..], &[0x81, 0, 0, 0, 0, 0, 0, 0]);

    // A buffer that is too small, and no descriptor at all.
    let q = query_info_body(fid, INFO_TYPE_SECURITY, 0, 9);
    let resp = t
        .handle(&mut s, &request(command::QUERY_INFO, 1, 1, &q))
        .unwrap();
    assert_eq!(status_of(&resp), status::BUFFER_TOO_SMALL);
    let lid = open(&t, &mut s, tree_id, "l");
    let q = query_info_body(lid, INFO_TYPE_SECURITY, 0, 64 * 1024);
    let resp = t
        .handle(&mut s, &request(command::QUERY_INFO, 1, 1, &q))
        .unwrap();
    assert_eq!(status_of(&resp), status::ACCESS_DENIED);
}

#[test]
fn query_info_serves_each_class() {
    let t = Tree::new(vec![file("f", b"abc"), dir("d")]);
    let mut s = server();
    let tree_id = connect(&t, &mut s);
    let fid = open(&t, &mut s, tree_id, "f");
    let query = |s: &mut Smb2Server, info_type: u8, class: u8| {
        let q = query_info_body(fid, info_type, class, 4096);
        t.handle(s, &request(command::QUERY_INFO, 1, tree_id, &q))
            .unwrap()
    };
    let info = Tree::info(&t.nodes[0]);
    let resp = query(&mut s, INFO_TYPE_FILE, file_info_class::BASIC);
    assert_eq!(resp[72..], encode_basic_info(&info)[..]);
    let resp = query(&mut s, INFO_TYPE_FILE, file_info_class::STANDARD);
    assert_eq!(resp[72..], encode_standard_info(&info)[..]);
    let resp = query(&mut s, INFO_TYPE_FILE, file_info_class::NETWORK_OPEN);
    assert_eq!(resp[72..], encode_network_open_info(&info)[..]);
    let resp = query(&mut s, INFO_TYPE_FILE, file_info_class::STREAM);
    let streams = vec![("::$DATA".to_owned(), 3), (":ads:$DATA".to_owned(), 5000)];
    assert_eq!(resp[72..], encode_stream_info(&streams)[..]);
    assert_eq!(
        status_of(&query(&mut s, INFO_TYPE_FILE, 0x7F)),
        status::NOT_SUPPORTED
    );
    assert_eq!(
        status_of(&query(&mut s, 2, file_info_class::BASIC)),
        status::NOT_SUPPORTED
    );
    let q = query_info_body([9; 16], INFO_TYPE_FILE, file_info_class::BASIC, 4096);
    let resp = t
        .handle(&mut s, &request(command::QUERY_INFO, 1, tree_id, &q))
        .unwrap();
    assert_eq!(status_of(&resp), status::INVALID_PARAMETER);
}

#[test]
fn end_to_end_open_and_read() {
    let t = Tree::new(vec![file("layer.txt", b"CONTAINER-LAYER-BYTES")]);
    let mut s = server();

    // NEGOTIATE
    let resp = t
        .handle(
            &mut s,
            &request(command::NEGOTIATE, 0, 0, &negotiate_body(&[0x0202])),
        )
        .unwrap();
    assert_eq!(status_of(&resp), status::SUCCESS);

    // SESSION_SETUP -> capture session id
    let resp = t
        .handle(
            &mut s,
            &request(command::SESSION_SETUP, 0, 0, &session_setup_body()),
        )
        .unwrap();
    let session_id = parse_header(&resp).unwrap().0.session_id;
    assert_ne!(session_id, 0);

    // TREE_CONNECT -> capture tree id
    let tc_body = tree_connect_body("\\\\server\\layers");
    let resp = t
        .handle(
            &mut s,
            &request(command::TREE_CONNECT, session_id, 0, &tc_body),
        )
        .unwrap();
    let tree_id = parse_header(&resp).unwrap().0.tree_id;
    assert_ne!(tree_id, 0);

    // CREATE (open layer.txt) -> capture file id and size
    let resp = t
        .handle(
            &mut s,
            &request(
                command::CREATE,
                session_id,
                tree_id,
                &create_body("layer.txt"),
            ),
        )
        .unwrap();
    let (h, rest) = parse_header(&resp).unwrap();
    assert_eq!(h.status, status::SUCCESS);
    let (create, _) = CreateResponse::read_from_prefix(rest).unwrap();
    assert_eq!(create.end_of_file, 21);
    let file_id = create.file_id;

    // READ the file
    let rd_body = read_body(file_id, 0, 21);
    let resp = t
        .handle(
            &mut s,
            &request(command::READ, session_id, tree_id, &rd_body),
        )
        .unwrap();
    let (h, rest) = parse_header(&resp).unwrap();
    assert_eq!(h.status, status::SUCCESS);
    let (read, data) = ReadResponse::read_from_prefix(rest).unwrap();
    assert_eq!(read.data_length, 21);
    assert_eq!(&data[..21], b"CONTAINER-LAYER-BYTES");
}

#[test]
fn reads_report_ends_and_failures() {
    let t = Tree::new(vec![file("f", b"0123456789"), dir("d")]);
    let mut s = server();
    let tree_id = connect(&t, &mut s);
    let fid = open(&t, &mut s, tree_id, "f");
    let did = open(&t, &mut s, tree_id, "d");
    let read = |s: &mut Smb2Server, id: [u8; 16], offset: u64, len: u32| {
        t.handle(
            s,
            &request(command::READ, 1, tree_id, &read_body(id, offset, len)),
        )
        .unwrap()
    };
    let resp = read(&mut s, fid, 8, 100);
    let (r, data) = ReadResponse::read_from_prefix(&resp[64..]).unwrap();
    assert_eq!(r.data_length, 2);
    assert_eq!(r.data_offset, 80);
    assert_eq!(data, b"89");
    assert_eq!(
        status_of(&read(&mut s, fid, 10, 1)),
        status::END_OF_FILE
    );
    let resp = read(&mut s, fid, 10, 0);
    assert_eq!(status_of(&resp), status::SUCCESS);
    assert_eq!(resp.len(), 80);
    assert_eq!(
        status_of(&read(&mut s, did, 0, 1)),
        status::INVALID_DEVICE_REQUEST
    );
    assert_eq!(
        status_of(&read(&mut s, [3; 16], 0, 1)),
        status::INVALID_PARAMETER
    );
    let req = request(command::READ, 1, tree_id, &[0u8; 47]);
    assert_eq!(
        status_of(&t.handle(&mut s, &req).unwrap()),
        status::INVALID_PARAMETER
    );
}

#[test]
fn creates_only_open_what_is_there() {
    let t = Tree::new(vec![file("f", b"x")]);
    let mut s = server();
    let tree_id = connect(&t, &mut s);
    let create = |s: &mut Smb2Server, tree: u32, body: &[u8]| {
        status_of(&t.handle(s, &request(command::CREATE, 1, tree, body)).unwrap())
    };
    assert_eq!(
        create(&mut s, tree_id, &create_body("nope")),
        status::OBJECT_NAME_NOT_FOUND
    );
    assert_eq!(
        create(&mut s, tree_id, &create_body("..\\f")),
        status::OBJECT_NAME_NOT_FOUND
    );
    assert_eq!(
        create(&mut s, tree_id, &create_body_with("f", 5)),
        status::ACCESS_DENIED
    );
    assert_eq!(
        create(&mut s, tree_id + 1, &create_body("f")),
        status::INVALID_PARAMETER
    );
    assert_eq!(
        create(&mut s, tree_id, &create_body("f")[..55]),
        status::INVALID_PARAMETER
    );
    assert_eq!(
        create(&mut s, tree_id, &create_body("f")[..57]),
        status::INVALID_PARAMETER
    );
    assert_eq!(create(&mut s, tree_id, &create_body("f")), status::SUCCESS);
}

#[test]
fn host_failures_reach_the_client() {
    let t = Tree::new(vec![]);
    let mut s = server();
    let tree_id = connect(&t, &mut s);
    for (kind, expected) in [
        (IoErrorKind::PermissionDenied, status::ACCESS_DENIED),
        (IoErrorKind::Other, status::INVALID_PARAMETER),
    ] {
        let req = request(command::CREATE, 1, tree_id, &create_body("x"));
        assert!(matches!(s.handle(&req), Progress::Ask(_)));
        match s.resume(FsReply::Stat(Err(kind))) {
            Progress::Done(Some(resp)) => assert_eq!(status_of(&resp), expected),
            _ => panic!("expected a response"),
        }
    }
}

#[test]
fn closed_and_disconnected_handles_are_refused() {
    let t = Tree::new(vec![file("f", b"x"), file("g", b"y")]);
    let mut s = server();
    let tree_id = connect(&t, &mut s);
    let other = connect(&t, &mut s);
    let f = open(&t, &mut s, tree_id, "f");
    let g = open(&t, &mut s, other, "g");
    let read = |s: &mut Smb2Server, id: [u8; 16]| {
        status_of(
            &t.handle(s, &request(command::READ, 1, 1, &read_body(id, 0, 1)))
                .unwrap(),
        )
    };
    // CLOSE with attributes, then again.
    let close = request(command::CLOSE, 1, tree_id, &close_body(f, 1));
    let resp = t.handle(&mut s, &close).unwrap();
    let (c, _) = CloseResponse::read_from_prefix(&resp[64..]).unwrap();
    assert_eq!(c.end_of_file, 1);
    assert_eq!(c.last_write_time, 13);
    assert_eq!(c.file_attributes, 0x81);
    assert_eq!(
        status_of(&t.handle(&mut s, &close).unwrap()),
        status::INVALID_PARAMETER
    );
    assert_eq!(read(&mut s, f), status::INVALID_PARAMETER);
    assert_eq!(read(&mut s, g), status::SUCCESS);

    // Another handle on each tree, then the first tree goes.
    let f = open(&t, &mut s, tree_id, "f");
    let bye = request(command::TREE_DISCONNECT, 1, tree_id, &[4, 0, 0, 0]);
    let resp = t.handle(&mut s, &bye).unwrap();
    assert_eq!(status_of(&resp), status::SUCCESS);
    assert_eq!(&resp[64..], &[4, 0, 0, 0]);
    assert_eq!(read(&mut s, f), status::INVALID_PARAMETER);
    assert_eq!(read(&mut s, g), status::SUCCESS);
    let create = request(command::CREATE, 1, tree_id, &create_body("f"));
    assert_eq!(
        status_of(&t.handle(&mut s, &create).unwrap()),
        status::INVALID_PARAMETER
    );

    // CLOSE without attributes.
    let close = request(command::CLOSE, 1, other, &close_body(g, 0));
    let resp = t.handle(&mut s, &close).unwrap();
    let (c, _) = CloseResponse::read_from_prefix(&resp[64..]).unwrap();
    assert_eq!(c.end_of_file, 0);
    assert_eq!(c.file_attributes, 0);

    let logoff = request(command::LOGOFF, 1, other, &[4, 0, 0, 0]);
    assert_eq!(
        status_of(&t.handle(&mut s, &logoff).unwrap()),
        status::SUCCESS
    );
}

#[test]
fn reparse_data_is_served_for_reparse_points_only() {
    let t = Tree::new(vec![file("f", b"x"), link("l")]);
    let mut s = server();
    let tree_id = connect(&t, &mut s);
    let f = open(&t, &mut s, tree_id, "f");
    let l = open(&t, &mut s, tree_id, "l");
    let ioctl = |s: &mut Smb2Server, id: [u8; 16], code: u32| {
        t.handle(s, &request(command::IOCTL, 1, tree_id, &ioctl_body(id, code)))
            .unwrap()
    };
    let resp = ioctl(&mut s, l, FSCTL_GET_REPARSE_POINT);
    assert_eq!(status_of(&resp), status::SUCCESS);
    let (r, data) = IoctlResponse::read_from_prefix(&resp[64..]).unwrap();
    assert_eq!(r.output_offset, 112);
    assert_eq!(r.output_count, 12);
    assert_eq!(r.file_id, l);
    assert_eq!(data, b"reparse-data");
    assert_eq!(
        status_of(&ioctl(&mut s, f, FSCTL_GET_REPARSE_POINT)),
        status::NOT_A_REPARSE_POINT
    );
    assert_eq!(status_of(&ioctl(&mut s, l, 0x0009_00A4)), status::NOT_SUPPORTED);
    assert_eq!(
        status_of(&ioctl(&mut s, [7; 16], FSCTL_GET_REPARSE_POINT)),
        status::INVALID_PARAMETER
    );
}

#[test]
fn query_directory_lists_entries() {
    let t = Tree::new(vec![file("a.txt", b"a"), file("b.txt", b"bb")]);
    let mut s = server();
    let tree_id = connect(&t, &mut s);
    let file_id = open(&t, &mut s, tree_id, "");
    let qd = query_directory_body(
        file_id,
        file_info_class::ID_BOTH_DIRECTORY,
        RESTART_SCANS,
        64 * 1024,
    );
    let resp = t
        .handle(&mut s, &request(command::QUERY_DIRECTORY, 1, 1, &qd))
        .unwrap();
    let (h, rest) = parse_header(&resp).unwrap();
    assert_eq!(h.status, status::SUCCESS);
    let (ob, buf) = OutputBufferResponse::read_from_prefix(rest).unwrap();
    assert!(ob.output_buffer_length > 0);
    // The buffer should contain the UTF-16 name "a.txt" somewhere.
    let needle = utf16("a.txt");
    assert!(
        buf.windows(needle.len()).any(|w| w == needle.as_slice()),
        "expected a.txt in directory listing"
    );
}

#[test]
fn query_directory_chain_is_walkable() {
    // The guest redirector walks the NextEntryOffset chain to find each entry.
    // Windows' FindFirstFile uses FileFullDirectoryInformation (0x02). For a
    // reparse entry the EaSize field carries the reparse tag, which must not
    // desync the chain.
    let t = Tree::new(vec![
        file("layer.txt", b"x"),
        file("hasads.txt", b"y"),
        dir("realdir"),
        link("linkdir"),
    ]);
    let mut s = server();
    let tree_id = connect(&t, &mut s);
    let file_id = open(&t, &mut s, tree_id, "");
    let qd = query_directory_body(
        file_id,
        file_info_class::FULL_DIRECTORY,
        RESTART_SCANS,
        64 * 1024,
    );
    let resp = t
        .handle(&mut s, &request(command::QUERY_DIRECTORY, 1, 1, &qd))
        .unwrap();
    let (h, rest) = parse_header(&resp).unwrap();
    assert_eq!(h.status, status::SUCCESS);
    let (_, buf) = OutputBufferResponse::read_from_prefix(rest).unwrap();

    // FileFullDirectory: FileNameLength at 60, EaSize at 64, FileName at 68.
    let names = walk(buf, 68);
    assert!(names.contains(&".".to_owned()), "names={names:?}");
    assert!(names.contains(&"..".to_owned()), "names={names:?}");
    assert!(names.contains(&"layer.txt".to_owned()), "names={names:?}");
    assert!(names.contains(&"hasads.txt".to_owned()), "names={names:?}");
    assert!(names.contains(&"realdir".to_owned()), "names={names:?}");
    assert!(names.contains(&"linkdir".to_owned()), "names={names:?}");
}

#[test]
fn query_directory_both_dir_chain_is_walkable() {
    // FindFirstFileW uses FileBothDirectoryInformation (0x03), whose fixed
    // part is 94 bytes (adds EaSize + ShortNameLength/Reserved/ShortName).
    let t = Tree::new(vec![
        file("layer.txt", b"x"),
        file("hasads.txt", b"y"),
        dir("realdir"),
    ]);
    let mut s = server();
    let tree_id = connect(&t, &mut s);
    let file_id = open(&t, &mut s, tree_id, "");
    let qd = query_directory_body(
        file_id,
        file_info_class::BOTH_DIRECTORY,
        RESTART_SCANS,
        64 * 1024,
    );
    let resp = t
        .handle(&mut s, &request(command::QUERY_DIRECTORY, 1, 1, &qd))
        .unwrap();
    let (_, rest) = parse_header(&resp).unwrap();
    let (_, buf) = OutputBufferResponse::read_from_prefix(rest).unwrap();

    // FileBothDirectoryInformation: FileNameLength at 60, FileName at 94.
    let names = walk(buf, 94);
    assert!(names.contains(&"layer.txt".to_owned()), "names={names:?}");
    assert!(names.contains(&"hasads.txt".to_owned()), "names={names:?}");
    assert!(names.contains(&"realdir".to_owned()), "names={names:?}");
}

#[test]
fn query_directory_split_matches_client() {
    // FindFirstFileW passes a small output buffer (0x268), forcing the entries
    // to split across responses. Walk each response's chain like the client
    // and confirm every name arrives exactly once.
    let t = Tree::new(vec![
        file("layer.txt", b"x"),
        file("hasads.txt", b"y"),
        file("second.txt", b"z"),
        dir("realdir"),
    ]);
    let mut s = server();
    let tree_id = connect(&t, &mut s);
    let file_id = open(&t, &mut s, tree_id, "");

    let mut names = Vec::new();
    // Mirror the Windows redirector: SMB2_RETURN_SINGLE_ENTRY, one entry per
    // call, until NO_MORE_FILES.
    for i in 0..16 {
        let flags = if i == 0 {
            RESTART_SCANS | RETURN_SINGLE_ENTRY
        } else {
            RETURN_SINGLE_ENTRY
        };
        let qd = query_directory_body(file_id, file_info_class::BOTH_DIRECTORY, flags, 0x268);
        let resp = t
            .handle(&mut s, &request(command::QUERY_DIRECTORY, 1, 1, &qd))
            .unwrap();
        let (h, rest) = parse_header(&resp).unwrap();
        if h.status != status::SUCCESS {
            assert_eq!(h.status, status::NO_MORE_FILES);
            assert_eq!(i, 6);
            break;
        }
        let (_, buf) = OutputBufferResponse::read_from_prefix(rest).unwrap();
        let before = names.len();
        names.extend(walk(buf, 94));
        // With single-entry semantics each response carries exactly one.
        assert_eq!(names.len() - before, 1, "expected one entry per response");
    }

    // Every real name must appear exactly once across the split responses.
    for expected in ["layer.txt", "hasads.txt", "second.txt", "realdir"] {
        let n = names.iter().filter(|x| x.as_str() == expected).count();
        assert_eq!(n, 1, "{expected} appeared {n} times; names={names:?}");
    }
}

#[test]
fn query_directory_pages_fit_the_buffer() {
    let t = Tree::new(vec![
        file("layer.txt", b"x"),
        file("hasads.txt", b"y"),
        file("second.txt", b"z"),
        dir("realdir"),
    ]);
    let mut s = server();
    let tree_id = connect(&t, &mut s);
    let file_id = open(&t, &mut s, tree_id, "");
    // 64 bytes and a short name each: two entries fit 200 bytes.
    for max in [1u32, 200, 400] {
        let mut names = Vec::new();
        for i in 0..16 {
            let flags = if i == 0 { RESTART_SCANS } else { 0 };
            let qd = query_directory_body(file_id, file_info_class::DIRECTORY, flags, max);
            let resp = t
                .handle(&mut s, &request(command::QUERY_DIRECTORY, 1, 1, &qd))
                .unwrap();
            if status_of(&resp) != status::SUCCESS {
                assert_eq!(status_of(&resp), status::NO_MORE_FILES);
                break;
            }
            let buf = &resp[72..];
            let page = walk(buf, 64);
            assert!(page.len() == 1 || buf.len() <= max as usize);
            names.extend(page);
        }
        assert_eq!(
            names,
            vec![
                ".",
                "..",
                "hasads.txt",
                "layer.txt",
                "realdir",
                "second.txt"
            ]
        );
    }
}

#[test]
fn query_directory_refusals() {
    let t = Tree::new(vec![file("f", b"x")]);
    let mut s = server();
    let tree_id = connect(&t, &mut s);
    let f = open(&t, &mut s, tree_id, "f");
    let d = open(&t, &mut s, tree_id, "");
    let query = |s: &mut Smb2Server, id: [u8; 16], class: u8| {
        let qd = query_directory_body(id, class, 0, 4096);
        status_of(
            &t.handle(s, &request(command::QUERY_DIRECTORY, 1, 1, &qd))
                .unwrap(),
        )
    };
    let class = file_info_class::DIRECTORY;
    assert_eq!(query(&mut s, f, class), status::INVALID_PARAMETER);
    assert_eq!(query(&mut s, [5; 16], class), status::INVALID_PARAMETER);
    assert_eq!(query(&mut s, d, 0x0C), status::NOT_SUPPORTED);
    assert_eq!(query(&mut s, d, class), status::SUCCESS);
    assert_eq!(query(&mut s, d, class), status::NO_MORE_FILES);
    assert_eq!(query(&mut s, d, 0x0C), status::NO_MORE_FILES);
}

#[test]
fn information_classes_have_their_exact_layout() {
    let info = FileInfo {
        size: 0x0102,
        allocation_size: 0x1000,
        attributes: 0x0400,
        is_dir: true,
        creation_time: 1,
        last_access_time: 2,
        last_write_time: 3,
        change_time: 4,
        reparse_tag: 0xA000_0003,
    };
    let basic = encode_basic_info(&info);
    assert_eq!(basic.len(), 40);
    assert_eq!(&basic[8..16], &[2, 0, 0, 0, 0, 0, 0, 0]);
    assert_eq!(&basic[32..], &[0, 4, 0, 0, 0, 0, 0, 0]);
    let standard = encode_standard_info(&info);
    assert_eq!(
        standard,
        vec![0, 0x10, 0, 0, 0, 0, 0, 0, 2, 1, 0, 0, 0, 0, 0, 0, 1, 0, 0, 0, 0, 1, 0, 0]
    );
    let network = encode_network_open_info(&info);
    assert_eq!(network.len(), 56);
    assert_eq!(&network[40..48], &[2, 1, 0, 0, 0, 0, 0, 0]);
    assert_eq!(
        encode_attribute_tag_info(&info),
        vec![0, 4, 0, 0, 3, 0, 0, 0xA0]
    );

    let entry = DirEntry {
        name: "a\u{1F600}".to_owned(),
        info,
    };
    for (class, name_at) in [
        (file_info_class::DIRECTORY, 64usize),
        (file_info_class::FULL_DIRECTORY, 68),
        (file_info_class::BOTH_DIRECTORY, 94),
        (file_info_class::ID_BOTH_DIRECTORY, 104),
    ] {
        let bytes = encode_dir_entry(class, &entry).unwrap();
        let aligned = bytes.len().next_multiple_of(8);
        assert_eq!(bytes.len(), name_at + 6);
        assert_eq!(&bytes[..4], &(aligned as u32).to_le_bytes());
        assert_eq!(&bytes[40..48], &[2, 1, 0, 0, 0, 0, 0, 0]);
        assert_eq!(&bytes[60..64], &[6, 0, 0, 0]);
        assert_eq!(
            &bytes[name_at..name_at + 6],
            &[0x61, 0, 0x3D, 0xD8, 0x00, 0xDE]
        );
        if class != file_info_class::DIRECTORY {
            assert_eq!(&bytes[64..68], &[3, 0, 0, 0xA0]);
        }
        // In a page, the entry is padded and the last link is zeroed.
        let entries = vec![entry.clone(), entry.clone()];
        let (page, next) = encode_dir_page(class, &entries, 0, 4096, false);
        assert_eq!(next, 2);
        assert_eq!(page.len(), 2 * aligned);
        assert_eq!(page[..bytes.len()], bytes[..]);
        assert!(page[bytes.len()..aligned].iter().all(|b| *b == 0));
        assert_eq!(&page[aligned..aligned + 4], &[0, 0, 0, 0]);
        assert_eq!(page[aligned + 4..aligned + bytes.len()], bytes[4..]);
    }
    assert!(encode_dir_entry(file_info_class::BASIC, &entry).is_none());
}

#[test]
fn directory_entries_are_not_padded() {
    let entry = DirEntry {
        name: "a".to_owned(),
        info: FileInfo {
            size: 3,
            allocation_size: 4096,
            attributes: 0x400,
            is_dir: false,
            creation_time: 0,
            last_access_time: 0,
            last_write_time: 0,
            change_time: 0,
            reparse_tag: 0xA000_000C,
        },
    };
    let v = encode_dir_entry(file_info_class::ID_BOTH_DIRECTORY, &entry).unwrap();
    assert_eq!(v.len(), 106);
    assert_eq!(&v[0..4], &[112, 0, 0, 0]);
    assert_eq!(&v[40..48], &[3, 0, 0, 0, 0, 0, 0, 0]);
    assert_eq!(&v[48..56], &[0, 16, 0, 0, 0, 0, 0, 0]);
    assert_eq!(&v[56..60], &[0, 4, 0, 0]);
    assert_eq!(&v[60..64], &[2, 0, 0, 0]);
    assert_eq!(&v[64..68], &[0x0C, 0, 0, 0xA0]);
    assert!(v[68..104].iter().all(|b| *b == 0));
    assert_eq!(&v[104..106], &[0x61, 0]);

    let mut out = vec![7u8];
    push_common_dir_fields(&mut out, &entry.info, 2);
    assert_eq!(out.len(), 65);
    assert_eq!(out[0], 7);
    assert!(out[1..9].iter().all(|b| *b == 0));
    assert_eq!(out[9..], v[8..64]);
}

#[test]
fn stream_information_is_walkable() {
    let streams = vec![
        ("::$DATA".to_owned(), 3i64),
        (":ads:$DATA".to_owned(), 5000),
        (":x:$DATA".to_owned(), 0),
    ];
    let bytes = encode_stream_info(&streams);
    let mut off = 0usize;
    let mut found = Vec::new();
    loop {
        let u32_at = |at: usize| u32::from_le_bytes(bytes[at..at + 4].try_into().unwrap());
        let i64_at = |at: usize| i64::from_le_bytes(bytes[at..at + 8].try_into().unwrap());
        let len = u32_at(off + 4) as usize;
        let units: Vec<u16> = bytes[off + 24..off + 24 + len]
            .chunks_exact(2)
            .map(|c| u16::from_le_bytes([c[0], c[1]]))
            .collect();
        found.push((
            String::from_utf16(&units).unwrap(),
            i64_at(off + 8),
            i64_at(off + 16),
        ));
        let next = u32_at(off) as usize;
        if next == 0 {
            break;
        }
        off += next;
    }
    assert_eq!(
        found,
        vec![
            ("::$DATA".to_owned(), 3, 4096),
            (":ads:$DATA".to_owned(), 5000, 8192),
            (":x:$DATA".to_owned(), 0, 0),
        ]
    );
    assert!(encode_stream_info(&vec![]).is_empty());
}

/// Sends one vSMB segment into a connection and returns the response segment,
/// as its type and payload, if there is one.
fn round_trip(
    t: &Tree,
    c: &mut Connection,
    seg_type: u32,
    payload: &[u8],
) -> Option<(u32, Vec<u8>)> {
    let header = to_be_bytes(segment_header(seg_type, payload.len()));
    let mut event = Event::Header(header);
    loop {
        assert!(c.admits(&event));
        match c.step(event) {
            Action::ReadPayload(len) => {
                assert_eq!(len, payload.len());
                event = Event::Payload(payload.to_vec());
            }
            Action::Ask(request) => event = Event::Reply(t.answer(&request)),
            Action::Send(bytes) => {
                let h = u32::from_be_bytes(bytes[..4].try_into().unwrap());
                let len = (h & !SEGMENT_HEADER_TYPE_MASK) as usize;
                assert_eq!(len, bytes.len() - 4);
                assert!(matches!(c.step(Event::Sent), Action::ReadHeader));
                return Some((h & SEGMENT_HEADER_TYPE_MASK, bytes[4..].to_vec()));
            }
            Action::ReadHeader => return None,
            Action::Close(_) => panic!("connection closed"),
        }
    }
}

#[test]
fn negotiate_and_read_over_ring() {
    let t = Tree::new(vec![file("layer.bin", b"RING-SERVED-LAYER")]);
    let mut c = Connection::new(server());
    let smb = SEGMENT_HEADER_TYPE_SMB;

    // 1) vSMB version negotiation.
    let ver = VersionPacket {
        version_requested: PROTOCOL_VERSION_1,
        capabilities: 0,
    };
    let (seg, resp) =
        round_trip(&t, &mut c, SEGMENT_HEADER_TYPE_VERSION, &ver.as_bytes()).unwrap();
    assert_eq!(seg, SEGMENT_HEADER_TYPE_VERSION);
    let (vresp, _) = VersionPacket::read_from_prefix(&resp).unwrap();
    assert_eq!(vresp.version_requested, PROTOCOL_VERSION_1);
    assert!(c.is_negotiated());

    // 2) SMB2 NEGOTIATE.
    let req = request(command::NEGOTIATE, 0, 0, &negotiate_body(&[DIALECT_2_0_2]));
    let (_, resp) = round_trip(&t, &mut c, smb, &req).unwrap();
    assert_eq!(status_of(&resp), status::SUCCESS);

    // 3) SESSION_SETUP -> session id.
    let req = request(command::SESSION_SETUP, 0, 0, &session_setup_body());
    let (_, resp) = round_trip(&t, &mut c, smb, &req).unwrap();
    let session_id = parse_header(&resp).unwrap().0.session_id;
    assert_ne!(session_id, 0);

    // 4) TREE_CONNECT -> tree id.
    let req = request(
        command::TREE_CONNECT,
        session_id,
        0,
        &tree_connect_body("\\\\server\\layers"),
    );
    let (_, resp) = round_trip(&t, &mut c, smb, &req).unwrap();
    let tree_id = parse_header(&resp).unwrap().0.tree_id;
    assert_ne!(tree_id, 0);

    // 5) CREATE (open layer.bin) -> file id.
    let req = request(
        command::CREATE,
        session_id,
        tree_id,
        &create_body("layer.bin"),
    );
    let (_, resp) = round_trip(&t, &mut c, smb, &req).unwrap();
    let (h, rest) = parse_header(&resp).unwrap();
    assert_eq!(h.status, status::SUCCESS);
    let (create, _) = CreateResponse::read_from_prefix(rest).unwrap();
    assert_eq!(create.end_of_file, 17);
    let file_id = create.file_id;

    // 6) READ -> the layer bytes.
    let req = request(
        command::READ,
        session_id,
        tree_id,
        &read_body(file_id, 0, 17),
    );
    let (_, resp) = round_trip(&t, &mut c, smb, &req).unwrap();
    let (h, rest) = parse_header(&resp).unwrap();
    assert_eq!(h.status, status::SUCCESS);
    let (read, data) = ReadResponse::read_from_prefix(rest).unwrap();
    assert_eq!(read.data_length, 17);
    assert_eq!(&data[..17], b"RING-SERVED-LAYER");

    // The guest closes; the connection ends.
    assert!(c.admits(&Event::End));
    assert!(matches!(c.step(Event::End), Action::Close(Ok(()))));
    assert!(!c.admits(&Event::End));
}

#[test]
fn connections_skip_unknown_segments() {
    let t = Tree::new(vec![]);
    let mut c = Connection::new(server());
    assert!(round_trip(&t, &mut c, 0x0200_0000, &[1, 2, 3]).is_none());
    assert!(!c.admits(&Event::Sent));
    assert!(!c.admits(&Event::Payload(vec![])));
    let req = request(command::LOGOFF, 0, 0, &[4, 0, 0, 0]);
    assert!(round_trip(&t, &mut c, SEGMENT_HEADER_TYPE_SMB, &req).is_some());
}

#[test]
fn undecodable_segments_end_the_connection() {
    let mut c = Connection::new(server());
    assert!(matches!(
        c.step(Event::Header([0, 0, 0, 1])),
        Action::ReadPayload(1)
    ));
    assert!(matches!(
        c.step(Event::Payload(vec![0xAA])),
        Action::Close(Ok(()))
    ));
    // A VERSION segment after it is not read.
    assert!(!c.admits(&Event::Header([1, 0, 0, 8])));
    assert!(!c.admits(&Event::End));

    // A command before the undecodable part is carried out first.
    let t = Tree::new(vec![file("f", b"x")]);
    let mut c = Connection::new(server());
    let req = request(
        command::TREE_CONNECT,
        1,
        0,
        &tree_connect_body("\\\\server\\layers"),
    );
    assert!(round_trip(&t, &mut c, SEGMENT_HEADER_TYPE_SMB, &req).is_some());
    let body = create_body("f");
    let mut msg = header_bytes(command::CREATE, 0, 1, 1, (64 + body.len()) as u32);
    msg.extend_from_slice(&body);
    msg.extend_from_slice(&[0u8; 64]);
    let header = to_be_bytes(segment_header(SEGMENT_HEADER_TYPE_SMB, msg.len()));
    assert!(matches!(
        c.step(Event::Header(header)),
        Action::ReadPayload(_)
    ));
    let request = match c.step(Event::Payload(msg)) {
        Action::Ask(request) => request,
        _ => panic!("expected a request"),
    };
    assert!(matches!(
        c.step(Event::Reply(t.answer(&request))),
        Action::Close(Ok(()))
    ));
}

#[test]
fn connections_end_on_bad_segments() {
    let mut c = Connection::new(server());
    match c.step(Event::Header([0, 0x10, 0, 1])) {
        Action::Close(Err(ConnectionError::SegmentTooLarge(len))) => assert_eq!(len, 0x10_0001),
        _ => panic!("expected the connection to end"),
    }

    let mut c = Connection::new(server());
    assert!(matches!(
        c.step(Event::Header([0, 0x10, 0, 0])),
        Action::ReadPayload(0x10_0000)
    ));

    let mut c = Connection::new(server());
    assert!(matches!(
        c.step(Event::Header([1, 0, 0, 4])),
        Action::ReadPayload(4)
    ));
    match c.step(Event::Payload(vec![0; 4])) {
        Action::Close(Err(ConnectionError::ShortVersionPacket)) => {}
        _ => panic!("expected the connection to end"),
    }
}

#[test]
fn devices_serve_their_shares() {
    let resource = VsmbDeviceHandle {
        shares: vec![VsmbShare {
            name: "Layers".to_owned(),
            path: "/srv/layers".to_owned(),
            read_only: true,
        }],
    };
    let device: VsmbDevice = VsmbResolver.resolve(resource);
    assert_eq!(device.share_count(), 1);
    let offer = device.offer();
    assert_eq!(offer.interface_name, "vsmb");
    assert_eq!(offer.interface_id, INTERFACE_TYPE);
    assert_eq!(offer.instance_id, INSTANCE);
    assert!(offer.gpa_direct);
    assert!(!offer.message_mode);

    let t = Tree::new(vec![]);
    let mut c = device.open("/tmp/empty");
    for name in ["layers", "defaultemptyshare"] {
        let path = format!("\\\\server\\{name}");
        let req = request(command::TREE_CONNECT, 1, 0, &tree_connect_body(&path));
        let (_, resp) = round_trip(&t, &mut c, SEGMENT_HEADER_TYPE_SMB, &req).unwrap();
        assert_eq!(status_of(&resp), status::SUCCESS);
    }
}

#[test]
fn boot_time_is_reported_once() {
    let mut vm = InitializedVm::new_with_hypervisor(42).load();
    assert!(matches!(
        vm.resume(),
        Resume::Start {
            boot_start: Some(42)
        }
    ));
    assert!(matches!(vm.resume(), Resume::Start { boot_start: None }));
    vm.note_started();
    assert!(matches!(vm.resume(), Resume::AlreadyRunning));
}
