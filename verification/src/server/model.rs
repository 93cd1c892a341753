//! What the SMB2 server does, command by command.
//!
//! A command either is answered at once or needs the host filesystem first. In
//! the second case it is answered from the host's reply.

use crate::backing::{is_reparse_point, EntryState, FileInfo};
use crate::encode::{
    attribute_tag_info, basic_info, dir_page, is_dir_class, network_open_info, page_end,
    standard_info, stream_info, zeros,
};
use crate::host::{io_status, Answer, FsOp, Question};
use crate::smb2;
use crate::smb2::{
    command, file_info_class, status, CloseRequest, CloseResponse, CreateRequest, CreateResponse,
    Header, IoctlRequest, IoctlResponse, NegotiateRequest, NegotiateResponse, OutputBufferResponse,
    QueryDirectoryRequest, QueryInfoRequest, ReadRequest, ReadResponse, SessionSetupResponse,
    TreeConnectRequest, TreeConnectResponse,
};
use crate::text::{decode_utf16_le, last_component_of, lowercase, units_of};
use crate::wire::{le16, le64, low32, record_at, u64_at, Wire};
use vstd::prelude::*;

verus! {

/// The identity the server presents in NEGOTIATE, `openvmm-vsmb` and four
/// zeros.
pub const SERVER_GUID: [u8; 16] = [
    0x6F,
    0x70,
    0x65,
    0x6E,
    0x76,
    0x6D,
    0x6D,
    0x2D,
    0x76,
    0x73,
    0x6D,
    0x62,
    0,
    0,
    0,
    0,
];

/// The access a tree connection reports: read, execute and list.
pub const READ_ONLY_ACCESS: u32 = 0x0012_00A9;

/// An open file or directory handle.
#[verifier::ext_equal]
pub struct HandleState {
    /// The tree connection it was opened on.
    pub tree_id: u32,
    /// The path it was opened by, below the share root.
    pub rel_path: Seq<char>,
    /// The metadata at the time it was opened.
    pub info: FileInfo,
    /// The directory listing being paged through, if one was taken.
    pub listing: Option<Seq<EntryState>>,
    /// The first entry of the listing not yet returned.
    pub cursor: int,
}

/// The state of the server for one connection.
#[verifier::ext_equal]
pub struct ServerState {
    /// The host directory behind each share, by lower-case share name.
    pub shares: Map<Seq<char>, Seq<char>>,
    /// Whether a dialect has been negotiated.
    pub negotiated: bool,
    /// The next session id to mint.
    pub next_session_id: u64,
    /// The next tree id to mint.
    pub next_tree_id: u32,
    /// The next file id to mint.
    pub next_file_id: u64,
    /// The sessions set up.
    pub sessions: Set<u64>,
    /// The share each connected tree refers to.
    pub trees: Map<u32, Seq<char>>,
    /// The open handles.
    pub open_files: Map<u64, HandleState>,
}

impl ServerState {
    /// The state at the start of a connection.
    pub open spec fn initial(shares: Map<Seq<char>, Seq<char>>) -> ServerState {
        ServerState {
            shares,
            negotiated: false,
            next_session_id: 1,
            next_tree_id: 1,
            next_file_id: 1,
            sessions: Set::empty(),
            trees: Map::empty(),
            open_files: Map::empty(),
        }
    }
}

/// What a command comes to: the state after it, and its response or the NT
/// status that refuses it.
pub struct Outcome {
    /// The state after the command.
    pub state: ServerState,
    /// The response, or the status of the error response.
    pub reply: Result<Seq<u8>, u32>,
}

/// How far a command gets without the host.
pub enum Step {
    /// It is answered.
    Done(Outcome),
    /// It needs the host's answer to a question.
    Ask(Question),
}

/// A command that is refused and changes nothing.
pub open spec fn refused(s: ServerState, nt_status: u32) -> Outcome {
    Outcome { state: s, reply: Err(nt_status) }
}

/// A full SMB2 response: header, fixed body, trailing buffer.
pub open spec fn assembled(
    request: Header,
    nt_status: u32,
    body: Seq<u8>,
    trailer: Seq<u8>,
) -> Seq<u8> {
    Header::responding(request, nt_status).wire_bytes() + body + trailer
}

/// The body of an error response (MS-SMB2 2.2.2): structure size 9, no error
/// contexts, no error data but one reserved byte.
pub open spec fn error_body() -> Seq<u8> {
    le16(9) + zeros(7)
}

/// An SMB2 error response.
pub open spec fn error_response(request: Header, nt_status: u32) -> Seq<u8> {
    assembled(request, nt_status, error_body(), Seq::empty())
}

/// A response without content: structure size 4 and a reserved field.
pub open spec fn simple_response(request: Header) -> Seq<u8> {
    assembled(request, status::SUCCESS, le16(4) + le16(0), Seq::empty())
}

/// A response carrying an output buffer after its 8-byte fixed part.
pub open spec fn output_buffer_response(request: Header, out: Seq<u8>) -> Seq<u8> {
    assembled(
        request,
        status::SUCCESS,
        (OutputBufferResponse {
            structure_size: 9,
            output_buffer_offset: 72,
            output_buffer_length: low32(out.len() as int),
        }).wire_bytes(),
        out,
    )
}

/// The response to a command with the given outcome.
pub open spec fn response(request: Header, o: Outcome) -> Seq<u8> {
    match o.reply {
        Ok(bytes) => bytes,
        Err(nt_status) => error_response(request, nt_status),
    }
}

/// The text at `offset` from the start of the SMB2 header, where `body` starts
/// after the header.
pub open spec fn text_in(body: Seq<u8>, offset: u16, length: u16) -> Option<Seq<char>> {
    if offset < 64 || offset - 64 + length > body.len() {
        None
    } else {
        decode_utf16_le(body.subrange(offset - 64, offset - 64 + length))
    }
}

/// The server's own file id in a 16-byte SMB2 FileId: its first eight bytes.
pub open spec fn own_id(file_id: [u8; 16]) -> u64 {
    u64_at(file_id@, 0)
}

/// The SMB2 FileId of a file id: its eight bytes and eight zeros.
pub open spec fn wire_id(file_id: u64) -> [u8; 16] {
    choose|a: [u8; 16]| a@ == le64(file_id) + zeros(8)
}

/// The share a tree refers to.
pub open spec fn tree_share(s: ServerState, tree_id: u32) -> Result<Seq<char>, u32> {
    if s.trees.contains_key(tree_id) {
        Ok(s.trees[tree_id])
    } else {
        Err(status::INVALID_PARAMETER)
    }
}

/// The host directory behind a share.
pub open spec fn share_root(s: ServerState, share: Seq<char>) -> Result<Seq<char>, u32> {
    if s.shares.contains_key(share) {
        Ok(s.shares[share])
    } else {
        Err(status::BAD_NETWORK_NAME)
    }
}

/// A question about the file behind a handle.
pub open spec fn ask_about(s: ServerState, handle: HandleState, op: FsOp) -> Result<Question, u32> {
    match tree_share(s, handle.tree_id) {
        Err(e) => Err(e),
        Ok(share) => match share_root(s, share) {
            Err(e) => Err(e),
            Ok(root) => Ok(Question { root, rel: handle.rel_path, op }),
        },
    }
}

/// The dialects offered in a NEGOTIATE request, if the request holds as many
/// as it announces.
pub open spec fn offered_dialects(body: Seq<u8>) -> Option<Seq<u16>> {
    let count = record_at::<NegotiateRequest>(body).dialect_count;
    if body.len() < 36 + 2 * count {
        None
    } else {
        Some(units_of(body.subrange(36, 36 + 2 * count)))
    }
}

/// The dialect chosen among those offered: 2.0.2 where it is offered, else 2.1,
/// else 2.0.2 on the wildcard, which asks for any concrete dialect.
pub open spec fn chosen_dialect(offered: Seq<u16>) -> Option<u16> {
    if offered.contains(smb2::DIALECT_2_0_2) {
        Some(smb2::DIALECT_2_0_2)
    } else if offered.contains(smb2::DIALECT_2_1_0) {
        Some(smb2::DIALECT_2_1_0)
    } else if offered.contains(smb2::DIALECT_WILDCARD) {
        Some(smb2::DIALECT_2_0_2)
    } else {
        None
    }
}

/// The NEGOTIATE response for a dialect: no signing, no capabilities, 1 MiB
/// transfers, no security buffer.
pub open spec fn negotiate_response(dialect: u16) -> NegotiateResponse {
    NegotiateResponse {
        structure_size: 65,
        security_mode: 0,
        dialect_revision: dialect,
        negotiate_context_count: 0,
        server_guid: SERVER_GUID,
        capabilities: 0,
        max_transact_size: 0x10_0000,
        max_read_size: 0x10_0000,
        max_write_size: 0x10_0000,
        system_time: 0,
        server_start_time: 0,
        security_buffer_offset: 128,
        security_buffer_length: 0,
        negotiate_context_offset: 0,
    }
}

/// NEGOTIATE.
pub open spec fn negotiate(s: ServerState, h: Header, body: Seq<u8>) -> Outcome {
    if body.len() < 36 {
        refused(s, status::INVALID_PARAMETER)
    } else {
        match offered_dialects(body) {
            None => refused(s, status::INVALID_PARAMETER),
            Some(offered) => match chosen_dialect(offered) {
                None => refused(s, status::NOT_SUPPORTED),
                Some(dialect) => Outcome {
                    state: ServerState { negotiated: true, ..s },
                    reply: Ok(
                        assembled(
                            h,
                            status::SUCCESS,
                            negotiate_response(dialect).wire_bytes(),
                            Seq::empty(),
                        ),
                    ),
                },
            },
        }
    }
}

/// SESSION_SETUP: a guest session under the id the request names, or a fresh
/// one, whatever the security buffer holds.
pub open spec fn session_setup(s: ServerState, h: Header, body: Seq<u8>) -> Outcome {
    if body.len() < 24 {
        refused(s, status::INVALID_PARAMETER)
    } else {
        let fresh = h.session_id == 0;
        let id = if fresh {
            s.next_session_id
        } else {
            h.session_id
        };
        let next = if fresh {
            (s.next_session_id + 1) as u64
        } else {
            s.next_session_id
        };
        Outcome {
            state: ServerState { next_session_id: next, sessions: s.sessions.insert(id), ..s },
            reply: Ok(
                assembled(
                    Header { session_id: id, ..h },
                    status::SUCCESS,
                    (SessionSetupResponse {
                        structure_size: 9,
                        session_flags: smb2::SESSION_FLAG_IS_GUEST,
                        security_buffer_offset: 72,
                        security_buffer_length: 0,
                    }).wire_bytes(),
                    Seq::empty(),
                ),
            ),
        }
    }
}

/// The share that a TREE_CONNECT request names: the last component of its UNC
/// path, without regard to ASCII case.
pub open spec fn requested_share(body: Seq<u8>) -> Option<Seq<char>> {
    let req = record_at::<TreeConnectRequest>(body);
    match text_in(body, req.path_offset, req.path_length) {
        None => None,
        Some(path) => Some(lowercase(last_component_of(path))),
    }
}

/// TREE_CONNECT: a fresh tree on a known share.
pub open spec fn tree_connect(s: ServerState, h: Header, body: Seq<u8>) -> Outcome {
    if body.len() < 8 {
        refused(s, status::INVALID_PARAMETER)
    } else {
        match requested_share(body) {
            None => refused(s, status::INVALID_PARAMETER),
            Some(share) => if !s.shares.contains_key(share) {
                refused(s, status::BAD_NETWORK_NAME)
            } else {
                Outcome {
                    state: ServerState {
                        next_tree_id: (s.next_tree_id + 1) as u32,
                        trees: s.trees.insert(s.next_tree_id, share),
                        ..s
                    },
                    reply: Ok(
                        assembled(
                            Header { tree_id: s.next_tree_id, ..h },
                            status::SUCCESS,
                            (TreeConnectResponse {
                                structure_size: 16,
                                share_type: smb2::SHARE_TYPE_DISK,
                                reserved: 0,
                                share_flags: 0,
                                capabilities: 0,
                                maximal_access: READ_ONLY_ACCESS,
                            }).wire_bytes(),
                            Seq::empty(),
                        ),
                    ),
                }
            },
        }
    }
}

/// The handles that are not on the given tree.
pub open spec fn without_tree(
    files: Map<u64, HandleState>,
    tree_id: u32,
) -> Map<u64, HandleState> {
    Map::new(
        |id: u64| files.contains_key(id) && files[id].tree_id != tree_id,
        |id: u64| files[id],
    )
}

/// TREE_DISCONNECT: the tree and the handles on it go.
pub open spec fn tree_disconnect(s: ServerState, h: Header) -> Outcome {
    Outcome {
        state: ServerState {
            trees: s.trees.remove(h.tree_id),
            open_files: without_tree(s.open_files, h.tree_id),
            ..s
        },
        reply: Ok(simple_response(h)),
    }
}

/// CREATE, before the host is asked: the metadata of the named path, for an
/// open of an existing file only.
pub open spec fn create_question(s: ServerState, h: Header, body: Seq<u8>) -> Result<
    Question,
    u32,
> {
    match tree_share(s, h.tree_id) {
        Err(e) => Err(e),
        Ok(share) => match share_root(s, share) {
            Err(e) => Err(e),
            Ok(root) => {
                let req = record_at::<CreateRequest>(body);
                if body.len() < 56 {
                    Err(status::INVALID_PARAMETER)
                } else if req.create_disposition != smb2::FILE_OPEN {
                    Err(status::ACCESS_DENIED)
                } else {
                    match text_in(body, req.name_offset, req.name_length) {
                        None => Err(status::INVALID_PARAMETER),
                        Some(name) => Ok(Question { root, rel: name, op: FsOp::Stat }),
                    }
                }
            },
        },
    }
}

/// The CREATE response for a file just opened.
pub open spec fn create_response(file_id: u64, info: FileInfo) -> CreateResponse {
    CreateResponse {
        structure_size: 89,
        oplock_level: 0,
        flags: 0,
        create_action: smb2::CREATE_ACTION_OPENED,
        creation_time: info.creation_time,
        last_access_time: info.last_access_time,
        last_write_time: info.last_write_time,
        change_time: info.change_time,
        allocation_size: info.allocation_size,
        end_of_file: info.size,
        file_attributes: info.attributes,
        reserved2: 0,
        file_id: wire_id(file_id),
        create_contexts_offset: 0,
        create_contexts_length: 0,
    }
}

/// CREATE of `rel`, once the host has answered: a fresh handle on the file.
pub open spec fn create_answered(
    s: ServerState,
    h: Header,
    rel: Seq<char>,
    answer: Answer,
) -> Outcome {
    match answer {
        Answer::Stat(Ok(info)) => Outcome {
            state: ServerState {
                next_file_id: (s.next_file_id + 1) as u64,
                open_files: s.open_files.insert(
                    s.next_file_id,
                    HandleState {
                        tree_id: h.tree_id,
                        rel_path: rel,
                        info,
                        listing: None,
                        cursor: 0,
                    },
                ),
                ..s
            },
            reply: Ok(
                assembled(
                    h,
                    status::SUCCESS,
                    create_response(s.next_file_id, info).wire_bytes(),
                    Seq::empty(),
                ),
            ),
        },
        Answer::Stat(Err(kind)) => refused(s, io_status(kind)),
        _ => refused(s, status::INVALID_PARAMETER),
    }
}

/// READ, before the host is asked: the requested range of an open file.
pub open spec fn read_question(s: ServerState, body: Seq<u8>) -> Result<Question, u32> {
    let req = record_at::<ReadRequest>(body);
    let id = own_id(req.file_id);
    if body.len() < 48 {
        Err(status::INVALID_PARAMETER)
    } else if !s.open_files.contains_key(id) {
        Err(status::INVALID_PARAMETER)
    } else if s.open_files[id].info.is_dir {
        Err(status::INVALID_DEVICE_REQUEST)
    } else {
        ask_about(s, s.open_files[id], FsOp::Read { offset: req.offset, len: req.length })
    }
}

/// READ of up to `len` bytes, once the host has answered: the data, right
/// after the 16-byte fixed part. No data at all is the end of the file.
pub open spec fn read_answered(s: ServerState, h: Header, len: u32, answer: Answer) -> Outcome {
    match answer {
        Answer::Data(Ok(data)) => if data.len() == 0 && len > 0 {
            refused(s, status::END_OF_FILE)
        } else {
            Outcome {
                state: s,
                reply: Ok(
                    assembled(
                        h,
                        status::SUCCESS,
                        (ReadResponse {
                            structure_size: 17,
                            data_offset: 80,
                            reserved: 0,
                            data_length: low32(data.len() as int),
                            data_remaining: 0,
                            reserved2: 0,
                        }).wire_bytes(),
                        data,
                    ),
                ),
            }
        },
        Answer::Data(Err(kind)) => refused(s, io_status(kind)),
        _ => refused(s, status::INVALID_PARAMETER),
    }
}

/// The file information of a class, from cached metadata.
pub open spec fn cached_info(info_class: u8, info: FileInfo) -> Option<Seq<u8>> {
    if info_class == file_info_class::BASIC {
        Some(basic_info(info))
    } else if info_class == file_info_class::STANDARD {
        Some(standard_info(info))
    } else if info_class == file_info_class::NETWORK_OPEN {
        Some(network_open_info(info))
    } else if info_class == file_info_class::ATTRIBUTE_TAG {
        Some(attribute_tag_info(info))
    } else {
        None
    }
}

/// QUERY_INFO, as far as it gets without the host: the security descriptor and
/// the streams have to be asked for, the rest is answered from the metadata
/// taken at open.
pub open spec fn query_info(s: ServerState, h: Header, body: Seq<u8>) -> Step {
    let req = record_at::<QueryInfoRequest>(body);
    let id = own_id(req.file_id);
    if body.len() < 40 {
        Step::Done(refused(s, status::INVALID_PARAMETER))
    } else if req.info_type != smb2::INFO_TYPE_SECURITY && req.info_type != smb2::INFO_TYPE_FILE {
        Step::Done(refused(s, status::NOT_SUPPORTED))
    } else if !s.open_files.contains_key(id) {
        Step::Done(refused(s, status::INVALID_PARAMETER))
    } else if req.info_type == smb2::INFO_TYPE_SECURITY {
        asking(s, ask_about(s, s.open_files[id], FsOp::ReadSecurity))
    } else if req.file_info_class == file_info_class::STREAM {
        asking(s, ask_about(s, s.open_files[id], FsOp::ListStreams))
    } else {
        Step::Done(
            match cached_info(req.file_info_class, s.open_files[id].info) {
                None => refused(s, status::NOT_SUPPORTED),
                Some(out) => Outcome { state: s, reply: Ok(output_buffer_response(h, out)) },
            },
        )
    }
}

/// A command that needs the host, or is refused before that.
pub open spec fn asking(s: ServerState, question: Result<Question, u32>) -> Step {
    match question {
        Ok(q) => Step::Ask(q),
        Err(e) => Step::Done(refused(s, e)),
    }
}

/// QUERY_INFO with a buffer of `max` bytes, once the host has answered. A
/// security descriptor has to fit the buffer.
pub open spec fn query_info_answered(
    s: ServerState,
    h: Header,
    max: u32,
    answer: Answer,
) -> Outcome {
    match answer {
        Answer::Security(None) => refused(s, status::ACCESS_DENIED),
        Answer::Security(Some(sd)) => if sd.len() > max {
            refused(s, status::BUFFER_TOO_SMALL)
        } else {
            Outcome { state: s, reply: Ok(output_buffer_response(h, sd)) }
        },
        Answer::Streams(streams) => Outcome {
            state: s,
            reply: Ok(output_buffer_response(h, stream_info(streams))),
        },
        _ => refused(s, status::INVALID_PARAMETER),
    }
}

/// IOCTL, before the host is asked: the reparse data of an open reparse point.
pub open spec fn ioctl_question(s: ServerState, body: Seq<u8>) -> Result<Question, u32> {
    let req = record_at::<IoctlRequest>(body);
    let id = own_id(req.file_id);
    if body.len() < 56 {
        Err(status::INVALID_PARAMETER)
    } else if req.ctl_code != smb2::FSCTL_GET_REPARSE_POINT {
        Err(status::NOT_SUPPORTED)
    } else if !s.open_files.contains_key(id) || !s.trees.contains_key(s.open_files[id].tree_id) {
        Err(status::INVALID_PARAMETER)
    } else if !is_reparse_point(s.open_files[id].info.attributes) {
        Err(status::NOT_A_REPARSE_POINT)
    } else {
        ask_about(s, s.open_files[id], FsOp::ReadReparse)
    }
}

/// IOCTL on `file_id`, once the host has answered: the data, right after the
/// 48-byte fixed part.
pub open spec fn ioctl_answered(
    s: ServerState,
    h: Header,
    file_id: [u8; 16],
    answer: Answer,
) -> Outcome {
    match answer {
        Answer::Data(Ok(data)) => Outcome {
            state: s,
            reply: Ok(
                assembled(
                    h,
                    status::SUCCESS,
                    (IoctlResponse {
                        structure_size: 49,
                        reserved: 0,
                        ctl_code: smb2::FSCTL_GET_REPARSE_POINT,
                        file_id,
                        input_offset: 112,
                        input_count: 0,
                        output_offset: 112,
                        output_count: low32(data.len() as int),
                        flags: 0,
                        reserved2: 0,
                    }).wire_bytes(),
                    data,
                ),
            ),
        },
        Answer::Data(Err(kind)) => refused(s, io_status(kind)),
        _ => refused(s, status::INVALID_PARAMETER),
    }
}

/// Whether a QUERY_DIRECTORY request starts the listing over.
pub open spec fn restarts(req: QueryDirectoryRequest) -> bool {
    req.flags & smb2::RESTART_SCANS != 0
}

/// Whether a QUERY_DIRECTORY request asks for exactly one entry.
pub open spec fn wants_single(req: QueryDirectoryRequest) -> bool {
    req.flags & smb2::RETURN_SINGLE_ENTRY != 0
}

/// QUERY_DIRECTORY, as far as it gets without the host: a listing has to be
/// asked for on first use and on restart.
pub open spec fn query_directory(s: ServerState, h: Header, body: Seq<u8>) -> Step {
    let req = record_at::<QueryDirectoryRequest>(body);
    let id = own_id(req.file_id);
    if body.len() < 32 {
        Step::Done(refused(s, status::INVALID_PARAMETER))
    } else if !s.open_files.contains_key(id) || !s.trees.contains_key(s.open_files[id].tree_id) {
        Step::Done(refused(s, status::INVALID_PARAMETER))
    } else if !s.open_files[id].info.is_dir {
        Step::Done(refused(s, status::INVALID_PARAMETER))
    } else if s.open_files[id].listing is None || restarts(req) {
        asking(s, ask_about(s, s.open_files[id], FsOp::Enumerate))
    } else {
        Step::Done(next_page(s, h, req))
    }
}

/// The next page of the listing taken on the handle.
pub open spec fn next_page(s: ServerState, h: Header, req: QueryDirectoryRequest) -> Outcome {
    let id = own_id(req.file_id);
    let handle = s.open_files[id];
    let entries = handle.listing->0;
    let class = req.file_information_class;
    let end = page_end(
        class,
        entries,
        handle.cursor,
        0,
        req.output_buffer_length as int,
        wants_single(req),
    );
    if handle.cursor >= entries.len() {
        refused(s, status::NO_MORE_FILES)
    } else if !is_dir_class(class) {
        refused(s, status::NOT_SUPPORTED)
    } else {
        Outcome {
            state: ServerState {
                open_files: s.open_files.insert(id, HandleState { cursor: end, ..handle }),
                ..s
            },
            reply: Ok(
                output_buffer_response(h, dir_page(class, entries.subrange(handle.cursor, end))),
            ),
        }
    }
}

/// The state with a fresh listing on a handle.
pub open spec fn with_listing(s: ServerState, id: u64, entries: Seq<EntryState>) -> ServerState {
    ServerState {
        open_files: s.open_files.insert(
            id,
            HandleState { listing: Some(entries), cursor: 0, ..s.open_files[id] },
        ),
        ..s
    }
}

/// QUERY_DIRECTORY, once the host has answered: the first page of the listing.
pub open spec fn query_directory_answered(
    s: ServerState,
    h: Header,
    req: QueryDirectoryRequest,
    answer: Answer,
) -> Outcome {
    match answer {
        Answer::Listing(Ok(entries)) => next_page(
            with_listing(s, own_id(req.file_id), entries),
            h,
            req,
        ),
        Answer::Listing(Err(kind)) => refused(s, io_status(kind)),
        _ => refused(s, status::INVALID_PARAMETER),
    }
}

/// The CLOSE response for a handle, with its metadata only where they were
/// asked for.
pub open spec fn close_response(flags: u16, info: FileInfo) -> CloseResponse {
    let asked = flags & 0x0001 != 0;
    CloseResponse {
        structure_size: 60,
        flags,
        reserved: 0,
        creation_time: if asked {
            info.creation_time
        } else {
            0
        },
        last_access_time: if asked {
            info.last_access_time
        } else {
            0
        },
        last_write_time: if asked {
            info.last_write_time
        } else {
            0
        },
        change_time: if asked {
            info.change_time
        } else {
            0
        },
        allocation_size: if asked {
            info.allocation_size
        } else {
            0
        },
        end_of_file: if asked {
            info.size
        } else {
            0
        },
        file_attributes: if asked {
            info.attributes
        } else {
            0
        },
    }
}

/// CLOSE: the handle goes.
pub open spec fn close(s: ServerState, h: Header, body: Seq<u8>) -> Outcome {
    let req = record_at::<CloseRequest>(body);
    let id = own_id(req.file_id);
    if body.len() < 24 || !s.open_files.contains_key(id) {
        refused(s, status::INVALID_PARAMETER)
    } else {
        Outcome {
            state: ServerState { open_files: s.open_files.remove(id), ..s },
            reply: Ok(
                assembled(
                    h,
                    status::SUCCESS,
                    close_response(req.flags, s.open_files[id].info).wire_bytes(),
                    Seq::empty(),
                ),
            ),
        }
    }
}

/// What a command comes to as far as it gets without the host. Commands beyond
/// the read-only subset are not supported.
#[verifier::opaque]
pub open spec fn begin(s: ServerState, h: Header, body: Seq<u8>) -> Step {
    if h.command == command::NEGOTIATE {
        Step::Done(negotiate(s, h, body))
    } else if h.command == command::SESSION_SETUP {
        Step::Done(session_setup(s, h, body))
    } else if h.command == command::TREE_CONNECT {
        Step::Done(tree_connect(s, h, body))
    } else if h.command == command::TREE_DISCONNECT {
        Step::Done(tree_disconnect(s, h))
    } else if h.command == command::CREATE {
        asking(s, create_question(s, h, body))
    } else if h.command == command::READ {
        asking(s, read_question(s, body))
    } else if h.command == command::IOCTL {
        asking(s, ioctl_question(s, body))
    } else if h.command == command::QUERY_INFO {
        query_info(s, h, body)
    } else if h.command == command::QUERY_DIRECTORY {
        query_directory(s, h, body)
    } else if h.command == command::CLOSE {
        Step::Done(close(s, h, body))
    } else if h.command == command::LOGOFF {
        Step::Done(Outcome { state: s, reply: Ok(simple_response(h)) })
    } else {
        Step::Done(refused(s, status::NOT_SUPPORTED))
    }
}

/// What a command that asked `question` comes to, once the host has answered.
#[verifier::opaque]
pub open spec fn finish(
    s: ServerState,
    h: Header,
    body: Seq<u8>,
    question: Question,
    answer: Answer,
) -> Outcome {
    if h.command == command::CREATE {
        create_answered(s, h, question.rel, answer)
    } else if h.command == command::READ {
        read_answered(s, h, record_at::<ReadRequest>(body).length, answer)
    } else if h.command == command::IOCTL {
        ioctl_answered(s, h, record_at::<IoctlRequest>(body).file_id, answer)
    } else if h.command == command::QUERY_INFO {
        query_info_answered(
            s,
            h,
            record_at::<QueryInfoRequest>(body).output_buffer_length,
            answer,
        )
    } else {
        query_directory_answered(s, h, record_at::<QueryDirectoryRequest>(body), answer)
    }
}

/// Whether the ids that a command mints without the host are not exhausted.
pub open spec fn can_begin(s: ServerState, h: Header, body: Seq<u8>) -> bool {
    &&& h.command == command::SESSION_SETUP && body.len() >= 24 && h.session_id == 0
        ==> s.next_session_id < u64::MAX
    &&& h.command == command::TREE_CONNECT && tree_connect(s, h, body).reply is Ok
        ==> s.next_tree_id < u32::MAX
}

/// Whether the file id that a command mints on the host's answer is not
/// exhausted.
pub open spec fn can_finish(s: ServerState, h: Header, answer: Answer) -> bool {
    h.command == command::CREATE && answer is Stat && answer->Stat_0 is Ok ==> s.next_file_id
        < u64::MAX
}

} // verus!
