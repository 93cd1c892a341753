//! The server's tables and the commands that work on them.

use super::exchange::ids_left;
use super::model::{
    ask_about, asking, assembled, begin, can_begin, can_finish, close, close_response,
    create_answered, create_question, error_body, error_response, finish, ioctl_answered,
    ioctl_question, negotiate, next_page, output_buffer_response, own_id, query_directory,
    query_directory_answered, query_info, query_info_answered, read_answered, read_question,
    response, session_setup, share_root, simple_response, text_in, tree_connect, tree_disconnect,
    tree_share, wire_id, with_listing, without_tree, HandleState, Outcome, ServerState, Step,
    READ_ONLY_ACCESS, SERVER_GUID,
};
use crate::backing::{entry_views, has_reparse_tag, DirEntry, FileInfo};
use crate::encode::{
    encode_attribute_tag_info, encode_basic_info, encode_dir_page, encode_network_open_info,
    encode_standard_info, encode_stream_info, zeros,
};
use crate::host::{answers, map_io_error, FsOp, FsReply, FsRequest};
use crate::smb2;
use crate::smb2::{
    command, file_info_class, status, CloseRequest, CloseResponse, CreateRequest, CreateResponse,
    Header, IoctlRequest, IoctlResponse, NegotiateRequest, NegotiateResponse, OutputBufferResponse,
    QueryDirectoryRequest, QueryInfoRequest, ReadRequest, ReadResponse, SessionSetupRequest,
    SessionSetupResponse, TreeConnectRequest, TreeConnectResponse,
};
use crate::text::{last_component, lowercase, units_of, utf16_to_string};
use crate::wire::{
    get_u16, get_u64, le16, le64, lemma_array16, lemma_le64, lemma_record_at, len_u32, put_bytes,
    put_u16, put_u64, Wire,
};
use std::collections::HashMap;
use vstd::prelude::*;
use vstd::slice::slice_subrange;
use vstd::std_specs::iter::IteratorSpec;

verus! {

broadcast use vstd::std_specs::hash::group_hash_axioms;

/// A share: its lower-case name and the host directory backing it.
pub struct ShareState {
    name: String,
    root: String,
}

/// An open file or directory handle.
pub struct OpenHandle {
    tree_id: u32,
    rel_path: String,
    info: FileInfo,
    /// Cached directory enumeration and cursor, for QUERY_DIRECTORY.
    dir_entries: Option<Vec<DirEntry>>,
    dir_cursor: usize,
}

impl View for OpenHandle {
    type V = HandleState;

    closed spec fn view(&self) -> HandleState {
        HandleState {
            tree_id: self.tree_id,
            rel_path: self.rel_path@,
            info: self.info,
            listing: match self.dir_entries {
                Some(entries) => Some(entry_views(entries@)),
                None => None,
            },
            cursor: self.dir_cursor as int,
        }
    }
}

/// The shares of a list, later ones in place of earlier ones of the same name.
spec fn share_map(shares: Seq<ShareState>) -> Map<Seq<char>, Seq<char>>
    decreases shares.len(),
{
    if shares.len() == 0 {
        Map::empty()
    } else {
        share_map(shares.drop_last()).insert(shares.last().name@, shares.last().root@)
    }
}

spec fn tree_map(trees: Map<u32, String>) -> Map<u32, Seq<char>> {
    Map::new(|id: u32| trees.contains_key(id), |id: u32| trees[id]@)
}

spec fn file_map(files: Map<u64, OpenHandle>) -> Map<u64, HandleState> {
    Map::new(|id: u64| files.contains_key(id), |id: u64| files[id]@)
}

/// The read-only SMB2 server state for a single vSMB connection.
pub struct Tables {
    shares: Vec<ShareState>,
    negotiated: bool,
    next_session_id: u64,
    next_tree_id: u32,
    next_file_id: u64,
    sessions: HashMap<u64, ()>,
    trees: HashMap<u32, String>,
    open_files: HashMap<u64, OpenHandle>,
}

impl View for Tables {
    type V = ServerState;

    closed spec fn view(&self) -> ServerState {
        ServerState {
            shares: share_map(self.shares@),
            negotiated: self.negotiated,
            next_session_id: self.next_session_id,
            next_tree_id: self.next_tree_id,
            next_file_id: self.next_file_id,
            sessions: self.sessions@.dom(),
            trees: tree_map(self.trees@),
            open_files: file_map(self.open_files@),
        }
    }
}

/// The value of a command's reply.
pub open spec fn reply_view(reply: Result<Vec<u8>, u32>) -> Result<Seq<u8>, u32> {
    match reply {
        Ok(bytes) => Ok(bytes@),
        Err(e) => Err(e),
    }
}

/// How far a command got without the host.
pub enum Begun {
    /// It is answered.
    Done(Result<Vec<u8>, u32>),
    /// It needs the host's reply to a request.
    Ask(FsRequest),
}

/// What a command has come to, given the tables after it.
pub open spec fn step_view(state: ServerState, begun: Begun) -> Step {
    match begun {
        Begun::Done(reply) => Step::Done(Outcome { state, reply: reply_view(reply) }),
        Begun::Ask(request) => Step::Ask(request@),
    }
}

/// Assembles a full SMB2 response: header + fixed body + trailing buffer.
fn assemble(request: &Header, nt_status: u32, body: &[u8], trailer: &[u8]) -> (r: Vec<u8>)
    ensures
        r@ == assembled(*request, nt_status, body@, trailer@),
{
    let header = Header::response_for(request, nt_status);
    let mut out = header.as_bytes();
    put_bytes(&mut out, body);
    put_bytes(&mut out, trailer);
    out
}

/// Assembles a response without a trailing buffer.
fn assemble_fixed(request: &Header, nt_status: u32, body: &[u8]) -> (r: Vec<u8>)
    ensures
        r@ == assembled(*request, nt_status, body@, Seq::empty()),
{
    let none: Vec<u8> = Vec::new();
    assert(none@ =~= Seq::<u8>::empty());
    assemble(request, nt_status, body, none.as_slice())
}

/// Builds a QUERY_INFO/QUERY_DIRECTORY-style response carrying an output
/// buffer after the 8-byte fixed part.
fn output_buffer(request: &Header, out: &Vec<u8>) -> (r: Vec<u8>)
    ensures
        r@ == output_buffer_response(*request, out@),
{
    let fixed = OutputBufferResponse {
        structure_size: 9,
        output_buffer_offset: 72,
        output_buffer_length: len_u32(out.len()),
    };
    assemble(request, status::SUCCESS, fixed.as_bytes().as_slice(), out.as_slice())
}

/// Builds a response with a 2-field body: `[structure_size, reserved]`.
fn simple_status_response(request: &Header) -> (r: Vec<u8>)
    ensures
        r@ == simple_response(*request),
{
    let mut body: Vec<u8> = Vec::new();
    put_u16(&mut body, 4);
    assert(body@ =~= le16(4));
    put_u16(&mut body, 0);
    assemble_fixed(request, status::SUCCESS, body.as_slice())
}

/// Builds an SMB2 error response (MS-SMB2 2.2.2).
fn make_error_response(request: &Header, nt_status: u32) -> (r: Vec<u8>)
    ensures
        r@ == error_response(*request, nt_status),
{
    let mut body: Vec<u8> = Vec::new();
    put_u16(&mut body, 9);
    put_bytes(&mut body, [0, 0, 0, 0, 0, 0, 0].as_slice());
    assert([0u8, 0, 0, 0, 0, 0, 0]@ =~= zeros(7));
    assert(body@ =~= error_body());
    assemble_fixed(request, nt_status, body.as_slice())
}

/// Turns a command's reply into its response, converting a refusal into an
/// SMB2 error response.
pub fn respond(request: &Header, reply: Result<Vec<u8>, u32>) -> (r: Vec<u8>)
    ensures
        forall|state: ServerState|
            #![auto]
            r@ == response(*request, Outcome { state, reply: reply_view(reply) }),
{
    match reply {
        Ok(bytes) => bytes,
        Err(nt_status) => make_error_response(request, nt_status),
    }
}

/// Reads a UTF-16 string from an SMB2 message buffer, where `offset` is
/// relative to the start of the SMB2 header.
fn read_buffer_utf16(body: &[u8], offset: u16, length: u16) -> (r: Option<String>)
    ensures
        match r {
            Some(s) => text_in(body@, offset, length) == Some(s@),
            None => text_in(body@, offset, length) is None,
        },
{
    let offset: usize = offset as usize;
    let length: usize = length as usize;
    if offset < smb2::HEADER_SIZE {
        return None;
    }
    let start: usize = offset - smb2::HEADER_SIZE;
    if start + length > body.len() {
        return None;
    }
    utf16_to_string(slice_subrange(body, start, start + length))
}

/// Extracts the server's u64 file id from a 16-byte SMB2 FileId.
fn file_id_u64(file_id: &[u8; 16]) -> (r: u64)
    ensures
        r == own_id(*file_id),
{
    get_u64(file_id.as_slice(), 0)
}

/// The SMB2 FileId of a file id.
fn file_id_bytes(file_id: u64) -> (r: [u8; 16])
    ensures
        r == wire_id(file_id),
        r@ == le64(file_id) + zeros(8),
{
    let mut bytes: Vec<u8> = Vec::new();
    put_u64(&mut bytes, file_id);
    put_bytes(&mut bytes, [0, 0, 0, 0, 0, 0, 0, 0].as_slice());
    proof {
        lemma_le64(file_id);
        assert([0u8, 0, 0, 0, 0, 0, 0, 0]@ =~= zeros(8));
        assert(bytes@ =~= le64(file_id) + zeros(8));
    }
    let r = crate::wire::get_array16(bytes.as_slice(), 0);
    proof {
        assert(bytes@.subrange(0, 16) =~= bytes@);
        lemma_array16(r, wire_id(file_id));
    }
    r
}

proof fn lemma_share_map(shares: Seq<ShareState>, name: Seq<char>, k: int)
    requires
        0 <= k <= shares.len(),
        forall|i: int| k <= i < shares.len() ==> (#[trigger] shares[i]).name@ != name,
        k == 0 || shares[k - 1].name@ == name,
    ensures
        k == 0 ==> !share_map(shares).contains_key(name),
        k > 0 ==> share_map(shares).contains_key(name) && share_map(shares)[name]
            == shares[k - 1].root@,
    decreases shares.len(),
{
    if shares.len() > 0 && k < shares.len() {
        assert(shares.last().name@ != name);
        lemma_share_map(shares.drop_last(), name, k);
    }
}

impl Tables {
    /// Tables without shares, sessions, trees or handles.
    pub fn new() -> (r: Tables)
        ensures
            r@ == ServerState::initial(Map::empty()),
    {
        let r = Tables {
            shares: Vec::new(),
            negotiated: false,
            next_session_id: 1,
            next_tree_id: 1,
            next_file_id: 1,
            sessions: HashMap::new(),
            trees: HashMap::new(),
            open_files: HashMap::new(),
        };
        assert(r@ =~= ServerState::initial(Map::empty()));
        r
    }

    /// Adds a share, in place of any earlier one of the same name.
    pub fn add_share(&mut self, name: &str, root: &str)
        ensures
            final(self)@ == (ServerState {
                shares: old(self)@.shares.insert(lowercase(name@), root@),
                ..old(self)@
            }),
    {
        let ghost before = self.shares@;
        let share = ShareState { name: name.to_ascii_lowercase(), root: root.to_owned() };
        self.shares.push(share);
        assert(self.shares@.drop_last() =~= before);
    }

    /// Whether there is a share of the given (lower-case) name.
    pub fn has_share(&self, name: &String) -> (r: bool)
        ensures
            r == self@.shares.contains_key(name@),
    {
        self.find_share(name).is_some()
    }

    /// Whether at least `n` ids of each kind are left.
    pub fn ids_left(&self, n: usize) -> (r: bool)
        ensures
            r == ids_left(self@, n as int),
    {
        let n: u64 = n as u64;
        n <= u64::MAX - self.next_session_id && n <= u64::MAX - self.next_file_id && n <= (u32::MAX
            - self.next_tree_id) as u64
    }

    fn find_share(&self, name: &String) -> (r: Option<&String>)
        ensures
            match r {
                Some(root) => share_root(self@, name@) == Ok::<Seq<char>, u32>(root@),
                None => share_root(self@, name@) == Err::<Seq<char>, u32>(
                    status::BAD_NETWORK_NAME,
                ) && !self@.shares.contains_key(name@),
            },
    {
        let mut k: usize = self.shares.len();
        while k > 0
            invariant
                k <= self.shares@.len(),
                forall|i: int|
                    k <= i < self.shares@.len() ==> (#[trigger] self.shares@[i]).name@ != name@,
            decreases k,
        {
            if self.shares[k - 1].name == *name {
                proof {
                    lemma_share_map(self.shares@, name@, k as int);
                }
                return Some(&self.shares[k - 1].root);
            }
            k = k - 1;
        }
        proof {
            lemma_share_map(self.shares@, name@, 0);
        }
        None
    }

    fn tree_root(&self, tree_id: u32) -> (r: Result<&String, u32>)
        ensures
            match r {
                Ok(root) => tree_share(self@, tree_id) is Ok && share_root(
                    self@,
                    tree_share(self@, tree_id)->Ok_0,
                ) == Ok::<Seq<char>, u32>(root@),
                Err(e) => match tree_share(self@, tree_id) {
                    Err(f) => f == e,
                    Ok(share) => share_root(self@, share) == Err::<Seq<char>, u32>(e),
                },
            },
    {
        match self.trees.get(&tree_id) {
            None => Err(status::INVALID_PARAMETER),
            Some(share) => match self.find_share(share) {
                None => Err(status::BAD_NETWORK_NAME),
                Some(root) => Ok(root),
            },
        }
    }

    fn request_for(&self, handle: &OpenHandle, op: FsOp) -> (r: Result<FsRequest, u32>)
        ensures
            match r {
                Ok(request) => ask_about(self@, handle@, op) == Ok::<_, u32>(request@),
                Err(e) => ask_about(self@, handle@, op) == Err::<crate::host::Question, u32>(e),
            },
    {
        match self.tree_root(handle.tree_id) {
            Err(e) => Err(e),
            Ok(root) => Ok(FsRequest { root: root.clone(), rel: handle.rel_path.clone(), op }),
        }
    }

    fn negotiate(&mut self, header: &Header, body: &[u8]) -> (r: Result<Vec<u8>, u32>)
        ensures
            negotiate(old(self)@, *header, body@) == (Outcome {
                state: final(self)@,
                reply: reply_view(r),
            }),
    {
        let req = match NegotiateRequest::read_from_prefix(body) {
            Some((req, _)) => req,
            None => return Err(status::INVALID_PARAMETER),
        };
        proof {
            lemma_record_at(req, body@);
        }
        let count: usize = req.dialect_count as usize;
        if body.len() < 36 + 2 * count {
            return Err(status::INVALID_PARAMETER);
        }
        let ghost offered = units_of(body@.subrange(36, 36 + 2 * count));
        let dialects = slice_subrange(body, 36, 36 + 2 * count);
        // Prefer 2.0.2 to keep the server minimal (no signing/encryption/
        // leasing negotiation required).
        let chosen: u16 = if offers(dialects, smb2::DIALECT_2_0_2) {
            smb2::DIALECT_2_0_2
        } else if offers(dialects, smb2::DIALECT_2_1_0) {
            smb2::DIALECT_2_1_0
        } else if offers(dialects, smb2::DIALECT_WILDCARD) {
            // The wildcard is answered with a concrete dialect.
            smb2::DIALECT_2_0_2
        } else {
            return Err(status::NOT_SUPPORTED);
        };
        self.negotiated = true;
        let resp = NegotiateResponse {
            structure_size: 65,
            security_mode: 0,
            dialect_revision: chosen,
            negotiate_context_count: 0,
            server_guid: SERVER_GUID,
            capabilities: 0,
            // NOTE: capping these does NOT keep the redirector on the inline
            // path: bulk reads still switch to GPA-direct (DirectMap), which
            // is not yet serviced, so only small/bounded transfers work today.
            max_transact_size: 0x10_0000,
            max_read_size: 0x10_0000,
            max_write_size: 0x10_0000,
            system_time: 0,
            server_start_time: 0,
            // No security buffer (guest auth): point just past the fixed part.
            security_buffer_offset: 128,
            security_buffer_length: 0,
            negotiate_context_offset: 0,
        };
        Ok(assemble_fixed(header, status::SUCCESS, resp.as_bytes().as_slice()))
    }

    fn session_setup(&mut self, header: &Header, body: &[u8]) -> (r: Result<Vec<u8>, u32>)
        requires
            body@.len() >= 24 && header.session_id == 0 ==> old(self)@.next_session_id < u64::MAX,
        ensures
            session_setup(old(self)@, *header, body@) == (Outcome {
                state: final(self)@,
                reply: reply_view(r),
            }),
    {
        if SessionSetupRequest::read_from_prefix(body).is_none() {
            return Err(status::INVALID_PARAMETER);
        }
        // Guest-auth fast path: accept an (unauthenticated) guest session
        // regardless of the security buffer contents.
        let session_id: u64 = if header.session_id != 0 {
            header.session_id
        } else {
            let id: u64 = self.next_session_id;
            self.next_session_id = self.next_session_id + 1;
            id
        };
        self.sessions.insert(session_id, ());
        assert(self@.sessions =~= old(self)@.sessions.insert(session_id));
        let resp = SessionSetupResponse {
            structure_size: 9,
            session_flags: smb2::SESSION_FLAG_IS_GUEST,
            security_buffer_offset: 72,
            security_buffer_length: 0,
        };
        // The session id may be freshly minted, so it isn't necessarily
        // present on the request header.
        let routed = Header { session_id, ..*header };
        Ok(assemble_fixed(&routed, status::SUCCESS, resp.as_bytes().as_slice()))
    }

    fn tree_connect(&mut self, header: &Header, body: &[u8]) -> (r: Result<Vec<u8>, u32>)
        requires
            tree_connect(old(self)@, *header, body@).reply is Ok ==> old(self)@.next_tree_id
                < u32::MAX,
        ensures
            tree_connect(old(self)@, *header, body@) == (Outcome {
                state: final(self)@,
                reply: reply_view(r),
            }),
    {
        let req = match TreeConnectRequest::read_from_prefix(body) {
            Some((req, _)) => req,
            None => return Err(status::INVALID_PARAMETER),
        };
        proof {
            lemma_record_at(req, body@);
        }
        let path = match read_buffer_utf16(body, req.path_offset, req.path_length) {
            Some(path) => path,
            None => return Err(status::INVALID_PARAMETER),
        };
        // Path is a UNC of the form \\server\share; take the last component.
        let share_name = last_component(path.as_str()).as_str().to_ascii_lowercase();
        if !self.has_share(&share_name) {
            return Err(status::BAD_NETWORK_NAME);
        }
        let tree_id: u32 = self.next_tree_id;
        self.next_tree_id = self.next_tree_id + 1;
        self.trees.insert(tree_id, share_name);
        assert(self@.trees =~= old(self)@.trees.insert(tree_id, share_name@));
        let resp = TreeConnectResponse {
            structure_size: 16,
            share_type: smb2::SHARE_TYPE_DISK,
            reserved: 0,
            share_flags: 0,
            capabilities: 0,
            // Read/execute/list access; read-only server.
            maximal_access: READ_ONLY_ACCESS,
        };
        let routed = Header { tree_id, ..*header };
        Ok(assemble_fixed(&routed, status::SUCCESS, resp.as_bytes().as_slice()))
    }

    /// The ids of the handles on a tree.
    fn handles_on(&self, tree_id: u32) -> (r: Vec<u64>)
        ensures
            forall|id: u64|
                #![trigger r@.contains(id)]
                #![trigger self@.open_files.contains_key(id)]
                r@.contains(id) <==> self@.open_files.contains_key(id)
                    && self@.open_files[id].tree_id == tree_id,
    {
        let mut ids: Vec<u64> = Vec::new();
        proof {
            let all = IteratorSpec::remaining(&self.open_files.keys());
            assert forall|k: u64| #[trigger]
                self.open_files@.contains_key(k) <==> exists|j: int|
                    0 <= j < all.len() && *#[trigger] all[j] == k by {
                assert(all.unref().to_set() == self.open_files@.dom());
                assert(all.unref().to_set().contains(k) <==> self.open_files@.contains_key(k));
                if all.unref().to_set().contains(k) {
                    let j = choose|j: int| 0 <= j < all.unref().len() && all.unref()[j] == k;
                    assert(*all[j] == k);
                }
                if exists|j: int| 0 <= j < all.len() && *#[trigger] all[j] == k {
                    let j = choose|j: int| 0 <= j < all.len() && *#[trigger] all[j] == k;
                    assert(all.unref()[j] == k);
                }
            }
        }
        for id in it: self.open_files.keys()
            invariant
                it.seq().unref().to_set() == self.open_files@.dom(),
                forall|k: u64| #[trigger]
                    self.open_files@.contains_key(k) <==> exists|j: int|
                        0 <= j < it.seq().len() && *#[trigger] it.seq()[j] == k,
                forall|k: u64|
                    #![trigger ids@.contains(k)]
                    ids@.contains(k) <==> (exists|j: int|
                        0 <= j < it.index() && *#[trigger] it.seq()[j] == k)
                        && self.open_files@[k].tree_id == tree_id,
        {
            let ghost before = ids@;
            proof {
                let all = it.seq().unref();
                assert(all[it.index() as int] == *id);
                assert(all.to_set().contains(*id));
            }
            if let Some(handle) = self.open_files.get(id) {
                if handle.tree_id == tree_id {
                    ids.push(*id);
                    assert forall|k: u64| ids@.contains(k) <==> before.contains(k) || k == *id by {
                        if before.contains(k) {
                            let j = choose|j: int| 0 <= j < before.len() && before[j] == k;
                            assert(ids@[j] == k);
                        }
                        if k == *id {
                            assert(ids@[before.len() as int] == k);
                        }
                    }
                }
            }
            proof {
                assert forall|k: u64|
                    #![trigger ids@.contains(k)]
                    ids@.contains(k) <==> (exists|j: int|
                        0 <= j < it.index() + 1 && *#[trigger] it.seq()[j] == k)
                        && self.open_files@[k].tree_id == tree_id by {
                    assert(*it.seq()[it.index() as int] == *id);
                    if before.contains(k) {
                        let j = choose|j: int|
                            0 <= j < it.index() && *#[trigger] it.seq()[j] == k;
                        assert(*it.seq()[j] == k);
                    }
                    if exists|j: int| 0 <= j < it.index() + 1 && *#[trigger] it.seq()[j] == k {
                        let j = choose|j: int|
                            0 <= j < it.index() + 1 && *#[trigger] it.seq()[j] == k;
                        if j < it.index() {
                            assert(*it.seq()[j] == k);
                        }
                    }
                }
            }
        }
        proof {
            assert forall|id: u64|
                #![trigger ids@.contains(id)]
                #![trigger self@.open_files.contains_key(id)]
                ids@.contains(id) <==> self@.open_files.contains_key(id)
                    && self@.open_files[id].tree_id == tree_id by {
                assert(self.open_files@.contains_key(id) == self@.open_files.contains_key(id));
                if self.open_files@.contains_key(id) {
                    assert(self.open_files@[id]@ == self@.open_files[id]);
                }
            }
        }
        ids
    }

    fn tree_disconnect(&mut self, header: &Header) -> (r: Result<Vec<u8>, u32>)
        ensures
            tree_disconnect(old(self)@, *header) == (Outcome {
                state: final(self)@,
                reply: reply_view(r),
            }),
    {
        let tree_id: u32 = header.tree_id;
        let ids = self.handles_on(tree_id);
        self.trees.remove(&tree_id);
        assert(self@.trees =~= old(self)@.trees.remove(tree_id));
        let ghost files = self.open_files@;
        let mut i: usize = 0;
        while i < ids.len()
            invariant
                i <= ids@.len(),
                self@ == (ServerState {
                    trees: old(self)@.trees.remove(tree_id),
                    open_files: file_map(self.open_files@),
                    ..old(self)@
                }),
                forall|id: u64| #[trigger]
                    self.open_files@.contains_key(id) <==> files.contains_key(id) && !(exists|k: int|
                        0 <= k < i && #[trigger] ids@[k] == id),
                forall|id: u64| #[trigger]
                    self.open_files@.contains_key(id) ==> self.open_files@[id] == files[id],
            decreases ids@.len() - i,
        {
            let ghost before = self.open_files@;
            self.open_files.remove(&ids[i]);
            assert(self.open_files@ == before.remove(ids@[i as int]));
            assert forall|id: u64| #[trigger]
                self.open_files@.contains_key(id) <==> files.contains_key(id) && !(exists|k: int|
                    0 <= k < i + 1 && #[trigger] ids@[k] == id) by {
                assert(self.open_files@.contains_key(id) <==> before.contains_key(id) && id
                    != ids@[i as int]);
            }
            i = i + 1;
        }
        assert(file_map(self.open_files@) =~= without_tree(old(self)@.open_files, tree_id)) by {
            assert forall|id: u64|
                file_map(self.open_files@).contains_key(id) <==> without_tree(
                    old(self)@.open_files,
                    tree_id,
                ).contains_key(id) by {
                assert(ids@.contains(id) <==> exists|k: int|
                    0 <= k < ids@.len() && #[trigger] ids@[k] == id);
                assert(files.contains_key(id) == old(self)@.open_files.contains_key(id));
                assert(self.open_files@.contains_key(id) <==> files.contains_key(id)
                    && !ids@.contains(id));
            }
            assert forall|id: u64| self.open_files@.contains_key(id) implies file_map(
                self.open_files@,
            )[id] == old(self)@.open_files[id] by {
                assert(self.open_files@[id] == files[id]);
            }
        }
        Ok(simple_status_response(header))
    }

    fn create(&self, header: &Header, body: &[u8]) -> (r: Begun)
        ensures
            step_view(self@, r) == asking(self@, create_question(self@, *header, body@)),
    {
        let root = match self.tree_root(header.tree_id) {
            Ok(root) => root,
            Err(e) => return Begun::Done(Err(e)),
        };
        let req = match CreateRequest::read_from_prefix(body) {
            Some((req, _)) => req,
            None => return Begun::Done(Err(status::INVALID_PARAMETER)),
        };
        proof {
            lemma_record_at(req, body@);
        }
        // Only reads are supported; reject anything but FILE_OPEN.
        if req.create_disposition != smb2::FILE_OPEN {
            return Begun::Done(Err(status::ACCESS_DENIED));
        }
        match read_buffer_utf16(body, req.name_offset, req.name_length) {
            None => Begun::Done(Err(status::INVALID_PARAMETER)),
            Some(name) => Begun::Ask(FsRequest { root: root.clone(), rel: name, op: FsOp::Stat }),
        }
    }

    fn create_with(&mut self, header: &Header, name: &String, reply: FsReply) -> (r: Result<
        Vec<u8>,
        u32,
    >)
        requires
            reply@ is Stat && reply@->Stat_0 is Ok ==> old(self)@.next_file_id < u64::MAX,
        ensures
            create_answered(old(self)@, *header, name@, reply@) == (Outcome {
                state: final(self)@,
                reply: reply_view(r),
            }),
    {
        let info = match reply {
            FsReply::Stat(Ok(info)) => info,
            FsReply::Stat(Err(kind)) => return Err(map_io_error(kind)),
            _ => return Err(status::INVALID_PARAMETER),
        };
        let file_id: u64 = self.next_file_id;
        self.next_file_id = self.next_file_id + 1;
        let handle = OpenHandle {
            tree_id: header.tree_id,
            rel_path: name.clone(),
            info,
            dir_entries: None,
            dir_cursor: 0,
        };
        self.open_files.insert(file_id, handle);
        assert(self@.open_files =~= old(self)@.open_files.insert(file_id, handle@));
        let resp = CreateResponse {
            structure_size: 89,
            oplock_level: 0,
            flags: 0,
            create_action: smb2::CREATE_ACTION_OPENED,
            creation_time: info.creation_time,
            last_access_time: info.last_access_time,
            last_write_time: info.last_write_time,
            change_time: info.change_time,
            allocation_size: info.allocation_size,
            end_of_file: info.size,
            file_attributes: info.attributes,
            reserved2: 0,
            file_id: file_id_bytes(file_id),
            create_contexts_offset: 0,
            create_contexts_length: 0,
        };
        Ok(assemble_fixed(header, status::SUCCESS, resp.as_bytes().as_slice()))
    }

    fn read(&self, body: &[u8]) -> (r: Begun)
        ensures
            step_view(self@, r) == asking(self@, read_question(self@, body@)),
    {
        let req = match ReadRequest::read_from_prefix(body) {
            Some((req, _)) => req,
            None => return Begun::Done(Err(status::INVALID_PARAMETER)),
        };
        proof {
            lemma_record_at(req, body@);
        }
        let handle = match self.open_files.get(&file_id_u64(&req.file_id)) {
            Some(handle) => handle,
            None => return Begun::Done(Err(status::INVALID_PARAMETER)),
        };
        if handle.info.is_dir {
            return Begun::Done(Err(status::INVALID_DEVICE_REQUEST));
        }
        match self.request_for(handle, FsOp::Read { offset: req.offset, len: req.length }) {
            Ok(request) => Begun::Ask(request),
            Err(e) => Begun::Done(Err(e)),
        }
    }

    fn ioctl(&self, body: &[u8]) -> (r: Begun)
        ensures
            step_view(self@, r) == asking(self@, ioctl_question(self@, body@)),
    {
        let req = match IoctlRequest::read_from_prefix(body) {
            Some((req, _)) => req,
            None => return Begun::Done(Err(status::INVALID_PARAMETER)),
        };
        proof {
            lemma_record_at(req, body@);
        }
        if req.ctl_code != smb2::FSCTL_GET_REPARSE_POINT {
            return Begun::Done(Err(status::NOT_SUPPORTED));
        }
        let handle = match self.open_files.get(&file_id_u64(&req.file_id)) {
            Some(handle) => handle,
            None => return Begun::Done(Err(status::INVALID_PARAMETER)),
        };
        if !self.trees.contains_key(&handle.tree_id) {
            return Begun::Done(Err(status::INVALID_PARAMETER));
        }
        if !has_reparse_tag(handle.info.attributes) {
            return Begun::Done(Err(status::NOT_A_REPARSE_POINT));
        }
        match self.request_for(handle, FsOp::ReadReparse) {
            Ok(request) => Begun::Ask(request),
            Err(e) => Begun::Done(Err(e)),
        }
    }

    fn query_info(&self, header: &Header, body: &[u8]) -> (r: Begun)
        ensures
            step_view(self@, r) == query_info(self@, *header, body@),
    {
        let req = match QueryInfoRequest::read_from_prefix(body) {
            Some((req, _)) => req,
            None => return Begun::Done(Err(status::INVALID_PARAMETER)),
        };
        proof {
            lemma_record_at(req, body@);
        }
        if req.info_type != smb2::INFO_TYPE_SECURITY && req.info_type != smb2::INFO_TYPE_FILE {
            return Begun::Done(Err(status::NOT_SUPPORTED));
        }
        let handle = match self.open_files.get(&file_id_u64(&req.file_id)) {
            Some(handle) => handle,
            None => return Begun::Done(Err(status::INVALID_PARAMETER)),
        };
        if req.info_type == smb2::INFO_TYPE_SECURITY {
            // Security-descriptor query: the file's self-relative SD.
            return match self.request_for(handle, FsOp::ReadSecurity) {
                Ok(request) => Begun::Ask(request),
                Err(e) => Begun::Done(Err(e)),
            };
        }
        if req.file_info_class == file_info_class::STREAM {
            // Stream (ADS) enumeration needs the backing, not just the cached
            // info.
            return match self.request_for(handle, FsOp::ListStreams) {
                Ok(request) => Begun::Ask(request),
                Err(e) => Begun::Done(Err(e)),
            };
        }
        let out = match req.file_info_class {
            file_info_class::BASIC => encode_basic_info(&handle.info),
            file_info_class::STANDARD => encode_standard_info(&handle.info),
            file_info_class::NETWORK_OPEN => encode_network_open_info(&handle.info),
            file_info_class::ATTRIBUTE_TAG => encode_attribute_tag_info(&handle.info),
            _ => return Begun::Done(Err(status::NOT_SUPPORTED)),
        };
        Begun::Done(Ok(output_buffer(header, &out)))
    }

    /// The next page of the listing taken on a handle.
    fn page(&mut self, header: &Header, req: &QueryDirectoryRequest) -> (r: Result<Vec<u8>, u32>)
        requires
            old(self)@.open_files.contains_key(own_id(req.file_id)),
            old(self)@.open_files[own_id(req.file_id)].listing is Some,
        ensures
            next_page(old(self)@, *header, *req) == (Outcome {
                state: final(self)@,
                reply: reply_view(r),
            }),
    {
        let file_id: u64 = file_id_u64(&req.file_id);
        let class: u8 = req.file_information_class;
        let single_entry = req.flags & smb2::RETURN_SINGLE_ENTRY != 0;
        let max_out: usize = req.output_buffer_length as usize;
        let (out, end) = match self.open_files.get(&file_id) {
            None => return Err(status::INVALID_PARAMETER),
            Some(handle) => match &handle.dir_entries {
                None => return Err(status::INVALID_PARAMETER),
                Some(entries) => {
                    if handle.dir_cursor >= entries.len() {
                        return Err(status::NO_MORE_FILES);
                    }
                    if class != file_info_class::DIRECTORY && class
                        != file_info_class::FULL_DIRECTORY && class
                        != file_info_class::BOTH_DIRECTORY && class
                        != file_info_class::ID_BOTH_DIRECTORY {
                        return Err(status::NOT_SUPPORTED);
                    }
                    encode_dir_page(class, entries, handle.dir_cursor, max_out, single_entry)
                },
            },
        };
        if let Some(handle) = self.open_files.remove(&file_id) {
            let ghost before = handle@;
            let moved = OpenHandle { dir_cursor: end, ..handle };
            assert(moved@ == HandleState { cursor: end as int, ..before });
            self.open_files.insert(file_id, moved);
            assert(self@.open_files =~= old(self)@.open_files.insert(file_id, moved@));
        }
        Ok(output_buffer(header, &out))
    }

    fn query_directory(&mut self, header: &Header, body: &[u8]) -> (r: Begun)
        ensures
            step_view(final(self)@, r) == query_directory(old(self)@, *header, body@),
            r is Ask ==> final(self)@ == old(self)@,
    {
        let req = match QueryDirectoryRequest::read_from_prefix(body) {
            Some((req, _)) => req,
            None => return Begun::Done(Err(status::INVALID_PARAMETER)),
        };
        proof {
            lemma_record_at(req, body@);
        }
        let restart = req.flags & smb2::RESTART_SCANS != 0;
        let handle = match self.open_files.get(&file_id_u64(&req.file_id)) {
            Some(handle) => handle,
            None => return Begun::Done(Err(status::INVALID_PARAMETER)),
        };
        if !self.trees.contains_key(&handle.tree_id) {
            return Begun::Done(Err(status::INVALID_PARAMETER));
        }
        if !handle.info.is_dir {
            return Begun::Done(Err(status::INVALID_PARAMETER));
        }
        // Take the enumeration on first use.
        if handle.dir_entries.is_none() || restart {
            return match self.request_for(handle, FsOp::Enumerate) {
                Ok(request) => Begun::Ask(request),
                Err(e) => Begun::Done(Err(e)),
            };
        }
        Begun::Done(self.page(header, &req))
    }

    fn query_directory_with(
        &mut self,
        header: &Header,
        req: &QueryDirectoryRequest,
        reply: FsReply,
    ) -> (r: Result<Vec<u8>, u32>)
        requires
            old(self)@.open_files.contains_key(own_id(req.file_id)),
        ensures
            query_directory_answered(old(self)@, *header, *req, reply@) == (Outcome {
                state: final(self)@,
                reply: reply_view(r),
            }),
    {
        let entries = match reply {
            FsReply::Listing(Ok(entries)) => entries,
            FsReply::Listing(Err(kind)) => return Err(map_io_error(kind)),
            _ => return Err(status::INVALID_PARAMETER),
        };
        let file_id: u64 = file_id_u64(&req.file_id);
        if let Some(handle) = self.open_files.remove(&file_id) {
            let listed = OpenHandle { dir_entries: Some(entries), dir_cursor: 0, ..handle };
            self.open_files.insert(file_id, listed);
            assert(self@.open_files =~= old(self)@.open_files.insert(file_id, listed@));
            assert(self@ == with_listing(old(self)@, file_id, entry_views(entries@)));
        }
        self.page(header, req)
    }

    fn close(&mut self, header: &Header, body: &[u8]) -> (r: Result<Vec<u8>, u32>)
        ensures
            close(old(self)@, *header, body@) == (Outcome {
                state: final(self)@,
                reply: reply_view(r),
            }),
    {
        let req = match CloseRequest::read_from_prefix(body) {
            Some((req, _)) => req,
            None => return Err(status::INVALID_PARAMETER),
        };
        proof {
            lemma_record_at(req, body@);
        }
        let file_id: u64 = file_id_u64(&req.file_id);
        let handle = match self.open_files.remove(&file_id) {
            Some(handle) => handle,
            None => {
                assert(self@.open_files =~= old(self)@.open_files);
                return Err(status::INVALID_PARAMETER);
            },
        };
        assert(self@.open_files =~= old(self)@.open_files.remove(file_id));
        let info = handle.info;
        // SMB2_CLOSE_FLAG_POSTQUERY_ATTRIB: return attributes if requested.
        let post_query = req.flags & 0x0001 != 0;
        let mut resp = CloseResponse {
            structure_size: 60,
            flags: req.flags,
            reserved: 0,
            creation_time: 0,
            last_access_time: 0,
            last_write_time: 0,
            change_time: 0,
            allocation_size: 0,
            end_of_file: 0,
            file_attributes: 0,
        };
        if post_query {
            resp = CloseResponse {
                creation_time: info.creation_time,
                last_access_time: info.last_access_time,
                last_write_time: info.last_write_time,
                change_time: info.change_time,
                allocation_size: info.allocation_size,
                end_of_file: info.size,
                file_attributes: info.attributes,
                ..resp
            };
        }
        assert(resp == close_response(req.flags, info));
        Ok(assemble_fixed(header, status::SUCCESS, resp.as_bytes().as_slice()))
    }

    /// Takes a single (already de-compounded) SMB2 command as far as it gets
    /// without the host.
    pub fn begin(&mut self, header: &Header, body: &[u8]) -> (r: Begun)
        requires
            can_begin(old(self)@, *header, body@),
        ensures
            step_view(final(self)@, r) == begin(old(self)@, *header, body@),
            r is Ask ==> final(self)@ == old(self)@,
    {
        reveal(begin);
        match header.command {
            command::NEGOTIATE => Begun::Done(self.negotiate(header, body)),
            command::SESSION_SETUP => Begun::Done(self.session_setup(header, body)),
            command::TREE_CONNECT => Begun::Done(self.tree_connect(header, body)),
            command::TREE_DISCONNECT => Begun::Done(self.tree_disconnect(header)),
            command::CREATE => self.create(header, body),
            command::READ => self.read(body),
            command::IOCTL => self.ioctl(body),
            command::QUERY_INFO => self.query_info(header, body),
            command::QUERY_DIRECTORY => self.query_directory(header, body),
            command::CLOSE => Begun::Done(self.close(header, body)),
            command::LOGOFF => Begun::Done(Ok(simple_status_response(header))),
            _ => Begun::Done(Err(status::NOT_SUPPORTED)),
        }
    }

    /// Finishes a command that asked for `request`, on the host's reply.
    pub fn finish(&mut self, header: &Header, body: &[u8], request: &FsRequest, reply: FsReply) -> (r:
        Result<Vec<u8>, u32>)
        requires
            begin(old(self)@, *header, body@) == Step::Ask(request@),
            answers(request@.op, reply@),
            can_finish(old(self)@, *header, reply@),
        ensures
            finish(old(self)@, *header, body@, request@, reply@) == (Outcome {
                state: final(self)@,
                reply: reply_view(r),
            }),
    {
        reveal(begin);
        reveal(finish);
        match header.command {
            command::CREATE => self.create_with(header, &request.rel, reply),
            command::READ => {
                let len: u32 = match ReadRequest::read_from_prefix(body) {
                    Some((req, _)) => {
                        proof {
                            lemma_record_at(req, body@);
                        }
                        req.length
                    },
                    None => 0,
                };
                read_with(header, len, reply)
            },
            command::IOCTL => match IoctlRequest::read_from_prefix(body) {
                Some((req, _)) => {
                    proof {
                        lemma_record_at(req, body@);
                    }
                    ioctl_with(header, req.file_id, reply)
                },
                None => Err(status::INVALID_PARAMETER),
            },
            command::QUERY_INFO => match QueryInfoRequest::read_from_prefix(body) {
                Some((req, _)) => {
                    proof {
                        lemma_record_at(req, body@);
                    }
                    query_info_with(header, req.output_buffer_length, reply)
                },
                None => Err(status::INVALID_PARAMETER),
            },
            _ => match QueryDirectoryRequest::read_from_prefix(body) {
                Some((req, _)) => {
                    proof {
                        lemma_record_at(req, body@);
                    }
                    self.query_directory_with(header, &req, reply)
                },
                None => Err(status::INVALID_PARAMETER),
            },
        }
    }
}

/// Whether a dialect is among those offered.
fn offers(dialects: &[u8], dialect: u16) -> (r: bool)
    requires
        dialects@.len() % 2 == 0,
        dialects@.len() <= 0x2_0000,
    ensures
        r == units_of(dialects@).contains(dialect),
{
    let ghost offered = units_of(dialects@);
    let mut i: usize = 0;
    while i < dialects.len()
        invariant
            dialects@.len() <= 0x2_0000,
            dialects@.len() % 2 == 0,
            i <= dialects@.len(),
            i % 2 == 0,
            offered == units_of(dialects@),
            forall|k: int| 0 <= k < i / 2 ==> offered[k] != dialect,
        decreases dialects@.len() - i,
    {
        let unit: u16 = get_u16(dialects, i);
        assert(offered[i as int / 2] == unit);
        if unit == dialect {
            return true;
        }
        i = i + 2;
    }
    false
}

fn read_with(header: &Header, len: u32, reply: FsReply) -> (r: Result<Vec<u8>, u32>)
    ensures
        forall|s: ServerState|
            read_answered(s, *header, len, reply@) == (Outcome { state: s, reply: reply_view(r) }),
{
    let data = match reply {
        FsReply::Data(Ok(data)) => data,
        FsReply::Data(Err(kind)) => return Err(map_io_error(kind)),
        _ => return Err(status::INVALID_PARAMETER),
    };
    if data.len() == 0 && len > 0 {
        return Err(status::END_OF_FILE);
    }
    // The data follows the fixed 16-byte response body, so DataOffset is
    // HEADER_SIZE + 16 from the start of the SMB2 message.
    let resp = ReadResponse {
        structure_size: 17,
        data_offset: 80,
        reserved: 0,
        data_length: len_u32(data.len()),
        data_remaining: 0,
        reserved2: 0,
    };
    Ok(assemble(header, status::SUCCESS, resp.as_bytes().as_slice(), data.as_slice()))
}

fn ioctl_with(header: &Header, file_id: [u8; 16], reply: FsReply) -> (r: Result<Vec<u8>, u32>)
    ensures
        forall|s: ServerState|
            ioctl_answered(s, *header, file_id, reply@) == (Outcome {
                state: s,
                reply: reply_view(r),
            }),
{
    let data = match reply {
        FsReply::Data(Ok(data)) => data,
        FsReply::Data(Err(kind)) => return Err(map_io_error(kind)),
        _ => return Err(status::INVALID_PARAMETER),
    };
    // The output follows the fixed 48-byte IOCTL response body, i.e. at
    // HEADER_SIZE + 48 from the start of the SMB2 message.
    let resp = IoctlResponse {
        structure_size: 49,
        reserved: 0,
        ctl_code: smb2::FSCTL_GET_REPARSE_POINT,
        file_id,
        input_offset: 112,
        input_count: 0,
        output_offset: 112,
        output_count: len_u32(data.len()),
        flags: 0,
        reserved2: 0,
    };
    Ok(assemble(header, status::SUCCESS, resp.as_bytes().as_slice(), data.as_slice()))
}

fn query_info_with(header: &Header, max: u32, reply: FsReply) -> (r: Result<Vec<u8>, u32>)
    requires
        crate::host::sizes_fit(reply@),
    ensures
        forall|s: ServerState|
            query_info_answered(s, *header, max, reply@) == (Outcome {
                state: s,
                reply: reply_view(r),
            }),
{
    match reply {
        FsReply::Security(None) => Err(status::ACCESS_DENIED),
        FsReply::Security(Some(sd)) => if sd.len() as u64 > max as u64 {
            // Client must retry with a larger buffer (MS-SMB2 3.3.5.20.3).
            Err(status::BUFFER_TOO_SMALL)
        } else {
            Ok(output_buffer(header, &sd))
        },
        FsReply::Streams(streams) => {
            assert forall|i: int| 0 <= i < streams@.len() implies crate::encode::stream_fits(
                (#[trigger] streams@[i]).1,
            ) by {
                assert(crate::encode::stream_views(streams@)[i].size == streams@[i].1);
            }
            let out = encode_stream_info(&streams);
            Ok(output_buffer(header, &out))
        },
        _ => Err(status::INVALID_PARAMETER),
    }
}

} // verus!
