//! What each command does, from the bytes of the request to the bytes of the
//! response.
//!
//! Each law speaks of the bytes as they stand on the wire, and of the tables of
//! the server before and after.

use super::laws::lemma_assembled;
use super::model::{
    assembled, begin, cached_info, chosen_dialect, close_response, create_response, error_body,
    error_response, finish, negotiate, negotiate_response, next_page, offered_dialects, own_id,
    query_info, refused, response, wire_id, with_listing, HandleState, Outcome, ServerState, Step,
};
use crate::backing::{EntryState, FileInfo, IoErrorKind};
use crate::encode::laws::{
    law_attribute_tag_info_fields, law_basic_info_fields, law_network_open_info_fields,
    law_page_bounds, law_standard_info_fields,
};
use crate::encode::{dir_page, page_end, stream_info, zeros, StreamState};
use crate::host::{Answer, FsOp, Question};
use crate::smb2::{
    CloseRequest, CreateRequest, CreateResponse, Header, IoctlRequest, IoctlResponse,
    NegotiateRequest, OutputBufferResponse, QueryDirectoryRequest, QueryInfoRequest, ReadRequest,
    ReadResponse, SessionSetupResponse, TreeConnectRequest, TreeConnectResponse,
};
use crate::text::{decode_utf16_le, last_component_of, lowercase, units_of};
use crate::wire::{
    array16_of, law_every_buffer_is_readable, law_write_then_read, le16, le64, lemma_array16_of,
    lemma_le16, lemma_le64, lemma_u16_at, lemma_u64_at, low32, record_at, u16_at, u32_at, u64_at,
    Wire,
};
use vstd::prelude::*;

verus! {

/// Whether `bytes` starts with the header of a response to `h` with the given
/// status, tree and session: the request's command, message id and credit
/// charge, one credit granted, the flag of a server's message alone, no next
/// command, and no signature.
pub open spec fn is_headed(
    bytes: Seq<u8>,
    h: Header,
    nt_status: u32,
    tree_id: u32,
    session_id: u64,
) -> bool {
    &&& bytes.len() >= 64
    &&& bytes[0] == 0xFE && bytes[1] == 0x53 && bytes[2] == 0x4D && bytes[3] == 0x42
    &&& u16_at(bytes, 4) == 64
    &&& u16_at(bytes, 6) == h.credit_charge
    &&& u32_at(bytes, 8) == nt_status
    &&& u16_at(bytes, 12) == h.command
    &&& u16_at(bytes, 14) == 1
    &&& u32_at(bytes, 16) == 1
    &&& u32_at(bytes, 20) == 0
    &&& u64_at(bytes, 24) == h.message_id
    &&& u32_at(bytes, 32) == 0
    &&& u32_at(bytes, 36) == tree_id
    &&& u64_at(bytes, 40) == session_id
    &&& forall|k: int| 48 <= k < 64 ==> bytes[k] == 0
}

/// Whether a command with header `h` is refused with a status: nothing changes,
/// and the response is an error response, 73 bytes, that carries the status.
pub open spec fn is_refusal(o: Outcome, s: ServerState, h: Header, nt_status: u32) -> bool {
    let bytes = response(h, o);
    &&& o.state == s
    &&& bytes.len() == 73
    &&& is_headed(bytes, h, nt_status, h.tree_id, h.session_id)
    &&& bytes[64] == 9
    &&& forall|k: int| 65 <= k < 73 ==> bytes[k] == 0
}

/// Whether a command is refused at once.
pub open spec fn refuses(step: Step, s: ServerState, h: Header, nt_status: u32) -> bool {
    step matches Step::Done(o) && is_refusal(o, s, h, nt_status)
}

/// Whether a command succeeds with a response of `len` bytes on its own tree and
/// session.
pub open spec fn is_success(o: Outcome, h: Header, len: int) -> bool {
    let bytes = response(h, o);
    &&& bytes.len() == len
    &&& is_headed(bytes, h, 0, h.tree_id, h.session_id)
}

proof fn lemma_headed(h: Header, nt_status: u32, body: Seq<u8>, trailer: Seq<u8>)
    ensures
        is_headed(assembled(h, nt_status, body, trailer), h, nt_status, h.tree_id, h.session_id),
        assembled(h, nt_status, body, trailer).len() == 64 + body.len() + trailer.len(),
        assembled(h, nt_status, body, trailer).skip(64) == body + trailer,
{
    let bytes = assembled(h, nt_status, body, trailer);
    let r = Header::responding(h, nt_status);
    lemma_assembled(h, nt_status, body, trailer);
    assert(bytes.subrange(0, 4) == r.protocol_id@);
    assert(bytes.subrange(48, 64) == r.signature@);
    assert(bytes[0] == bytes.subrange(0, 4)[0]);
    assert(bytes[1] == bytes.subrange(0, 4)[1]);
    assert(bytes[2] == bytes.subrange(0, 4)[2]);
    assert(bytes[3] == bytes.subrange(0, 4)[3]);
    assert forall|k: int| 48 <= k < 64 implies bytes[k] == 0 by {
        assert(bytes[k] == bytes.subrange(48, 64)[k - 48]);
    }
}

proof fn lemma_refused(s: ServerState, h: Header, nt_status: u32)
    ensures
        is_refusal(refused(s, nt_status), s, h, nt_status),
{
    let bytes = error_response(h, nt_status);
    lemma_headed(h, nt_status, error_body(), Seq::empty());
    lemma_le16(9);
    reveal(le16);
    assert(error_body().len() == 9);
    assert forall|k: int| 64 <= k < 73 implies bytes[k] == #[trigger] error_body()[k - 64] by {
        assert(bytes[k] == bytes.skip(64)[k - 64]);
    }
    assert(bytes[64] == error_body()[64 - 64]);
    assert forall|k: int| 65 <= k < 73 implies bytes[k] == 0 by {
        assert(bytes[k] == error_body()[k - 64]);
    }
}

proof fn lemma_replied<T: Wire>(h: Header, rec: T, trailer: Seq<u8>)
    ensures
        ({
            let bytes = assembled(h, 0, rec.wire_bytes(), trailer);
            &&& is_headed(bytes, h, 0, h.tree_id, h.session_id)
            &&& bytes.len() == 64 + T::wire_len() + trailer.len()
            &&& rec.is_at(bytes.skip(64))
            &&& bytes.skip((64 + T::wire_len()) as int) == trailer
        }),
{
    let bytes = assembled(h, 0, rec.wire_bytes(), trailer);
    lemma_headed(h, 0, rec.wire_bytes(), trailer);
    law_write_then_read(rec, rec, trailer);
    rec.lemma_layout(Seq::new(T::wire_len(), |i: int| 0u8));
    assert(bytes.skip((64 + T::wire_len()) as int) =~= trailer);
}

/// The dialect that a NEGOTIATE request offers in place `i`.
pub open spec fn dialect_at(body: Seq<u8>, i: int) -> u16 {
    u16_at(body, 36 + 2 * i)
}

/// Whether a NEGOTIATE request offers a dialect.
pub open spec fn offers(body: Seq<u8>, dialect: u16) -> bool {
    exists|i: int| 0 <= i < u16_at(body, 2) && #[trigger] dialect_at(body, i) == dialect
}

proof fn lemma_offers(body: Seq<u8>, dialect: u16)
    requires
        body.len() >= 36 + 2 * u16_at(body, 2),
    ensures
        offers(body, dialect) <==> units_of(
            body.subrange(36, 36 + 2 * u16_at(body, 2)),
        ).contains(dialect),
{
    let list = body.subrange(36, 36 + 2 * u16_at(body, 2));
    let units = units_of(list);
    assert forall|i: int| 0 <= i < u16_at(body, 2) implies #[trigger] units[i] == dialect_at(
        body,
        i,
    ) by {
        reveal(u16_at);
    }
    if offers(body, dialect) {
        let i = choose|i: int|
            0 <= i < u16_at(body, 2) && #[trigger] dialect_at(body, i) == dialect;
        assert(units[i] == dialect);
    }
    if units.contains(dialect) {
        let i = choose|i: int| 0 <= i < units.len() && units[i] == dialect;
        assert(dialect_at(body, i) == dialect);
    }
}

/// Whether `r` is the body of a NEGOTIATE response with a dialect: no signing, no
/// capabilities, no contexts, no security buffer, and transfers of 1 MiB.
#[verifier::opaque]
pub open spec fn is_negotiated(r: Seq<u8>, dialect: u16) -> bool {
    &&& u16_at(r, 0) == 65
    &&& u16_at(r, 2) == 0
    &&& u16_at(r, 4) == dialect
    &&& u16_at(r, 6) == 0
    &&& r.subrange(8, 24) == seq![
        0x6Fu8, 0x70, 0x65, 0x6E, 0x76, 0x6D, 0x6D, 0x2D, 0x76, 0x73, 0x6D, 0x62, 0, 0, 0, 0,
    ]
    &&& u32_at(r, 24) == 0
    &&& u32_at(r, 28) == 0x10_0000
    &&& u32_at(r, 32) == 0x10_0000
    &&& u32_at(r, 36) == 0x10_0000
    &&& u64_at(r, 40) == 0
    &&& u64_at(r, 48) == 0
    &&& u16_at(r, 56) == 128
    &&& u16_at(r, 58) == 0
    &&& u32_at(r, 60) == 0
}

proof fn lemma_negotiated(h: Header, dialect: u16)
    ensures
        ({
            let bytes = assembled(h, 0, negotiate_response(dialect).wire_bytes(), Seq::empty());
            &&& is_headed(bytes, h, 0, h.tree_id, h.session_id)
            &&& bytes.len() == 128
            &&& is_negotiated(bytes.skip(64), dialect)
        }),
{
    reveal(is_negotiated);
    lemma_replied(h, negotiate_response(dialect), Seq::empty());
    assert(super::model::SERVER_GUID@ =~= seq![
        0x6Fu8, 0x70, 0x65, 0x6E, 0x76, 0x6D, 0x6D, 0x2D, 0x76, 0x73, 0x6D, 0x62, 0, 0, 0, 0,
    ]);
}

/// NEGOTIATE settles on 2.0.2 wherever that is offered, else on 2.1 where that is,
/// else on 2.0.2 where the wildcard is, and is not supported otherwise.
pub proof fn law_negotiate_command(s: ServerState, h: Header, body: Seq<u8>)
    requires
        h.command == 0x00,
    ensures
        ({
            let step = begin(s, h, body);
            if body.len() < 36 || body.len() < 36 + 2 * u16_at(body, 2) {
                refuses(step, s, h, 0xC000_000D)
            } else if !offers(body, 0x0202) && !offers(body, 0x0210) && !offers(body, 0x02FF) {
                refuses(step, s, h, 0xC000_00BB)
            } else {
                &&& step matches Step::Done(o)
                &&& o.state == (ServerState { negotiated: true, ..s })
                &&& is_success(o, h, 128)
                &&& is_negotiated(
                    response(h, o).skip(64),
                    if !offers(body, 0x0202) && offers(body, 0x0210) {
                        0x0210
                    } else {
                        0x0202
                    },
                )
            }
        }),
{
    assert(begin(s, h, body) == Step::Done(negotiate(s, h, body))) by {
        reveal(begin);
    }
    if body.len() < 36 {
        lemma_refused(s, h, 0xC000_000D);
    } else {
        law_every_buffer_is_readable::<NegotiateRequest>(body);
        let count = u16_at(body, 2);
        if body.len() < 36 + 2 * count {
            lemma_refused(s, h, 0xC000_000D);
        } else {
            let offered = units_of(body.subrange(36, 36 + 2 * count));
            assert(offered_dialects(body) == Some(offered));
            lemma_offers(body, 0x0202);
            lemma_offers(body, 0x0210);
            lemma_offers(body, 0x02FF);
            match chosen_dialect(offered) {
                None => {
                    lemma_refused(s, h, 0xC000_00BB);
                },
                Some(dialect) => {
                    lemma_negotiated(h, dialect);
                },
            }
        }
    }
}

/// SESSION_SETUP grants a guest session under the id that the request names, or,
/// where it names none, under the next fresh one, whatever the credentials.
pub proof fn law_session_setup_command(s: ServerState, h: Header, body: Seq<u8>)
    requires
        h.command == 0x01,
        s.next_session_id < u64::MAX,
    ensures
        ({
            let step = begin(s, h, body);
            let id = if h.session_id == 0 {
                s.next_session_id
            } else {
                h.session_id
            };
            if body.len() < 24 {
                refuses(step, s, h, 0xC000_000D)
            } else {
                &&& step matches Step::Done(o)
                &&& o.state == (ServerState {
                    next_session_id: o.state.next_session_id,
                    sessions: s.sessions.insert(id),
                    ..s
                })
                &&& o.state.next_session_id == s.next_session_id + (if h.session_id == 0 {
                    1int
                } else {
                    0
                })
                &&& response(h, o).len() == 72
                &&& is_headed(response(h, o), h, 0, h.tree_id, id)
                &&& {
                    let r = response(h, o).skip(64);
                    &&& u16_at(r, 0) == 9
                    &&& u16_at(r, 2) == 1
                    &&& u16_at(r, 4) == 72
                    &&& u16_at(r, 6) == 0
                }
            }
        }),
{
    reveal(begin);
    lemma_refused(s, h, 0xC000_000D);
    let id = if h.session_id == 0 {
        s.next_session_id
    } else {
        h.session_id
    };
    let rec = SessionSetupResponse {
        structure_size: 9,
        session_flags: 1,
        security_buffer_offset: 72,
        security_buffer_length: 0,
    };
    lemma_replied(Header { session_id: id, ..h }, rec, Seq::empty());
}

/// LOGOFF is granted and changes nothing.
pub proof fn law_logoff_command(s: ServerState, h: Header, body: Seq<u8>)
    requires
        h.command == 0x02,
    ensures
        ({
            &&& begin(s, h, body) matches Step::Done(o)
            &&& o.state == s
            &&& is_success(o, h, 68)
            &&& u16_at(response(h, o), 64) == 4
            &&& u16_at(response(h, o), 66) == 0
        }),
{
    reveal(begin);
    lemma_simple(h);
}

proof fn lemma_simple(h: Header)
    ensures
        ({
            let bytes = super::model::simple_response(h);
            &&& bytes.len() == 68
            &&& is_headed(bytes, h, 0, h.tree_id, h.session_id)
            &&& u16_at(bytes, 64) == 4
            &&& u16_at(bytes, 66) == 0
        }),
{
    let bytes = super::model::simple_response(h);
    lemma_headed(h, 0, le16(4) + le16(0), Seq::empty());
    lemma_le16(4);
    lemma_le16(0);
    assert(bytes.subrange(64, 66) =~= bytes.skip(64).subrange(0, 2));
    assert(bytes.subrange(66, 68) =~= bytes.skip(64).subrange(2, 4));
    assert(bytes.subrange(64, 66) =~= le16(4));
    assert(bytes.subrange(66, 68) =~= le16(0));
    lemma_u16_at(bytes, 64, 4);
    lemma_u16_at(bytes, 66, 0);
}

/// TREE_CONNECT finds the share by the last component of the path, without regard
/// to ASCII case, and puts it under the next fresh tree id, with read-only access
/// to a disk.
pub proof fn law_tree_connect_command(s: ServerState, h: Header, body: Seq<u8>)
    requires
        h.command == 0x03,
        s.next_tree_id < u32::MAX,
    ensures
        ({
            let step = begin(s, h, body);
            let off = u16_at(body, 4) - 64;
            let path = decode_utf16_le(body.subrange(off, off + u16_at(body, 6)));
            if body.len() < 8 || off < 0 || off + u16_at(body, 6) > body.len() || path is None {
                refuses(step, s, h, 0xC000_000D)
            } else {
                let share = lowercase(last_component_of(path->0));
                if !s.shares.contains_key(share) {
                    refuses(step, s, h, 0xC000_00CC)
                } else {
                    &&& step matches Step::Done(o)
                    &&& o.state == (ServerState {
                        next_tree_id: o.state.next_tree_id,
                        trees: s.trees.insert(s.next_tree_id, share),
                        ..s
                    })
                    &&& o.state.next_tree_id == s.next_tree_id + 1
                    &&& response(h, o).len() == 80
                    &&& is_headed(response(h, o), h, 0, s.next_tree_id, h.session_id)
                    &&& {
                        let r = response(h, o).skip(64);
                        &&& u16_at(r, 0) == 16
                        &&& r[2] == 1
                        &&& r[3] == 0
                        &&& u32_at(r, 4) == 0
                        &&& u32_at(r, 8) == 0
                        &&& u32_at(r, 12) == 0x0012_00A9
                    }
                }
            }
        }),
{
    reveal(begin);
    lemma_refused(s, h, 0xC000_000D);
    lemma_refused(s, h, 0xC000_00CC);
    if body.len() >= 8 {
        law_every_buffer_is_readable::<TreeConnectRequest>(body);
    }
    let rec = TreeConnectResponse {
        structure_size: 16,
        share_type: 1,
        reserved: 0,
        share_flags: 0,
        capabilities: 0,
        maximal_access: 0x0012_00A9,
    };
    lemma_replied(Header { tree_id: s.next_tree_id, ..h }, rec, Seq::empty());
}

/// TREE_DISCONNECT takes away the tree and exactly the handles on it.
pub proof fn law_tree_disconnect_command(s: ServerState, h: Header, body: Seq<u8>)
    requires
        h.command == 0x04,
    ensures
        ({
            &&& begin(s, h, body) matches Step::Done(o)
            &&& o.state == (ServerState {
                trees: s.trees.remove(h.tree_id),
                open_files: o.state.open_files,
                ..s
            })
            &&& forall|id: u64| #[trigger]
                o.state.open_files.contains_key(id) <==> s.open_files.contains_key(id)
                    && s.open_files[id].tree_id != h.tree_id
            &&& forall|id: u64| #[trigger]
                o.state.open_files.contains_key(id) ==> o.state.open_files[id] == s.open_files[id]
            &&& is_success(o, h, 68)
            &&& u16_at(response(h, o), 64) == 4
            &&& u16_at(response(h, o), 66) == 0
        }),
{
    reveal(begin);
    lemma_simple(h);
}

/// The file id that a request carries at `off`: the first eight bytes of the
/// FileId there.
proof fn lemma_own_id(body: Seq<u8>, file_id: [u8; 16], off: int)
    requires
        0 <= off,
        off + 16 <= body.len(),
        body.subrange(off, off + 16) == file_id@,
    ensures
        own_id(file_id) == u64_at(body, off),
{
    let v = u64_at(body, off);
    lemma_le64(v);
    lemma_u64_at(body, off, v);
    assert(file_id@.subrange(0, 8) =~= body.subrange(off, off + 8));
    lemma_u64_at(file_id@, 0, v);
}

/// CLOSE takes away the handle and no other, and reports its metadata where the
/// request asks for them, zeros where it does not.
pub proof fn law_close_command(s: ServerState, h: Header, body: Seq<u8>)
    requires
        h.command == 0x06,
    ensures
        ({
            let step = begin(s, h, body);
            let id = u64_at(body, 8);
            if body.len() < 24 || !s.open_files.contains_key(id) {
                refuses(step, s, h, 0xC000_000D)
            } else {
                let info = s.open_files[id].info;
                let asked = u16_at(body, 2) & 1 != 0;
                &&& step matches Step::Done(o)
                &&& o.state == (ServerState { open_files: s.open_files.remove(id), ..s })
                &&& is_success(o, h, 124)
                &&& {
                    let r = response(h, o).skip(64);
                    &&& u16_at(r, 0) == 60
                    &&& u16_at(r, 2) == u16_at(body, 2)
                    &&& u32_at(r, 4) == 0
                    &&& asked ==> {
                        &&& u64_at(r, 8) == info.creation_time
                        &&& u64_at(r, 16) == info.last_access_time
                        &&& u64_at(r, 24) == info.last_write_time
                        &&& u64_at(r, 32) == info.change_time
                        &&& u64_at(r, 40) == info.allocation_size
                        &&& u64_at(r, 48) == info.size
                        &&& u32_at(r, 56) == info.attributes
                    }
                    &&& !asked ==> {
                        &&& u64_at(r, 8) == 0
                        &&& u64_at(r, 16) == 0
                        &&& u64_at(r, 24) == 0
                        &&& u64_at(r, 32) == 0
                        &&& u64_at(r, 40) == 0
                        &&& u64_at(r, 48) == 0
                        &&& u32_at(r, 56) == 0
                    }
                }
            }
        }),
{
    reveal(begin);
    lemma_refused(s, h, 0xC000_000D);
    if body.len() >= 24 {
        let req = record_at::<CloseRequest>(body);
        law_every_buffer_is_readable::<CloseRequest>(body);
        lemma_own_id(body, req.file_id, 8);
        let id = u64_at(body, 8);
        lemma_replied(h, close_response(req.flags, s.open_files[id].info), Seq::empty());
    }
}

/// A command that is none of those served is not supported.
pub proof fn law_other_commands(s: ServerState, h: Header, body: Seq<u8>)
    requires
        h.command > 0x10 || h.command == 0x07 || h.command == 0x09 || h.command == 0x0A
            || h.command == 0x0C || h.command == 0x0D || h.command == 0x0F,
    ensures
        refuses(begin(s, h, body), s, h, 0xC000_00BB),
{
    reveal(begin);
    lemma_refused(s, h, 0xC000_00BB);
}

/// Whether a command that asked the host is refused for the host's failure: no
/// such name, no access, or a bad parameter for anything else.
pub open spec fn is_failure(o: Outcome, s: ServerState, h: Header, kind: IoErrorKind) -> bool {
    is_refusal(
        o,
        s,
        h,
        match kind {
            IoErrorKind::NotFound => 0xC000_0034,
            IoErrorKind::PermissionDenied => 0xC000_0022,
            IoErrorKind::Other => 0xC000_000D,
        },
    )
}

/// Whether a command asks the host to carry out `op` on the file behind an open
/// handle: on the path that the handle was opened by, below the directory of the
/// share of its tree. Without the tree or the share it is refused.
pub open spec fn asks_on(
    step: Step,
    s: ServerState,
    h: Header,
    handle: HandleState,
    op: FsOp,
) -> bool {
    if !s.trees.contains_key(handle.tree_id) {
        refuses(step, s, h, 0xC000_000D)
    } else if !s.shares.contains_key(s.trees[handle.tree_id]) {
        refuses(step, s, h, 0xC000_00CC)
    } else {
        step == Step::Ask(
            Question { root: s.shares[s.trees[handle.tree_id]], rel: handle.rel_path, op },
        )
    }
}

/// Whether a query is answered with a buffer: `out` right behind an 8-byte part
/// that says where it stands and how long it is.
pub open spec fn is_buffer(o: Outcome, s: ServerState, h: Header, out: Seq<u8>) -> bool {
    let bytes = response(h, o);
    &&& o.state == s
    &&& is_success(o, h, 72int + out.len())
    &&& u16_at(bytes.skip(64), 0) == 9
    &&& u16_at(bytes.skip(64), 2) == 72
    &&& u32_at(bytes.skip(64), 4) == out.len() % 0x1_0000_0000
    &&& bytes.skip(72) == out
}

proof fn lemma_buffer(s: ServerState, h: Header, out: Seq<u8>)
    ensures
        is_buffer(
            Outcome { state: s, reply: Ok(super::model::output_buffer_response(h, out)) },
            s,
            h,
            out,
        ),
{
    let rec = OutputBufferResponse {
        structure_size: 9,
        output_buffer_offset: 72,
        output_buffer_length: low32(out.len() as int),
    };
    lemma_replied(h, rec, out);
}

/// CREATE opens existing files only, and asks the host about the name it carries,
/// below the directory of its tree's share.
pub proof fn law_create_command(s: ServerState, h: Header, body: Seq<u8>)
    requires
        h.command == 0x05,
    ensures
        ({
            let step = begin(s, h, body);
            let off = u16_at(body, 44) - 64;
            let name = decode_utf16_le(body.subrange(off, off + u16_at(body, 46)));
            if !s.trees.contains_key(h.tree_id) {
                refuses(step, s, h, 0xC000_000D)
            } else if !s.shares.contains_key(s.trees[h.tree_id]) {
                refuses(step, s, h, 0xC000_00CC)
            } else if body.len() < 56 {
                refuses(step, s, h, 0xC000_000D)
            } else if u32_at(body, 36) != 1 {
                refuses(step, s, h, 0xC000_0022)
            } else if off < 0 || off + u16_at(body, 46) > body.len() || name is None {
                refuses(step, s, h, 0xC000_000D)
            } else {
                step == Step::Ask(
                    Question { root: s.shares[s.trees[h.tree_id]], rel: name->0, op: FsOp::Stat },
                )
            }
        }),
{
    reveal(begin);
    lemma_refused(s, h, 0xC000_000D);
    lemma_refused(s, h, 0xC000_00CC);
    lemma_refused(s, h, 0xC000_0022);
    if body.len() >= 56 {
        law_every_buffer_is_readable::<CreateRequest>(body);
    }
}

/// What CREATE comes to once the host has answered: a handle under the next fresh
/// file id, on the path that was asked about, with the metadata that the host
/// gave; and a response that carries those metadata and the FileId.
pub proof fn law_create_answered(
    s: ServerState,
    h: Header,
    body: Seq<u8>,
    question: Question,
    info: FileInfo,
)
    requires
        h.command == 0x05,
        s.next_file_id < u64::MAX,
    ensures
        ({
            let o = finish(s, h, body, question, Answer::Stat(Ok(info)));
            let r = response(h, o).skip(64);
            &&& o.state == (ServerState {
                next_file_id: o.state.next_file_id,
                open_files: s.open_files.insert(
                    s.next_file_id,
                    HandleState {
                        tree_id: h.tree_id,
                        rel_path: question.rel,
                        info,
                        listing: None,
                        cursor: 0,
                    },
                ),
                ..s
            })
            &&& o.state.next_file_id == s.next_file_id + 1
            &&& is_success(o, h, 152)
            &&& u16_at(r, 0) == 89
            &&& r[2] == 0
            &&& r[3] == 0
            &&& u32_at(r, 4) == 1
            &&& u64_at(r, 8) == info.creation_time
            &&& u64_at(r, 16) == info.last_access_time
            &&& u64_at(r, 24) == info.last_write_time
            &&& u64_at(r, 32) == info.change_time
            &&& u64_at(r, 40) == info.allocation_size
            &&& u64_at(r, 48) == info.size
            &&& u32_at(r, 56) == info.attributes
            &&& u32_at(r, 60) == 0
            &&& u64_at(r, 64) == s.next_file_id
            &&& forall|k: int| 72 <= k < 80 ==> r[k] == 0
            &&& u32_at(r, 80) == 0
            &&& u32_at(r, 84) == 0
        }),
{
    reveal(finish);
    let id = s.next_file_id;
    let rec = create_response(id, info);
    lemma_replied(h, rec, Seq::empty());
    let r = assembled(h, 0, rec.wire_bytes(), Seq::empty()).skip(64);
    let fid = le64(id) + zeros(8);
    lemma_le64(id);
    lemma_array16_of(fid);
    assert(array16_of(fid)@ == fid);
    assert(wire_id(id)@ == fid);
    assert(r.subrange(64, 80) == fid);
    assert(r.subrange(64, 72) =~= r.subrange(64, 80).subrange(0, 8));
    assert(r.subrange(64, 72) =~= le64(id));
    lemma_u64_at(r, 64, id);
    assert forall|k: int| 72 <= k < 80 implies r[k] == 0 by {
        assert(r[k] == r.subrange(64, 80)[k - 64]);
    }
}

/// The same in terms of the response record: what a client reads from it is what
/// the host said of the file.
pub proof fn law_create_reports_metadata(
    s: ServerState,
    h: Header,
    body: Seq<u8>,
    question: Question,
    info: FileInfo,
)
    requires
        h.command == 0x05,
        s.next_file_id < u64::MAX,
    ensures
        ({
            let o = finish(s, h, body, question, Answer::Stat(Ok(info)));
            let r = record_at::<CreateResponse>(response(h, o).skip(64));
            &&& r.creation_time == info.creation_time
            &&& r.last_access_time == info.last_access_time
            &&& r.last_write_time == info.last_write_time
            &&& r.change_time == info.change_time
            &&& r.allocation_size == info.allocation_size
            &&& r.end_of_file == info.size
            &&& r.file_attributes == info.attributes
            &&& r.file_id@ == response(h, o).subrange(128, 144)
        }),
{
    let o = finish(s, h, body, question, Answer::Stat(Ok(info)));
    law_create_answered(s, h, body, question, info);
    let rest = response(h, o).skip(64);
    law_every_buffer_is_readable::<CreateResponse>(rest);
    assert(rest.subrange(64, 80) =~= response(h, o).subrange(128, 144));
}

/// A failure that the host reports on a path refuses the command, with the status
/// of that failure.
pub proof fn law_host_failures(
    s: ServerState,
    h: Header,
    body: Seq<u8>,
    question: Question,
    kind: IoErrorKind,
)
    ensures
        h.command == 0x05 ==> is_failure(
            finish(s, h, body, question, Answer::Stat(Err(kind))),
            s,
            h,
            kind,
        ),
        h.command == 0x08 || h.command == 0x0B ==> is_failure(
            finish(s, h, body, question, Answer::Data(Err(kind))),
            s,
            h,
            kind,
        ),
        h.command == 0x0E ==> is_failure(
            finish(s, h, body, question, Answer::Listing(Err(kind))),
            s,
            h,
            kind,
        ),
{
    reveal(finish);
    lemma_refused(s, h, 0xC000_0034);
    lemma_refused(s, h, 0xC000_0022);
    lemma_refused(s, h, 0xC000_000D);
}

/// READ asks the host for the range that the request names, on an open file that
/// is no directory.
pub proof fn law_read_command(s: ServerState, h: Header, body: Seq<u8>)
    requires
        h.command == 0x08,
    ensures
        ({
            let step = begin(s, h, body);
            let id = u64_at(body, 16);
            if body.len() < 48 || !s.open_files.contains_key(id) {
                refuses(step, s, h, 0xC000_000D)
            } else if s.open_files[id].info.is_dir {
                refuses(step, s, h, 0xC000_0010)
            } else {
                asks_on(
                    step,
                    s,
                    h,
                    s.open_files[id],
                    FsOp::Read { offset: u64_at(body, 8), len: u32_at(body, 4) },
                )
            }
        }),
{
    reveal(begin);
    lemma_refused(s, h, 0xC000_000D);
    lemma_refused(s, h, 0xC000_0010);
    lemma_refused(s, h, 0xC000_00CC);
    if body.len() >= 48 {
        law_every_buffer_is_readable::<ReadRequest>(body);
        lemma_own_id(body, record_at::<ReadRequest>(body).file_id, 16);
    }
}

/// What READ comes to once the host has answered with data: the data, right after
/// a 16-byte part that says where they stand and how many they are. No data where
/// some were asked for is the end of the file.
pub proof fn law_read_answered(
    s: ServerState,
    h: Header,
    body: Seq<u8>,
    question: Question,
    data: Seq<u8>,
)
    requires
        h.command == 0x08,
        body.len() >= 48,
    ensures
        ({
            let o = finish(s, h, body, question, Answer::Data(Ok(data)));
            if data.len() == 0 && u32_at(body, 4) != 0 {
                is_refusal(o, s, h, 0xC000_0011)
            } else {
                let bytes = response(h, o);
                let r = bytes.skip(64);
                &&& o.state == s
                &&& is_success(o, h, 80int + data.len())
                &&& u16_at(r, 0) == 17
                &&& r[2] == 80
                &&& r[3] == 0
                &&& u32_at(r, 4) == data.len() % 0x1_0000_0000
                &&& u32_at(r, 8) == 0
                &&& u32_at(r, 12) == 0
                &&& bytes.skip(80) == data
            }
        }),
{
    reveal(finish);
    lemma_refused(s, h, 0xC000_0011);
    law_every_buffer_is_readable::<ReadRequest>(body);
    let rec = ReadResponse {
        structure_size: 17,
        data_offset: 80,
        reserved: 0,
        data_length: low32(data.len() as int),
        data_remaining: 0,
        reserved2: 0,
    };
    lemma_replied(h, rec, data);
}

/// IOCTL serves the reading of reparse data alone, and asks the host for those of
/// an open reparse point.
pub proof fn law_ioctl_command(s: ServerState, h: Header, body: Seq<u8>)
    requires
        h.command == 0x0B,
    ensures
        ({
            let step = begin(s, h, body);
            let id = u64_at(body, 8);
            if body.len() < 56 {
                refuses(step, s, h, 0xC000_000D)
            } else if u32_at(body, 4) != 0x0009_00A8 {
                refuses(step, s, h, 0xC000_00BB)
            } else if !s.open_files.contains_key(id) || !s.trees.contains_key(
                s.open_files[id].tree_id,
            ) {
                refuses(step, s, h, 0xC000_000D)
            } else if s.open_files[id].info.attributes & 0x400 == 0 {
                refuses(step, s, h, 0xC000_0275)
            } else {
                asks_on(step, s, h, s.open_files[id], FsOp::ReadReparse)
            }
        }),
{
    reveal(begin);
    lemma_refused(s, h, 0xC000_000D);
    lemma_refused(s, h, 0xC000_00BB);
    lemma_refused(s, h, 0xC000_0275);
    lemma_refused(s, h, 0xC000_00CC);
    if body.len() >= 56 {
        law_every_buffer_is_readable::<IoctlRequest>(body);
        lemma_own_id(body, record_at::<IoctlRequest>(body).file_id, 8);
    }
}

/// What IOCTL comes to once the host has answered with data: the data, right after
/// a 48-byte part that echoes the FileId of the request.
pub proof fn law_ioctl_answered(
    s: ServerState,
    h: Header,
    body: Seq<u8>,
    question: Question,
    data: Seq<u8>,
)
    requires
        h.command == 0x0B,
        body.len() >= 56,
    ensures
        ({
            let o = finish(s, h, body, question, Answer::Data(Ok(data)));
            let bytes = response(h, o);
            let r = bytes.skip(64);
            &&& o.state == s
            &&& is_success(o, h, 112int + data.len())
            &&& u16_at(r, 0) == 49
            &&& u16_at(r, 2) == 0
            &&& u32_at(r, 4) == 0x0009_00A8
            &&& r.subrange(8, 24) == body.subrange(8, 24)
            &&& u32_at(r, 24) == 112
            &&& u32_at(r, 28) == 0
            &&& u32_at(r, 32) == 112
            &&& u32_at(r, 36) == data.len() % 0x1_0000_0000
            &&& u32_at(r, 40) == 0
            &&& u32_at(r, 44) == 0
            &&& bytes.skip(112) == data
        }),
{
    reveal(finish);
    law_every_buffer_is_readable::<IoctlRequest>(body);
    let rec = IoctlResponse {
        structure_size: 49,
        reserved: 0,
        ctl_code: 0x0009_00A8,
        file_id: record_at::<IoctlRequest>(body).file_id,
        input_offset: 112,
        input_count: 0,
        output_offset: 112,
        output_count: low32(data.len() as int),
        flags: 0,
        reserved2: 0,
    };
    lemma_replied(h, rec, data);
}

/// QUERY_INFO asks the host for the security descriptor and for the streams of an
/// open file, and serves no other type than those and file information.
pub proof fn law_query_info_command(s: ServerState, h: Header, body: Seq<u8>)
    requires
        h.command == 0x10,
    ensures
        ({
            let step = begin(s, h, body);
            let id = u64_at(body, 24);
            let class = body[3];
            if body.len() < 40 {
                refuses(step, s, h, 0xC000_000D)
            } else if body[2] != 1 && body[2] != 3 {
                refuses(step, s, h, 0xC000_00BB)
            } else if !s.open_files.contains_key(id) {
                refuses(step, s, h, 0xC000_000D)
            } else if body[2] == 3 {
                asks_on(step, s, h, s.open_files[id], FsOp::ReadSecurity)
            } else if class == 22 {
                asks_on(step, s, h, s.open_files[id], FsOp::ListStreams)
            } else if class != 4 && class != 5 && class != 34 && class != 35 {
                refuses(step, s, h, 0xC000_00BB)
            } else {
                step is Done
            }
        }),
{
    reveal(begin);
    lemma_refused(s, h, 0xC000_000D);
    lemma_refused(s, h, 0xC000_00BB);
    lemma_refused(s, h, 0xC000_00CC);
    if body.len() >= 40 {
        law_every_buffer_is_readable::<QueryInfoRequest>(body);
        lemma_own_id(body, record_at::<QueryInfoRequest>(body).file_id, 24);
    }
}

/// QUERY_INFO answers for file information from the metadata that the handle was
/// opened with, each class in its own layout.
pub proof fn law_query_info_reports_metadata(s: ServerState, h: Header, body: Seq<u8>)
    requires
        h.command == 0x10,
        body.len() >= 40,
        body[2] == 1,
        body[3] == 4 || body[3] == 5 || body[3] == 34 || body[3] == 35,
        s.open_files.contains_key(u64_at(body, 24)),
    ensures
        ({
            let info = s.open_files[u64_at(body, 24)].info;
            let class = body[3];
            &&& begin(s, h, body) matches Step::Done(o)
            &&& {
                let out = response(h, o).skip(72);
                &&& is_buffer(o, s, h, out)
                &&& class == 4 ==> {
                    &&& out.len() == 40
                    &&& u64_at(out, 0) == info.creation_time
                    &&& u64_at(out, 8) == info.last_access_time
                    &&& u64_at(out, 16) == info.last_write_time
                    &&& u64_at(out, 24) == info.change_time
                    &&& u32_at(out, 32) == info.attributes
                    &&& u32_at(out, 36) == 0
                }
                &&& class == 5 ==> {
                    &&& out.len() == 24
                    &&& u64_at(out, 0) == info.allocation_size
                    &&& u64_at(out, 8) == info.size
                    &&& u32_at(out, 16) == 1
                    &&& out[20] == 0
                    &&& out[21] == (if info.is_dir {
                        1u8
                    } else {
                        0u8
                    })
                    &&& u16_at(out, 22) == 0
                }
                &&& class == 34 ==> {
                    &&& out.len() == 56
                    &&& u64_at(out, 0) == info.creation_time
                    &&& u64_at(out, 8) == info.last_access_time
                    &&& u64_at(out, 16) == info.last_write_time
                    &&& u64_at(out, 24) == info.change_time
                    &&& u64_at(out, 32) == info.allocation_size
                    &&& u64_at(out, 40) == info.size
                    &&& u32_at(out, 48) == info.attributes
                    &&& u32_at(out, 52) == 0
                }
                &&& class == 35 ==> {
                    &&& out.len() == 8
                    &&& u32_at(out, 0) == info.attributes
                    &&& u32_at(out, 4) == (if info.attributes & 0x400 != 0 {
                        info.reparse_tag
                    } else {
                        0
                    })
                }
            }
        }),
{
    assert(begin(s, h, body) == query_info(s, h, body)) by {
        reveal(begin);
    }
    let req = record_at::<QueryInfoRequest>(body);
    law_every_buffer_is_readable::<QueryInfoRequest>(body);
    lemma_own_id(body, req.file_id, 24);
    let info = s.open_files[u64_at(body, 24)].info;
    let out = cached_info(req.file_info_class, info)->0;
    law_basic_info_fields(info);
    law_standard_info_fields(info);
    law_network_open_info_fields(info);
    law_attribute_tag_info_fields(info);
    lemma_buffer(s, h, out);
}

/// What QUERY_INFO comes to once the host has answered: a security descriptor that
/// fits the client's buffer, or the streams; without access to the descriptor, or
/// without room for it, it is refused.
pub proof fn law_query_info_answered(
    s: ServerState,
    h: Header,
    body: Seq<u8>,
    question: Question,
    sd: Seq<u8>,
    streams: Seq<StreamState>,
)
    requires
        h.command == 0x10,
        body.len() >= 40,
    ensures
        is_refusal(finish(s, h, body, question, Answer::Security(None)), s, h, 0xC000_0022),
        sd.len() > u32_at(body, 4) ==> is_refusal(
            finish(s, h, body, question, Answer::Security(Some(sd))),
            s,
            h,
            0xC000_0023,
        ),
        sd.len() <= u32_at(body, 4) ==> is_buffer(
            finish(s, h, body, question, Answer::Security(Some(sd))),
            s,
            h,
            sd,
        ),
        is_buffer(
            finish(s, h, body, question, Answer::Streams(streams)),
            s,
            h,
            stream_info(streams),
        ),
{
    reveal(finish);
    law_every_buffer_is_readable::<QueryInfoRequest>(body);
    lemma_refused(s, h, 0xC000_0022);
    lemma_refused(s, h, 0xC000_0023);
    lemma_buffer(s, h, sd);
    lemma_buffer(s, h, stream_info(streams));
}

/// Whether QUERY_DIRECTORY on the directory handle `id` is answered with the next
/// page of the listing `entries`, from `cursor` on: as many entries as fit the
/// client's buffer, at least one, and one alone where the request asks for that.
/// The handle goes on after them.
pub open spec fn is_next_page(
    o: Outcome,
    s: ServerState,
    h: Header,
    body: Seq<u8>,
    entries: Seq<EntryState>,
    cursor: int,
) -> bool {
    let id = u64_at(body, 8);
    let class = body[2];
    let max = u32_at(body, 28) as int;
    let after = ServerState {
        open_files: s.open_files.insert(
            id,
            HandleState { listing: Some(entries), cursor, ..s.open_files[id] },
        ),
        ..s
    };
    if cursor >= entries.len() {
        is_refusal(o, after, h, 0x8000_0006)
    } else if class != 1 && class != 2 && class != 3 && class != 37 {
        is_refusal(o, after, h, 0xC000_00BB)
    } else {
        let end = o.state.open_files[id].cursor;
        let out = response(h, o).skip(72);
        &&& cursor < end <= entries.len()
        &&& out == dir_page(class, entries.subrange(cursor, end))
        &&& is_buffer(
            o,
            ServerState {
                open_files: s.open_files.insert(
                    id,
                    HandleState { listing: Some(entries), cursor: end, ..s.open_files[id] },
                ),
                ..s
            },
            h,
            out,
        )
        &&& body[3] & 2 != 0 ==> end == cursor + 1
        &&& body[3] & 2 == 0 && end > cursor + 1 ==> out.len() <= max
        &&& body[3] & 2 == 0 && end < entries.len() ==> dir_page(
            class,
            entries.subrange(cursor, end + 1),
        ).len() > max
    }
}

proof fn lemma_next_page(
    s: ServerState,
    h: Header,
    body: Seq<u8>,
    entries: Seq<EntryState>,
    cursor: int,
)
    requires
        body.len() >= 32,
        0 <= cursor,
        s.open_files.contains_key(u64_at(body, 8)),
        s.open_files[u64_at(body, 8)].listing == Some(entries),
        s.open_files[u64_at(body, 8)].cursor == cursor,
    ensures
        is_next_page(
            next_page(s, h, record_at::<QueryDirectoryRequest>(body)),
            s,
            h,
            body,
            entries,
            cursor,
        ),
{
    let req = record_at::<QueryDirectoryRequest>(body);
    law_every_buffer_is_readable::<QueryDirectoryRequest>(body);
    lemma_own_id(body, req.file_id, 8);
    let id = u64_at(body, 8);
    let handle = s.open_files[id];
    let class = body[2];
    let single = body[3] & 2 != 0;
    let max = u32_at(body, 28) as int;
    let end = page_end(class, entries, cursor, 0, max, single);
    assert(s.open_files.insert(id, handle) =~= s.open_files);
    let after = ServerState {
        open_files: s.open_files.insert(
            id,
            HandleState { listing: Some(entries), cursor, ..s.open_files[id] },
        ),
        ..s
    };
    assert(after == s);
    lemma_refused(s, h, 0x8000_0006);
    lemma_refused(s, h, 0xC000_00BB);
    if cursor < entries.len() {
        law_page_bounds(class, entries, cursor, max, single);
        let moved = ServerState {
            open_files: s.open_files.insert(
                id,
                HandleState { listing: Some(entries), cursor: end, ..s.open_files[id] },
            ),
            ..s
        };
        lemma_buffer(moved, h, dir_page(class, entries.subrange(cursor, end)));
    }
}

/// QUERY_DIRECTORY on an open directory asks the host to enumerate it the first
/// time and whenever the request starts over, and goes on with the listing taken
/// before otherwise.
pub proof fn law_query_directory_command(s: ServerState, h: Header, body: Seq<u8>)
    requires
        h.command == 0x0E,
        body.len() >= 32 && s.open_files.contains_key(u64_at(body, 8)) ==> s.open_files[u64_at(
            body,
            8,
        )].cursor >= 0,
    ensures
        ({
            let step = begin(s, h, body);
            let id = u64_at(body, 8);
            if body.len() < 32 || !s.open_files.contains_key(id) || !s.trees.contains_key(
                s.open_files[id].tree_id,
            ) || !s.open_files[id].info.is_dir {
                refuses(step, s, h, 0xC000_000D)
            } else if s.open_files[id].listing is None || body[3] & 1 != 0 {
                asks_on(step, s, h, s.open_files[id], FsOp::Enumerate)
            } else {
                &&& step matches Step::Done(o)
                &&& is_next_page(
                    o,
                    s,
                    h,
                    body,
                    s.open_files[id].listing->0,
                    s.open_files[id].cursor,
                )
            }
        }),
{
    reveal(begin);
    lemma_refused(s, h, 0xC000_000D);
    lemma_refused(s, h, 0xC000_00CC);
    if body.len() >= 32 {
        let id = u64_at(body, 8);
        law_every_buffer_is_readable::<QueryDirectoryRequest>(body);
        lemma_own_id(body, record_at::<QueryDirectoryRequest>(body).file_id, 8);
        if s.open_files.contains_key(id) && s.open_files[id].listing is Some {
            lemma_next_page(s, h, body, s.open_files[id].listing->0, s.open_files[id].cursor);
        }
    }
}

/// What QUERY_DIRECTORY comes to once the host has listed the directory: the first
/// page of that listing.
pub proof fn law_query_directory_answered(
    s: ServerState,
    h: Header,
    body: Seq<u8>,
    question: Question,
    entries: Seq<EntryState>,
)
    requires
        h.command == 0x0E,
        body.len() >= 32,
        s.open_files.contains_key(u64_at(body, 8)),
    ensures
        is_next_page(
            finish(s, h, body, question, Answer::Listing(Ok(entries))),
            s,
            h,
            body,
            entries,
            0,
        ),
{
    reveal(finish);
    let id = u64_at(body, 8);
    law_every_buffer_is_readable::<QueryDirectoryRequest>(body);
    lemma_own_id(body, record_at::<QueryDirectoryRequest>(body).file_id, 8);
    let fresh = with_listing(s, id, entries);
    lemma_next_page(fresh, h, body, entries, 0);
    let o = finish(s, h, body, question, Answer::Listing(Ok(entries)));
    assert(o == next_page(fresh, h, record_at::<QueryDirectoryRequest>(body)));
    assert(fresh.open_files.insert(
        id,
        HandleState { listing: Some(entries), cursor: 0, ..fresh.open_files[id] },
    ) =~= fresh.open_files);
    let end = o.state.open_files[id].cursor;
    assert(fresh.open_files.insert(
        id,
        HandleState { listing: Some(entries), cursor: end, ..fresh.open_files[id] },
    ) =~= s.open_files.insert(
        id,
        HandleState { listing: Some(entries), cursor: end, ..s.open_files[id] },
    ));
}

/// What a file was opened by is what every later command through its FileId is
/// about: after an open of `question.rel` on a tree, a request that carries the
/// FileId of the response asks the host about that path, below the directory of
/// the tree's share.
pub proof fn law_open_then_ask(
    s: ServerState,
    h: Header,
    body: Seq<u8>,
    question: Question,
    info: FileInfo,
    later: Header,
    request: Seq<u8>,
)
    requires
        h.command == 0x05,
        s.next_file_id < u64::MAX,
        begin(s, h, body) == Step::Ask(question),
    ensures
        ({
            let o = finish(s, h, body, question, Answer::Stat(Ok(info)));
            let fid = response(h, o).subrange(128, 144);
            let step = begin(o.state, later, request);
            let root = s.shares[s.trees[h.tree_id]];
            let rel = question.rel;
            &&& question.root == root
            &&& later.command == 0x08 && request.len() >= 48 && request.subrange(16, 32) == fid
                && !info.is_dir ==> step == Step::Ask(
                Question {
                    root,
                    rel,
                    op: FsOp::Read { offset: u64_at(request, 8), len: u32_at(request, 4) },
                },
            )
            &&& later.command == 0x0E && request.len() >= 32 && request.subrange(8, 24) == fid
                && info.is_dir ==> step == Step::Ask(Question { root, rel, op: FsOp::Enumerate })
            &&& later.command == 0x0B && request.len() >= 56 && request.subrange(8, 24) == fid
                && u32_at(request, 4) == 0x0009_00A8 && info.attributes & 0x400 != 0 ==> step
                == Step::Ask(Question { root, rel, op: FsOp::ReadReparse })
            &&& later.command == 0x10 && request.len() >= 40 && request.subrange(24, 40) == fid
                && request[2] == 3 ==> step == Step::Ask(
                Question { root, rel, op: FsOp::ReadSecurity },
            )
            &&& later.command == 0x10 && request.len() >= 40 && request.subrange(24, 40) == fid
                && request[2] == 1 && request[3] == 22 ==> step == Step::Ask(
                Question { root, rel, op: FsOp::ListStreams },
            )
        }),
{
    let o = finish(s, h, body, question, Answer::Stat(Ok(info)));
    let bytes = response(h, o);
    let fid = bytes.subrange(128, 144);
    law_create_command(s, h, body);
    law_create_answered(s, h, body, question, info);
    assert(u64_at(fid, 0) == s.next_file_id) by {
        let r = bytes.skip(64);
        lemma_u64_at(r, 64, s.next_file_id);
        assert(fid.subrange(0, 8) =~= r.subrange(64, 72));
        lemma_le64(s.next_file_id);
        lemma_u64_at(fid, 0, s.next_file_id);
    }
    if later.command == 0x08 && request.len() >= 48 && request.subrange(16, 32) == fid {
        lemma_carried(request, fid, 16);
        law_read_command(o.state, later, request);
    } else if later.command == 0x0E && request.len() >= 32 && request.subrange(8, 24) == fid {
        lemma_carried(request, fid, 8);
        law_query_directory_command(o.state, later, request);
    } else if later.command == 0x0B && request.len() >= 56 && request.subrange(8, 24) == fid {
        lemma_carried(request, fid, 8);
        law_ioctl_command(o.state, later, request);
    } else if later.command == 0x10 && request.len() >= 40 && request.subrange(24, 40) == fid {
        lemma_carried(request, fid, 24);
        law_query_info_command(o.state, later, request);
    }
}

proof fn lemma_carried(request: Seq<u8>, fid: Seq<u8>, off: int)
    requires
        0 <= off,
        off + 16 <= request.len(),
        request.subrange(off, off + 16) == fid,
    ensures
        u64_at(request, off) == u64_at(fid, 0),
{
    let v = u64_at(fid, 0);
    lemma_le64(v);
    lemma_u64_at(fid, 0, v);
    assert(request.subrange(off, off + 8) =~= fid.subrange(0, 8));
    lemma_u64_at(request, off, v);
}

} // verus!
