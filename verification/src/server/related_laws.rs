//! How the commands of one segment follow one another, and how a related command
//! comes to the file that its chain has opened.

use super::chain_laws::lemma_chain_shift;
use super::command_laws::{law_create_answered, law_open_then_ask};
use super::compound::{
    capture_fid, chain_at, command_end, compound, file_id_offset, related_body, resolve_body,
    Command, CommandState, SENTINEL_FILE_ID,
};
use super::exchange::{advance, resumed, start, ExchangeState, Pass};
use super::laws::{law_answered_response, law_immediate_response};
use super::model::{begin, finish, response, ServerState, Step};
use crate::backing::FileInfo;
use crate::host::{Answer, FsOp, Question};
use crate::smb2::{
    starts_with_header, CloseRequest, Header, IoctlRequest, QueryDirectoryRequest, QueryInfoRequest,
    ReadRequest,
};
use crate::wire::{law_every_buffer_is_readable, lemma_array16, record_at, u16_at, u32_at, u64_at};
use vstd::prelude::*;

verus! {

/// The FileId by which a related command refers to the file that its chain has
/// opened: sixteen bytes of ones.
pub open spec fn all_ones() -> Seq<u8> {
    Seq::new(16, |i: int| 0xFFu8)
}

/// Whether `after` is `before` with the sixteen bytes at `off` replaced.
pub open spec fn is_patched(before: Seq<u8>, after: Seq<u8>, off: int, fid: Seq<u8>) -> bool {
    &&& after.len() == before.len()
    &&& after.subrange(off, off + 16) == fid
    &&& forall|i: int| 0 <= i < before.len() && !(off <= i < off + 16) ==> after[i] == before[i]
}

proof fn lemma_patched(c: CommandState, off: int, fid: Seq<u8>)
    requires
        c.header.flags & 4 != 0,
        super::compound::id_offset(c.header.command) == Some(off),
        0 <= off,
        off + 16 <= c.body.len(),
        c.body.subrange(off, off + 16) == all_ones(),
        fid.len() == 16,
    ensures
        is_patched(c.body, related_body(c, Some(fid)), off, fid),
{
    assert(SENTINEL_FILE_ID@ =~= all_ones());
    let after = related_body(c, Some(fid));
    assert(after.subrange(off, off + 16) =~= fid);
}

proof fn lemma_patched_fields(before: Seq<u8>, after: Seq<u8>, off: int, fid: Seq<u8>, i: int)
    requires
        is_patched(before, after, off, fid),
        0 <= i,
    ensures
        i + 2 <= before.len() && (i + 2 <= off || off + 16 <= i) ==> u16_at(after, i) == u16_at(
            before,
            i,
        ),
        i + 4 <= before.len() && (i + 4 <= off || off + 16 <= i) ==> u32_at(after, i) == u32_at(
            before,
            i,
        ),
        i + 8 <= before.len() && (i + 8 <= off || off + 16 <= i) ==> u64_at(after, i) == u64_at(
            before,
            i,
        ),
{
    reveal(u16_at);
    reveal(u32_at);
}

/// A related CLOSE whose FileId is the sentinel is carried out with the FileId of
/// the file that the chain has opened, and is as it was otherwise.
pub proof fn law_related_close(c: CommandState, fid: Seq<u8>)
    requires
        c.header.command == 0x06,
        c.header.flags & 4 != 0,
        c.body.len() >= 24,
        record_at::<CloseRequest>(c.body).file_id@ == all_ones(),
        fid.len() == 16,
    ensures
        ({
            let body = related_body(c, Some(fid));
            let old_request = record_at::<CloseRequest>(c.body);
            let request = record_at::<CloseRequest>(body);
            &&& request.file_id@ == fid
            &&& request == (CloseRequest { file_id: request.file_id, ..old_request })
            &&& body.len() == c.body.len()
            &&& body.skip(24) == c.body.skip(24)
        }),
{
    let body = related_body(c, Some(fid));
    law_every_buffer_is_readable::<CloseRequest>(c.body);
    lemma_patched(c, 8, fid);
    law_every_buffer_is_readable::<CloseRequest>(body);
    lemma_patched_fields(c.body, body, 8, fid, 0);
    lemma_patched_fields(c.body, body, 8, fid, 2);
    lemma_patched_fields(c.body, body, 8, fid, 4);
    assert(body.skip(24) =~= c.body.skip(24));
}

/// A related READ whose FileId is the sentinel is carried out with the FileId of
/// the file that the chain has opened, and is as it was otherwise.
pub proof fn law_related_read(c: CommandState, fid: Seq<u8>)
    requires
        c.header.command == 0x08,
        c.header.flags & 4 != 0,
        c.body.len() >= 48,
        record_at::<ReadRequest>(c.body).file_id@ == all_ones(),
        fid.len() == 16,
    ensures
        ({
            let body = related_body(c, Some(fid));
            let old_request = record_at::<ReadRequest>(c.body);
            let request = record_at::<ReadRequest>(body);
            &&& request.file_id@ == fid
            &&& request == (ReadRequest { file_id: request.file_id, ..old_request })
            &&& body.len() == c.body.len()
            &&& body.skip(48) == c.body.skip(48)
        }),
{
    let body = related_body(c, Some(fid));
    law_every_buffer_is_readable::<ReadRequest>(c.body);
    lemma_patched(c, 16, fid);
    law_every_buffer_is_readable::<ReadRequest>(body);
    lemma_patched_fields(c.body, body, 16, fid, 0);
    lemma_patched_fields(c.body, body, 16, fid, 4);
    lemma_patched_fields(c.body, body, 16, fid, 8);
    lemma_patched_fields(c.body, body, 16, fid, 32);
    lemma_patched_fields(c.body, body, 16, fid, 36);
    lemma_patched_fields(c.body, body, 16, fid, 40);
    lemma_patched_fields(c.body, body, 16, fid, 44);
    lemma_patched_fields(c.body, body, 16, fid, 46);
    assert(body.skip(48) =~= c.body.skip(48));
}

/// A related IOCTL whose FileId is the sentinel is carried out with the FileId of
/// the file that the chain has opened, and is as it was otherwise.
pub proof fn law_related_ioctl(c: CommandState, fid: Seq<u8>)
    requires
        c.header.command == 0x0B,
        c.header.flags & 4 != 0,
        c.body.len() >= 56,
        record_at::<IoctlRequest>(c.body).file_id@ == all_ones(),
        fid.len() == 16,
    ensures
        ({
            let body = related_body(c, Some(fid));
            let old_request = record_at::<IoctlRequest>(c.body);
            let request = record_at::<IoctlRequest>(body);
            &&& request.file_id@ == fid
            &&& request == (IoctlRequest { file_id: request.file_id, ..old_request })
            &&& body.len() == c.body.len()
            &&& body.skip(56) == c.body.skip(56)
        }),
{
    let body = related_body(c, Some(fid));
    law_every_buffer_is_readable::<IoctlRequest>(c.body);
    lemma_patched(c, 8, fid);
    law_every_buffer_is_readable::<IoctlRequest>(body);
    lemma_patched_fields(c.body, body, 8, fid, 0);
    lemma_patched_fields(c.body, body, 8, fid, 2);
    lemma_patched_fields(c.body, body, 8, fid, 4);
    lemma_patched_fields(c.body, body, 8, fid, 24);
    lemma_patched_fields(c.body, body, 8, fid, 28);
    lemma_patched_fields(c.body, body, 8, fid, 32);
    lemma_patched_fields(c.body, body, 8, fid, 36);
    lemma_patched_fields(c.body, body, 8, fid, 40);
    lemma_patched_fields(c.body, body, 8, fid, 44);
    lemma_patched_fields(c.body, body, 8, fid, 48);
    lemma_patched_fields(c.body, body, 8, fid, 52);
    assert(body.skip(56) =~= c.body.skip(56));
}

/// A related QUERY_DIRECTORY whose FileId is the sentinel is carried out with the FileId of
/// the file that the chain has opened, and is as it was otherwise.
pub proof fn law_related_query_directory(c: CommandState, fid: Seq<u8>)
    requires
        c.header.command == 0x0E,
        c.header.flags & 4 != 0,
        c.body.len() >= 32,
        record_at::<QueryDirectoryRequest>(c.body).file_id@ == all_ones(),
        fid.len() == 16,
    ensures
        ({
            let body = related_body(c, Some(fid));
            let old_request = record_at::<QueryDirectoryRequest>(c.body);
            let request = record_at::<QueryDirectoryRequest>(body);
            &&& request.file_id@ == fid
            &&& request == (QueryDirectoryRequest { file_id: request.file_id, ..old_request })
            &&& body.len() == c.body.len()
            &&& body.skip(32) == c.body.skip(32)
        }),
{
    let body = related_body(c, Some(fid));
    law_every_buffer_is_readable::<QueryDirectoryRequest>(c.body);
    lemma_patched(c, 8, fid);
    law_every_buffer_is_readable::<QueryDirectoryRequest>(body);
    lemma_patched_fields(c.body, body, 8, fid, 0);
    lemma_patched_fields(c.body, body, 8, fid, 4);
    lemma_patched_fields(c.body, body, 8, fid, 24);
    lemma_patched_fields(c.body, body, 8, fid, 26);
    lemma_patched_fields(c.body, body, 8, fid, 28);
    assert(body.skip(32) =~= c.body.skip(32));
}

/// A related QUERY_INFO whose FileId is the sentinel is carried out with the FileId of
/// the file that the chain has opened, and is as it was otherwise.
pub proof fn law_related_query_info(c: CommandState, fid: Seq<u8>)
    requires
        c.header.command == 0x10,
        c.header.flags & 4 != 0,
        c.body.len() >= 40,
        record_at::<QueryInfoRequest>(c.body).file_id@ == all_ones(),
        fid.len() == 16,
    ensures
        ({
            let body = related_body(c, Some(fid));
            let old_request = record_at::<QueryInfoRequest>(c.body);
            let request = record_at::<QueryInfoRequest>(body);
            &&& request.file_id@ == fid
            &&& request == (QueryInfoRequest { file_id: request.file_id, ..old_request })
            &&& body.len() == c.body.len()
            &&& body.skip(40) == c.body.skip(40)
        }),
{
    let body = related_body(c, Some(fid));
    law_every_buffer_is_readable::<QueryInfoRequest>(c.body);
    lemma_patched(c, 24, fid);
    law_every_buffer_is_readable::<QueryInfoRequest>(body);
    lemma_patched_fields(c.body, body, 24, fid, 0);
    lemma_patched_fields(c.body, body, 24, fid, 4);
    lemma_patched_fields(c.body, body, 24, fid, 8);
    lemma_patched_fields(c.body, body, 24, fid, 10);
    lemma_patched_fields(c.body, body, 24, fid, 12);
    lemma_patched_fields(c.body, body, 24, fid, 16);
    lemma_patched_fields(c.body, body, 24, fid, 20);
    assert(body.skip(40) =~= c.body.skip(40));
}

/// A command is carried out as it stands where its chain has opened no file, where
/// it is not marked as related, where it carries no FileId, and where its FileId is
/// not the sentinel.
pub proof fn law_other_bodies_stand(c: CommandState, opened: Option<Seq<u8>>)
    requires
        ({
            let code = c.header.command;
            ||| opened is None
            ||| c.header.flags & 4 == 0
            ||| code != 0x06 && code != 0x08 && code != 0x0B && code != 0x0E && code != 0x10
            ||| code == 0x06 && (c.body.len() < 24 || c.body.subrange(8, 24) != all_ones())
            ||| code == 0x0B && (c.body.len() < 24 || c.body.subrange(8, 24) != all_ones())
            ||| code == 0x0E && (c.body.len() < 24 || c.body.subrange(8, 24) != all_ones())
            ||| code == 0x08 && (c.body.len() < 32 || c.body.subrange(16, 32) != all_ones())
            ||| code == 0x10 && (c.body.len() < 40 || c.body.subrange(24, 40) != all_ones())
        }),
    ensures
        related_body(c, opened) == c.body,
{
    assert(SENTINEL_FILE_ID@ =~= all_ones());
}

/// The exchange after the command whose turn it is has got `bytes` for a response:
/// the next command has its turn, the response is the last so far, and a FileId is
/// remembered from a CREATE that reports success.
pub open spec fn goes_on(x: ExchangeState, bytes: Seq<u8>) -> ExchangeState {
    ExchangeState {
        chain: x.chain,
        next: x.next + 1,
        opened: if x.chain.commands[x.next].header.command == 0x05 && u32_at(bytes, 8) == 0
            && bytes.len() >= 144 {
            Some(bytes.subrange(128, 144))
        } else {
            x.opened
        },
        responses: x.responses.push(bytes),
    }
}

/// The commands of a segment are carried out one after the other: each on the
/// state that the one before it left, with what that one has opened, and its
/// response behind those before it.
pub proof fn law_commands_follow_one_another(s: ServerState, x: ExchangeState, answer: Answer)
    requires
        0 <= x.next < x.chain.commands.len(),
    ensures
        ({
            let c = x.chain.commands[x.next];
            let body = related_body(c, x.opened);
            match begin(s, c.header, body) {
                Step::Done(o) => advance(s, x) == advance(
                    o.state,
                    goes_on(x, response(c.header, o)),
                ),
                Step::Ask(question) => {
                    let o = finish(s, c.header, body, question, answer);
                    &&& advance(s, x) == Pass::Ask(s, x, question)
                    &&& resumed(s, x, question, answer) == advance(
                        o.state,
                        goes_on(x, response(c.header, o)),
                    )
                },
            }
        }),
{
    let c = x.chain.commands[x.next];
    let body = related_body(c, x.opened);
    match begin(s, c.header, body) {
        Step::Done(o) => {
            law_immediate_response(s, c.header, body, o);
        },
        Step::Ask(question) => {
            law_answered_response(s, c.header, body, question, answer);
        },
    }
}

/// A segment ends when its last command has been answered: with all the responses
/// if it could be decoded to its end, and with none if it could not.
pub proof fn law_segment_ends(s: ServerState, x: ExchangeState)
    requires
        x.next == x.chain.commands.len(),
    ensures
        x.chain.complete ==> advance(s, x) == Pass::Done(s, Some(compound(x.responses))),
        !x.chain.complete ==> advance(s, x) == Pass::Done(s, None),
{
}

/// A segment starts at its first command, with nothing opened and nothing answered.
pub proof fn law_segment_starts(payload: Seq<u8>)
    ensures
        start(payload).chain == chain_at(payload, 0),
        start(payload).next == 0,
        start(payload).opened is None,
        start(payload).responses.len() == 0,
{
}

/// Where a command links to inside its own header, or beyond the segment, nothing
/// is decoded from there on.
pub proof fn law_bad_link_is_not_decoded(payload: Seq<u8>)
    requires
        payload.len() >= 64,
        0 < u32_at(payload, 20) < 64 || u32_at(payload, 20) > payload.len(),
    ensures
        chain_at(payload, 0).commands.len() == 0,
        !chain_at(payload, 0).complete,
{
    law_every_buffer_is_readable::<Header>(payload);
    assert(payload.skip(0) =~= payload);
}

/// Where a segment does not start with the four bytes of the protocol and a
/// structure size of 64, nothing is decoded.
pub proof fn law_bad_header_is_not_decoded(payload: Seq<u8>)
    requires
        payload.len() < 64 || payload[0] != 0xFE || payload[1] != 0x53 || payload[2] != 0x4D
            || payload[3] != 0x42 || u16_at(payload, 4) != 64,
    ensures
        chain_at(payload, 0).commands.len() == 0,
        !chain_at(payload, 0).complete,
{
    assert(payload.skip(0) =~= payload);
    if payload.len() >= 64 {
        assert(payload.subrange(0, 4)[0] == payload[0]);
        assert(payload.subrange(0, 4)[1] == payload[1]);
        assert(payload.subrange(0, 4)[2] == payload[2]);
        assert(payload.subrange(0, 4)[3] == payload[3]);
    }
}

/// What is decoded from a segment: a command from each header, whose fields are
/// those of the header's bytes and whose body reaches to the next command or, where
/// it links to none, to the end of the segment.
pub proof fn law_first_command_is_decoded(payload: Seq<u8>)
    requires
        payload.len() >= 64,
        payload[0] == 0xFE && payload[1] == 0x53 && payload[2] == 0x4D && payload[3] == 0x42,
        u16_at(payload, 4) == 64,
        u32_at(payload, 20) == 0 || 64 <= u32_at(payload, 20) <= payload.len(),
    ensures
        ({
            let chain = chain_at(payload, 0);
            let end = if u32_at(payload, 20) == 0 {
                payload.len() as int
            } else {
                u32_at(payload, 20) as int
            };
            let c = chain.commands[0];
            &&& chain.commands.len() >= 1
            &&& c.header.credit_charge == u16_at(payload, 6)
            &&& c.header.command == u16_at(payload, 12)
            &&& c.header.flags == u32_at(payload, 16)
            &&& c.header.message_id == u64_at(payload, 24)
            &&& c.header.tree_id == u32_at(payload, 36)
            &&& c.header.session_id == u64_at(payload, 40)
            &&& c.body == payload.subrange(64, end)
            &&& end == payload.len() ==> chain.commands.len() == 1 && chain.complete
            &&& end < payload.len() ==> {
                let rest = chain_at(payload.skip(end), 0);
                &&& chain.commands.skip(1) == rest.commands
                &&& chain.complete == rest.complete
            }
        }),
{
    law_every_buffer_is_readable::<Header>(payload);
    assert(payload.skip(0) =~= payload);
    assert(payload.subrange(0, 4) =~= crate::smb2::PROTOCOL_ID@);
    let end = command_end(payload, 0);
    if end < payload.len() {
        lemma_chain_shift(payload, end, 0);
        assert(chain_at(payload, 0).commands.skip(1) =~= chain_at(payload, end).commands);
    }
}

/// Opening a file and working on it in one segment: a related command with the
/// sentinel FileId, right behind a CREATE, asks the host about the very path that
/// was opened, below the directory of the same share.
pub proof fn law_chain_works_on_what_it_opened(
    s: ServerState,
    x: ExchangeState,
    question: Question,
    info: FileInfo,
)
    requires
        0 <= x.next,
        x.next + 1 < x.chain.commands.len(),
        x.chain.commands[x.next].header.command == 0x05,
        x.chain.commands[x.next + 1].header.flags & 4 != 0,
        s.next_file_id < u64::MAX,
        advance(s, x) == Pass::Ask(s, x, question),
    ensures
        ({
            let d = x.chain.commands[x.next + 1];
            let o = finish(
                s,
                x.chain.commands[x.next].header,
                x.chain.commands[x.next].body,
                question,
                Answer::Stat(Ok(info)),
            );
            let y = goes_on(x, response(x.chain.commands[x.next].header, o));
            let pass = resumed(s, x, question, Answer::Stat(Ok(info)));
            let root = question.root;
            let rel = question.rel;
            &&& d.header.command == 0x08 && d.body.len() >= 48 && record_at::<ReadRequest>(
                d.body,
            ).file_id@ == all_ones() && !info.is_dir ==> pass == Pass::Ask(
                o.state,
                y,
                Question {
                    root,
                    rel,
                    op: FsOp::Read { offset: u64_at(d.body, 8), len: u32_at(d.body, 4) },
                },
            )
            &&& d.header.command == 0x0E && d.body.len() >= 32 && record_at::<
                QueryDirectoryRequest,
            >(d.body).file_id@ == all_ones() && info.is_dir ==> pass == Pass::Ask(
                o.state,
                y,
                Question { root, rel, op: FsOp::Enumerate },
            )
            &&& d.header.command == 0x0B && d.body.len() >= 56 && record_at::<IoctlRequest>(
                d.body,
            ).file_id@ == all_ones() && u32_at(d.body, 4) == 0x0009_00A8 && info.attributes & 0x400
                != 0 ==> pass == Pass::Ask(o.state, y, Question { root, rel, op: FsOp::ReadReparse })
            &&& d.header.command == 0x10 && d.body.len() >= 40 && record_at::<QueryInfoRequest>(
                d.body,
            ).file_id@ == all_ones() && d.body[2] == 3 ==> pass == Pass::Ask(
                o.state,
                y,
                Question { root, rel, op: FsOp::ReadSecurity },
            )
            &&& d.header.command == 0x10 && d.body.len() >= 40 && record_at::<QueryInfoRequest>(
                d.body,
            ).file_id@ == all_ones() && d.body[2] == 1 && d.body[3] == 22 ==> pass == Pass::Ask(
                o.state,
                y,
                Question { root, rel, op: FsOp::ListStreams },
            )
        }),
{
    let c = x.chain.commands[x.next];
    let d = x.chain.commands[x.next + 1];
    law_other_bodies_stand(c, x.opened);
    let answer = Answer::Stat(Ok(info));
    law_commands_follow_one_another(s, x, answer);
    match begin(s, c.header, c.body) {
        Step::Done(o) => {
            lemma_moves_on(o.state, goes_on(x, response(c.header, o)));
        },
        Step::Ask(_) => {},
    }
    assert(begin(s, c.header, c.body) == Step::Ask(question));
    let o = finish(s, c.header, c.body, question, answer);
    let bytes = response(c.header, o);
    let y = goes_on(x, bytes);
    law_create_answered(s, c.header, c.body, question, info);
    let fid = bytes.subrange(128, 144);
    assert(y.opened == Some(fid));
    law_commands_follow_one_another(o.state, y, answer);
    let body = related_body(d, Some(fid));
    law_open_then_ask(s, c.header, c.body, question, info, d.header, body);
    if d.header.command == 0x08 && d.body.len() >= 48 && record_at::<ReadRequest>(d.body).file_id@
        == all_ones() {
        law_related_read(d, fid);
        law_every_buffer_is_readable::<ReadRequest>(d.body);
        law_every_buffer_is_readable::<ReadRequest>(body);
    } else if d.header.command == 0x0E && d.body.len() >= 32 && record_at::<QueryDirectoryRequest>(
        d.body,
    ).file_id@ == all_ones() {
        law_related_query_directory(d, fid);
        law_every_buffer_is_readable::<QueryDirectoryRequest>(d.body);
        law_every_buffer_is_readable::<QueryDirectoryRequest>(body);
    } else if d.header.command == 0x0B && d.body.len() >= 56 && record_at::<IoctlRequest>(
        d.body,
    ).file_id@ == all_ones() {
        law_related_ioctl(d, fid);
        law_every_buffer_is_readable::<IoctlRequest>(d.body);
        law_every_buffer_is_readable::<IoctlRequest>(body);
    } else if d.header.command == 0x10 && d.body.len() >= 40 && record_at::<QueryInfoRequest>(
        d.body,
    ).file_id@ == all_ones() {
        law_related_query_info(d, fid);
        law_every_buffer_is_readable::<QueryInfoRequest>(d.body);
        law_every_buffer_is_readable::<QueryInfoRequest>(body);
    }
}

/// A segment that waits for the host waits at the command whose turn it is, or at
/// a later one.
proof fn lemma_moves_on(s: ServerState, x: ExchangeState)
    ensures
        advance(s, x) matches Pass::Ask(_, y, _) ==> y.next >= x.next,
    decreases x.chain.commands.len() - x.next,
{
    if x.next < x.chain.commands.len() {
        match begin(s, x.current().header, x.body()) {
            Step::Done(o) => {
                lemma_moves_on(o.state, x.answered(o));
            },
            Step::Ask(_) => {},
        }
    }
}

/// Where a FileId is looked for in a request is where the record of that request has
/// it, and it is looked for in no other command.
pub proof fn law_file_ids_are_where_records_have_them(code: u16, body: Seq<u8>, r: Option<usize>)
    requires
        call_ensures(file_id_offset, (code,), r),
    ensures
        code == 0x06 && body.len() >= 24 ==> (r matches Some(off) && body.subrange(
            off as int,
            off + 16,
        ) == record_at::<CloseRequest>(body).file_id@),
        code == 0x08 && body.len() >= 48 ==> (r matches Some(off) && body.subrange(
            off as int,
            off + 16,
        ) == record_at::<ReadRequest>(body).file_id@),
        code == 0x0B && body.len() >= 56 ==> (r matches Some(off) && body.subrange(
            off as int,
            off + 16,
        ) == record_at::<IoctlRequest>(body).file_id@),
        code == 0x0E && body.len() >= 32 ==> (r matches Some(off) && body.subrange(
            off as int,
            off + 16,
        ) == record_at::<QueryDirectoryRequest>(body).file_id@),
        code == 0x10 && body.len() >= 40 ==> (r matches Some(off) && body.subrange(
            off as int,
            off + 16,
        ) == record_at::<QueryInfoRequest>(body).file_id@),
        r is Some <==> code == 0x06 || code == 0x08 || code == 0x0B || code == 0x0E || code == 0x10,
{
    if body.len() >= 24 {
        law_every_buffer_is_readable::<CloseRequest>(body);
    }
    if body.len() >= 48 {
        law_every_buffer_is_readable::<ReadRequest>(body);
    }
    if body.len() >= 56 {
        law_every_buffer_is_readable::<IoctlRequest>(body);
    }
    if body.len() >= 32 {
        law_every_buffer_is_readable::<QueryDirectoryRequest>(body);
    }
    if body.len() >= 40 {
        law_every_buffer_is_readable::<QueryInfoRequest>(body);
    }
}

/// The body that a related command with the sentinel FileId is carried out with holds,
/// in the record of that command, the FileId that the chain has opened.
pub proof fn law_resolved_body(c: Command, fid: [u8; 16], r: Vec<u8>)
    requires
        call_ensures(resolve_body, (&c, Some(fid)), r),
        c.header.flags & 4 != 0,
    ensures
        r@.len() == c.body@.len(),
        c.header.command == 0x06 && c.body@.len() >= 24 && record_at::<CloseRequest>(
            c.body@,
        ).file_id@ == all_ones() ==> record_at::<CloseRequest>(r@) == (CloseRequest {
            file_id: fid,
            ..record_at::<CloseRequest>(c.body@)
        }),
        c.header.command == 0x08 && c.body@.len() >= 48 && record_at::<ReadRequest>(
            c.body@,
        ).file_id@ == all_ones() ==> record_at::<ReadRequest>(r@) == (ReadRequest {
            file_id: fid,
            ..record_at::<ReadRequest>(c.body@)
        }),
        c.header.command == 0x0B && c.body@.len() >= 56 && record_at::<IoctlRequest>(
            c.body@,
        ).file_id@ == all_ones() ==> record_at::<IoctlRequest>(r@) == (IoctlRequest {
            file_id: fid,
            ..record_at::<IoctlRequest>(c.body@)
        }),
        c.header.command == 0x0E && c.body@.len() >= 32 && record_at::<QueryDirectoryRequest>(
            c.body@,
        ).file_id@ == all_ones() ==> record_at::<QueryDirectoryRequest>(r@) == (QueryDirectoryRequest {
            file_id: fid,
            ..record_at::<QueryDirectoryRequest>(c.body@)
        }),
        c.header.command == 0x10 && c.body@.len() >= 40 && record_at::<QueryInfoRequest>(
            c.body@,
        ).file_id@ == all_ones() ==> record_at::<QueryInfoRequest>(r@) == (QueryInfoRequest {
            file_id: fid,
            ..record_at::<QueryInfoRequest>(c.body@)
        }),
{
    if c.header.command == 0x06 && c.body@.len() >= 24 && record_at::<CloseRequest>(
        c.body@,
    ).file_id@ == all_ones() {
        law_related_close(c@, fid@);
        lemma_array16(record_at::<CloseRequest>(r@).file_id, fid);
    }
    if c.header.command == 0x08 && c.body@.len() >= 48 && record_at::<ReadRequest>(
        c.body@,
    ).file_id@ == all_ones() {
        law_related_read(c@, fid@);
        lemma_array16(record_at::<ReadRequest>(r@).file_id, fid);
    }
    if c.header.command == 0x0B && c.body@.len() >= 56 && record_at::<IoctlRequest>(
        c.body@,
    ).file_id@ == all_ones() {
        law_related_ioctl(c@, fid@);
        lemma_array16(record_at::<IoctlRequest>(r@).file_id, fid);
    }
    if c.header.command == 0x0E && c.body@.len() >= 32 && record_at::<QueryDirectoryRequest>(
        c.body@,
    ).file_id@ == all_ones() {
        law_related_query_directory(c@, fid@);
        lemma_array16(record_at::<QueryDirectoryRequest>(r@).file_id, fid);
    }
    if c.header.command == 0x10 && c.body@.len() >= 40 && record_at::<QueryInfoRequest>(
        c.body@,
    ).file_id@ == all_ones() {
        law_related_query_info(c@, fid@);
        lemma_array16(record_at::<QueryInfoRequest>(r@).file_id, fid);
    }
}

/// The FileId that is taken from a response: the sixteen bytes at 128 of a CREATE
/// response that is long enough, starts with a valid header and reports success.
pub proof fn law_captured_fid(code: u16, response: Vec<u8>, r: Option<[u8; 16]>)
    requires
        call_ensures(capture_fid, (code, &response), r),
        response@.len() >= 64 ==> starts_with_header(response@),
    ensures
        r is Some <==> code == 0x05 && response@.len() >= 144 && u32_at(response@, 8) == 0,
        r matches Some(fid) ==> fid@ == response@.subrange(128, 144),
{
    assert(response@.len() < 64 ==> !starts_with_header(response@));
}

} // verus!
