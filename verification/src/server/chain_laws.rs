//! What holds of compound requests and responses.

use super::compound::{
    chain_at, command_end, compound, decodable, id_offset, is_related, linked, linked_all, related_body,
    returned_fid, Chain, CommandState,
};
use super::exchange::{advance, resumed, start, ExchangeState, Pass};
use super::laws::{
    is_response_to, law_answered_response, law_file_id_round_trip, law_immediate_response,
    law_open_is_put_to_the_host, law_open_then_read, law_read_returns_the_data, lemma_assembled,
    sound,
};
use super::model::{
    assembled, begin, create_answered, create_response, finish, own_id, response, text_in,
    wire_id, ServerState, Step,
};
use crate::backing::FileInfo;
use crate::encode::{aligned8, pad8};
use crate::host::{Answer, FsOp, Question};
use crate::smb2::{
    command, starts_with_header, status, CreateRequest, Header, ReadRequest, ReadResponse,
    FILE_OPEN, PROTOCOL_ID,
};
use crate::wire::{
    law_write_then_read, le32, lemma_le32, lemma_le64, lemma_record_at, lemma_u32_at, low32,
    record_at, u32_at, Wire,
};
use vstd::prelude::*;

verus! {

/// The FileId that a chain remembers from a CREATE is that of the handle just
/// opened.
pub proof fn law_created_fid_is_remembered(s: ServerState, h: Header, rel: Seq<char>, info: FileInfo)
    requires
        h.command == command::CREATE,
    ensures
        ({
            let o = create_answered(s, h, rel, Answer::Stat(Ok(info)));
            returned_fid(h.command, response(h, o)) == Some(wire_id(s.next_file_id)@)
        }),
{
    let fixed = create_response(s.next_file_id, info);
    let o = create_answered(s, h, rel, Answer::Stat(Ok(info)));
    let bytes = response(h, o);
    lemma_assembled(h, status::SUCCESS, fixed.wire_bytes(), Seq::empty());
    fixed.lemma_layout(Seq::new(88, |i: int| 0u8));
    law_write_then_read(fixed, fixed, Seq::empty());
    assert(bytes.skip(64) == fixed.wire_bytes() + Seq::<u8>::empty());
    assert(bytes.subrange(128, 144) =~= bytes.skip(64).subrange(64, 80));
    assert(starts_with_header(bytes));
}

/// A refused CREATE leaves the remembered FileId as it was.
pub proof fn law_refused_create_is_not_remembered(h: Header, nt_status: u32)
    requires
        nt_status != status::SUCCESS,
    ensures
        returned_fid(h.command, super::model::error_response(h, nt_status)) is None,
{
    lemma_assembled(h, nt_status, super::model::error_body(), Seq::empty());
}

/// A related command with the sentinel FileId is carried out on the file that
/// the chain has opened: the FileId in its body is replaced, the rest is not.
pub proof fn law_related_command_uses_the_open(c: CommandState, id: u64, file_id: [u8; 16])
    requires
        is_related(c),
        ({
            let off = id_offset(c.header.command)->0;
            file_id@ == related_body(c, Some(wire_id(id)@)).subrange(off, off + 16)
        }),
    ensures
        ({
            let off = id_offset(c.header.command)->0;
            let body = related_body(c, Some(wire_id(id)@));
            &&& own_id(file_id) == id
            &&& body.len() == c.body.len()
            &&& body.take(off) == c.body.take(off)
            &&& body.skip(off + 16) == c.body.skip(off + 16)
        }),
{
    law_file_id_round_trip(id);
    lemma_le64(id);
    let off = id_offset(c.header.command)->0;
    let body = related_body(c, Some(wire_id(id)@));
    assert(body.subrange(off, off + 16) =~= wire_id(id)@);
    assert(body.take(off) =~= c.body.take(off));
    assert(body.skip(off + 16) =~= c.body.skip(off + 16));
}

/// Outside related commands with the sentinel FileId, and where the chain has
/// opened no file, a body is carried out as it stands.
pub proof fn law_unrelated_command_is_unchanged(c: CommandState, opened: Option<Seq<u8>>)
    requires
        !is_related(c) || opened is None,
    ensures
        related_body(c, opened) == c.body,
{
}

/// Where response `i` of a compound starts.
pub open spec fn response_offset(responses: Seq<Seq<u8>>, i: int) -> int
    decreases i,
{
    if i <= 0 {
        0
    } else {
        response_offset(responses, i - 1) + aligned8(responses[i - 1].len() as int)
    }
}

proof fn lemma_offset_prefix(a: Seq<Seq<u8>>, b: Seq<Seq<u8>>, i: int)
    requires
        0 <= i <= a.len(),
        i <= b.len(),
        forall|k: int| 0 <= k < i ==> a[k] == b[k],
    ensures
        response_offset(a, i) == response_offset(b, i),
    decreases i,
{
    if i > 0 {
        lemma_offset_prefix(a, b, i - 1);
    }
}

proof fn lemma_offset_step(responses: Seq<Seq<u8>>, i: int, j: int)
    requires
        0 <= i <= j,
    ensures
        0 <= response_offset(responses, i) <= response_offset(responses, j),
        response_offset(responses, i) % 8 == 0,
    decreases j,
{
    if i < j {
        lemma_offset_step(responses, i, j - 1);
    } else if i > 0 {
        lemma_offset_step(responses, i - 1, i - 1);
    }
}

proof fn lemma_linked(response: Seq<u8>)
    requires
        response.len() >= 24,
    ensures
        linked(response).len() == aligned8(response.len() as int),
        linked(response).take(20) == response.take(20),
        u32_at(linked(response), 20) == low32(aligned8(response.len() as int)),
        linked(response).subrange(24, response.len() as int) == response.skip(24),
{
    let l = linked(response);
    let n = low32(aligned8(response.len() as int));
    lemma_le32(n);
    assert(l.take(20) =~= response.take(20));
    lemma_u32_at(l, 20, n);
    assert(l.subrange(20, 24) =~= le32(n));
    assert(l.subrange(24, response.len() as int) =~= response.skip(24));
}

proof fn lemma_linked_all(responses: Seq<Seq<u8>>, i: int)
    requires
        forall|k: int| 0 <= k < responses.len() ==> (#[trigger] responses[k]).len() >= 24,
        0 <= i < responses.len(),
    ensures
        linked_all(responses).len() == response_offset(responses, responses.len() as int),
        response_offset(responses, i + 1) <= linked_all(responses).len(),
        linked_all(responses).subrange(
            response_offset(responses, i),
            response_offset(responses, i + 1),
        ) == linked(responses[i]),
    decreases responses.len(),
{
    let n = responses.len() as int;
    let front = responses.drop_last();
    lemma_offset_step(responses, i, i + 1);
    lemma_offset_step(responses, i + 1, n);
    lemma_offset_prefix(front, responses, n - 1);
    lemma_linked(responses.last());
    if n > 1 {
        lemma_linked_all(front, if i < n - 1 {
            i
        } else {
            0
        });
    }
    let whole = linked_all(responses);
    let at = response_offset(responses, i);
    let next = response_offset(responses, i + 1);
    if i < n - 1 {
        lemma_offset_prefix(front, responses, i);
        lemma_offset_prefix(front, responses, i + 1);
        assert(whole.subrange(at, next) =~= linked_all(front).subrange(at, next));
    } else {
        assert(whole.subrange(at, next) =~= linked(responses.last()));
    }
}

/// A client that follows the `NextCommand` links of a compound response finds
/// every response: each starts at the first multiple of eight behind the one before
/// it, with zeros between, is as it was but for its link, links to the next, and the
/// last one stands as it was. (A link has 32 bits: it is stated modulo that.)
pub proof fn law_compound_is_walkable(responses: Seq<Seq<u8>>, i: int)
    requires
        forall|k: int| 0 <= k < responses.len() ==> (#[trigger] responses[k]).len() >= 24,
        0 <= i < responses.len(),
    ensures
        ({
            let all = compound(responses);
            let at = response_offset(responses, i);
            let next = response_offset(responses, i + 1);
            let r = responses[i];
            &&& 0 <= at
            &&& at % 8 == 0
            &&& i == 0 ==> at == 0
            &&& at + r.len() <= all.len()
            &&& i == responses.len() - 1 ==> all.skip(at) == r
            &&& i < responses.len() - 1 ==> {
                &&& at + r.len() <= next < at + r.len() + 8
                &&& next % 8 == 0
                &&& next <= all.len()
                &&& u32_at(all, at + 20) == (next - at) % 0x1_0000_0000
                &&& forall|k: int| at + r.len() <= k < next ==> all[k] == 0
                &&& all.subrange(at, at + 20) == r.take(20)
                &&& u32_at(all, at + 20) == low32(next - at)
                &&& all.subrange(at + 24, (at + r.len()) as int) == r.skip(24)
            }
        }),
{
    let n = responses.len() as int;
    let all = compound(responses);
    let front = responses.drop_last();
    let at = response_offset(responses, i);
    let next = response_offset(responses, i + 1);
    let r = responses[i];
    lemma_offset_step(responses, i, i + 1);
    lemma_offset_step(responses, i + 1, n);
    lemma_offset_step(responses, i, n - 1);
    lemma_offset_prefix(front, responses, n - 1);
    if n > 1 {
        lemma_linked_all(front, if i < n - 1 {
            i
        } else {
            0
        });
    }
    if i < n - 1 {
        lemma_offset_prefix(front, responses, i);
        lemma_offset_prefix(front, responses, i + 1);
        let here = linked(r);
        lemma_linked(r);
        assert(all.subrange(at, next) =~= linked_all(front).subrange(at, next));
        assert(all.subrange(at, next) == here);
        assert(all.subrange(at, at + 20) =~= here.take(20));
        lemma_u32_at(all, at + 20, low32(next - at));
        lemma_u32_at(here, 20, low32(next - at));
        assert(all.subrange(at + 20, at + 24) =~= here.subrange(20, 24));
        assert(all.subrange(at + 24, (at + r.len()) as int) =~= here.subrange(24, r.len() as int));
        assert forall|k: int| at + r.len() <= k < next implies all[k] == 0 by {
            assert(all[k] == all.subrange(at, next)[k - at]);
            assert(pad8(r)[k - at] == 0);
            assert(here[k - at] == pad8(r).skip(24)[k - at - 24]);
        }
    } else {
        assert(all.skip(at) =~= r);
    }
}

/// The response to a segment with a single command is sent as it stands.
pub proof fn law_single_response_stands(response: Seq<u8>)
    ensures
        compound(seq![response]) == response,
{
    assert(seq![response].drop_last() =~= Seq::<Seq<u8>>::empty());
    assert(compound(seq![response]) =~= response);
}

/// Whether a segment has been worked through faithfully so far: each command
/// before the one whose turn it is has got its own response.
pub open spec fn is_faithful(x: ExchangeState) -> bool {
    &&& 0 <= x.next <= x.chain.commands.len()
    &&& x.responses.len() == x.next
    &&& forall|i: int|
        0 <= i < x.next ==> is_response_to(
            x.chain.commands[i].header,
            #[trigger] x.responses[i],
        )
}

/// Whether `bytes` answers each of the commands, in order.
pub open spec fn answers_each(commands: Seq<CommandState>, bytes: Seq<u8>) -> bool {
    exists|responses: Seq<Seq<u8>>| #[trigger]
        compound(responses) == bytes && responses.len() == commands.len() && forall|i: int|
            0 <= i < commands.len() ==> is_response_to(commands[i].header, #[trigger] responses[i])
}

/// Whether what a segment has come to is faithful: all its commands are
/// answered, or those before the one that waits for the host.
pub open spec fn is_faithful_pass(commands: Seq<CommandState>, pass: Pass) -> bool {
    match pass {
        Pass::Done(_, Some(bytes)) => answers_each(commands, bytes),
        Pass::Done(_, None) => true,
        Pass::Ask(_, x, _) => is_faithful(x) && x.chain.commands == commands && x.next
            < commands.len(),
    }
}

/// Every command of a segment gets its own response, in order: working through
/// the segment keeps that, as far as it gets.
pub proof fn law_each_command_is_answered(s: ServerState, x: ExchangeState)
    requires
        is_faithful(x),
    ensures
        is_faithful_pass(x.chain.commands, advance(s, x)),
    decreases x.chain.commands.len() - x.next,
{
    if x.next < x.chain.commands.len() {
        match begin(s, x.current().header, x.body()) {
            Step::Done(o) => {
                law_immediate_response(s, x.current().header, x.body(), o);
                law_each_command_is_answered(o.state, x.answered(o));
            },
            Step::Ask(_) => {},
        }
    } else if x.chain.complete {
        assert(compound(x.responses) == compound(x.responses));
    }
}

/// Every command of a segment gets its own response, in order, also where the
/// host had to be asked.
pub proof fn law_each_command_is_answered_on_resuming(
    s: ServerState,
    x: ExchangeState,
    question: Question,
    answer: Answer,
)
    requires
        is_faithful(x),
        x.next < x.chain.commands.len(),
        begin(s, x.current().header, x.body()) == Step::Ask(question),
    ensures
        is_faithful_pass(x.chain.commands, resumed(s, x, question, answer)),
{
    let o = finish(s, x.current().header, x.body(), question, answer);
    law_answered_response(s, x.current().header, x.body(), question, answer);
    law_each_command_is_answered(o.state, x.answered(o));
}

/// A segment starts out faithful, so that the laws above hold of every segment.
pub proof fn law_segment_starts_faithful(payload: Seq<u8>)
    ensures
        is_faithful(start(payload)),
{
}

/// A segment that does not start with a valid SMB2 header is not answered and
/// changes nothing.
pub proof fn law_undecodable_segment_is_not_answered(s: ServerState, payload: Seq<u8>)
    requires
        !starts_with_header(payload),
    ensures
        advance(s, start(payload)) == Pass::Done(s, None),
{
    assert(payload.skip(0) =~= payload);
    assert(!decodable(payload, 0));
}

/// What stands in a segment from `off` on is decoded as a segment of its own
/// would be.
pub proof fn lemma_chain_shift(payload: Seq<u8>, off: int, k: int)
    requires
        0 <= off,
        0 <= k,
        off + k <= payload.len(),
    ensures
        chain_at(payload, off + k) == chain_at(payload.skip(off), k),
    decreases payload.len() - off - k,
{
    let tail = payload.skip(off);
    assert(tail.skip(k) =~= payload.skip(off + k));
    if decodable(payload, off + k) {
        let end = command_end(payload, off + k);
        assert(command_end(tail, k) == end - off);
        assert(tail.subrange(k + 64, end - off) =~= payload.subrange(off + k + 64, end));
        if end < payload.len() {
            lemma_chain_shift(payload, off, end - off);
        }
    }
}

/// A valid header with nothing after the command it starts is a chain of that
/// command alone.
pub proof fn law_last_command_is_decoded(h: Header, body: Seq<u8>)
    requires
        h.protocol_id == PROTOCOL_ID,
        h.structure_size == 64,
        h.next_command == 0,
    ensures
        chain_at(h.wire_bytes() + body, 0) == (Chain {
            commands: seq![CommandState { header: h, body }],
            complete: true,
        }),
{
    let payload = h.wire_bytes() + body;
    law_write_then_read(h, h, body);
    h.lemma_layout(Seq::new(64, |i: int| 0u8));
    lemma_record_at(h, payload);
    assert(payload.skip(0) =~= payload);
    assert(payload.subrange(64, payload.len() as int) =~= body);
}

/// A command that links to what follows it is the first of a chain, and the
/// rest is the chain that follows.
pub proof fn law_linked_command_is_decoded(h: Header, body: Seq<u8>, rest: Seq<u8>)
    requires
        h.protocol_id == PROTOCOL_ID,
        h.structure_size == 64,
        h.next_command == 64 + body.len(),
        rest.len() > 0,
    ensures
        ({
            let chain = chain_at(h.wire_bytes() + body + rest, 0);
            &&& chain.commands == seq![CommandState { header: h, body }] + chain_at(
                rest,
                0,
            ).commands
            &&& chain.complete == chain_at(rest, 0).complete
        }),
{
    let payload = h.wire_bytes() + body + rest;
    assert(payload =~= h.wire_bytes() + (body + rest));
    law_write_then_read(h, h, body + rest);
    h.lemma_layout(Seq::new(64, |i: int| 0u8));
    lemma_record_at(h, payload);
    assert(payload.skip(0) =~= payload);
    let end = (64 + body.len()) as int;
    assert(payload.subrange(64, end) =~= body);
    lemma_chain_shift(payload, end, 0);
    assert(payload.skip(end) =~= rest);
}

/// A segment with a single command comes to what that command comes to: its
/// response is sent as it stands, at once or once the host has answered.
pub proof fn law_single_command_segment(
    s: ServerState,
    h: Header,
    body: Seq<u8>,
    answer: Answer,
)
    requires
        h.protocol_id == PROTOCOL_ID,
        h.structure_size == 64,
        h.next_command == 0,
    ensures
        ({
            let x = start(h.wire_bytes() + body);
            match begin(s, h, body) {
                Step::Done(o) => advance(s, x) == Pass::Done(o.state, Some(response(h, o))),
                Step::Ask(question) => {
                    let o = finish(s, h, body, question, answer);
                    &&& advance(s, x) == Pass::Ask(s, x, question)
                    &&& resumed(s, x, question, answer) == Pass::Done(
                        o.state,
                        Some(response(h, o)),
                    )
                },
            }
        }),
{
    law_last_command_is_decoded(h, body);
    let x = start(h.wire_bytes() + body);
    assert(x.current() == CommandState { header: h, body });
    assert(x.body() == body);
    match begin(s, h, body) {
        Step::Done(o) => {
            law_single_response_stands(response(h, o));
            assert(x.answered(o).responses =~= seq![response(h, o)]);
            assert(advance(o.state, x.answered(o)) == Pass::Done(
                o.state,
                Some(compound(x.answered(o).responses)),
            ));
        },
        Step::Ask(question) => {
            let o = finish(s, h, body, question, answer);
            law_single_response_stands(response(h, o));
            assert(x.answered(o).responses =~= seq![response(h, o)]);
            assert(advance(o.state, x.answered(o)) == Pass::Done(
                o.state,
                Some(compound(x.answered(o).responses)),
            ));
        },
    }
}

/// Opening a file and reading it, from segment to segment: the host is asked
/// for the metadata of the named path below the share's directory, then for the
/// requested bytes of that very path; and the bytes it returns are the bytes
/// that the guest gets.
pub proof fn law_open_and_read_end_to_end(
    s: ServerState,
    create: Header,
    create_body: Seq<u8>,
    name: Seq<char>,
    info: FileInfo,
    read: Header,
    read_body: Seq<u8>,
    data: Seq<u8>,
)
    requires
        sound(s),
        s.next_file_id < u64::MAX,
        create.protocol_id == PROTOCOL_ID && read.protocol_id == PROTOCOL_ID,
        create.structure_size == 64 && read.structure_size == 64,
        create.next_command == 0 && read.next_command == 0,
        create.command == command::CREATE,
        s.trees.contains_key(create.tree_id),
        create_body.len() >= 56,
        record_at::<CreateRequest>(create_body).create_disposition == FILE_OPEN,
        text_in(
            create_body,
            record_at::<CreateRequest>(create_body).name_offset,
            record_at::<CreateRequest>(create_body).name_length,
        ) == Some(name),
        !info.is_dir,
        read.command == command::READ,
        read_body.len() >= 48,
        record_at::<ReadRequest>(read_body).file_id == create_response(
            s.next_file_id,
            info,
        ).file_id,
        0 < data.len() <= record_at::<ReadRequest>(read_body).length,
    ensures
        ({
            let root = s.shares[s.trees[create.tree_id]];
            let req = record_at::<ReadRequest>(read_body);
            let first = start(create.wire_bytes() + create_body);
            let stat = Question { root, rel: name, op: FsOp::Stat };
            let opened = create_answered(s, create, name, Answer::Stat(Ok(info)));
            let second = start(read.wire_bytes() + read_body);
            let fetch = Question {
                root,
                rel: name,
                op: FsOp::Read { offset: req.offset, len: req.length },
            };
            &&& advance(s, first) == Pass::Ask(s, first, stat)
            &&& resumed(s, first, stat, Answer::Stat(Ok(info))) == Pass::Done(
                opened.state,
                Some(response(create, opened)),
            )
            &&& returned_fid(command::CREATE, response(create, opened)) == Some(req.file_id@)
            &&& advance(opened.state, second) == Pass::Ask(opened.state, second, fetch)
            &&& resumed(opened.state, second, fetch, Answer::Data(Ok(data))) matches Pass::Done(
                after,
                Some(bytes),
            ) && after == opened.state && bytes.len() == 80 + data.len() && bytes.skip(80) == data
        }),
{
    let req = record_at::<ReadRequest>(read_body);
    let opened = create_answered(s, create, name, Answer::Stat(Ok(info)));
    law_open_is_put_to_the_host(s, create, create_body, name);
    law_single_command_segment(s, create, create_body, Answer::Stat(Ok(info)));
    law_created_fid_is_remembered(s, create, name, info);
    law_open_then_read(s, create, name, info, read_body);
    law_single_command_segment(opened.state, read, read_body, Answer::Data(Ok(data)));
    law_read_returns_the_data(opened.state, read, req.length, data);
    reveal(begin);
    reveal(finish);
    let fixed = ReadResponse {
        structure_size: 17,
        data_offset: 80,
        reserved: 0,
        data_length: low32(data.len() as int),
        data_remaining: 0,
        reserved2: 0,
    };
    let bytes = assembled(read, status::SUCCESS, fixed.wire_bytes(), data);
    lemma_assembled(read, status::SUCCESS, fixed.wire_bytes(), data);
    fixed.lemma_layout(Seq::new(16, |i: int| 0u8));
    assert(bytes.skip(80) =~= bytes.skip(64).skip(16));
    assert((fixed.wire_bytes() + data).skip(16) =~= data);
}

} // verus!
