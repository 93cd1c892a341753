//! What a connection does on each event, from bytes to bytes.

use super::{
    expects, frame_segment, framed, stepped, version_response, Action, ActionState, Connection,
    ConnectionError, ConnectionState, Event, EventState, Phase,
};
use crate::host::{answers, Answer, FsReply, FsRequest, Question};
use crate::protocol::{
    be32, header_value, length_bits, lemma_header_fields, type_bits, VersionPacket,
};
use crate::server::compound::lemma_chain_len;
use crate::server::exchange::{
    advance, ids_left, lemma_ids_suffice, lemma_ids_suffice_to_resume, resumed, start,
    ExchangeState, Pass,
};
use crate::server::model::ServerState;
use crate::server::Smb2Server;
use crate::wire::{law_every_buffer_is_readable, law_write_then_read, record_at, u32_at, Wire};
use vstd::prelude::*;

verus! {

/// What a version request is answered with: versions up to 1 are echoed, with the
/// capabilities that both sides have; any later version is answered with ones
/// throughout and no capabilities.
pub proof fn law_version_response(requested: u32, guest_caps: u32, host_caps: u32, r: VersionPacket)
    requires
        call_ensures(version_response, (requested, guest_caps, host_caps), r),
    ensures
        requested <= 1 ==> r.version_requested == requested && r.capabilities == guest_caps
            & host_caps,
        requested > 1 ==> r.version_requested == 0xFFFF_FFFF && r.capabilities == 0,
{
}

/// Whether `bytes` is a segment with the given first byte and payload: the length of
/// the payload, modulo 2^24, stands big-endian in the three bytes behind the first.
pub open spec fn is_segment(bytes: Seq<u8>, first: int, payload: Seq<u8>) -> bool {
    &&& bytes.len() == 4 + payload.len()
    &&& bytes[0] == first
    &&& bytes[1] * 0x1_0000 + bytes[2] * 0x100 + bytes[3] == payload.len() % 0x100_0000
    &&& bytes.skip(4) == payload
}

proof fn lemma_framed(segment_type: u32, payload: Seq<u8>)
    ensures
        is_segment(framed(segment_type, payload), segment_type as int / 0x100_0000, payload),
{
    let v = header_value(segment_type, payload.len() as int);
    let bytes = framed(segment_type, payload);
    assert(bytes.skip(4) =~= payload);
    assert(v / 0x100_0000 == segment_type / 0x100_0000);
    assert(v % 0x100_0000 == payload.len() % 0x100_0000);
    assert(v / 65536 == v / 256 / 256);
    assert(v / 16777216 == v / 65536 / 256);
}

/// What a segment looks like on the wire.
pub proof fn law_segment_on_the_wire(segment_type: u32, payload: &[u8], r: Vec<u8>)
    requires
        call_ensures(frame_segment, (segment_type, payload), r),
    ensures
        is_segment(r@, segment_type as int / 0x100_0000, payload@),
{
    lemma_framed(segment_type, payload@);
}

/// A connection starts with nothing negotiated and nothing pending, and reads a
/// segment header first.
pub proof fn law_connection_starts(server: Smb2Server, r: Connection)
    requires
        call_ensures(Connection::new, (server,), r),
    ensures
        r@.server == server@,
        r@.pending is None,
        !r@.negotiated,
        r@.phase == Phase::Header,
{
}

/// On a segment header a connection reads as many payload bytes as the low 24 bits
/// of the big-endian header say, up to 1 MiB; a longer payload ends it. The type is
/// in the top byte.
pub proof fn law_on_header(c: ConnectionState, b: Seq<u8>)
    requires
        c.phase == Phase::Header,
        b.len() == 4,
    ensures
        ({
            let len = b[1] * 0x1_0000 + b[2] * 0x100 + b[3];
            let (after, action) = stepped(c, EventState::Header(b));
            &&& after == (ConnectionState { phase: after.phase, ..c })
            &&& len <= 0x10_0000 ==> {
                &&& after.phase matches Phase::Payload { segment_type, len: wanted }
                &&& segment_type == b[0] * 0x100_0000
                &&& wanted == len
                &&& action == ActionState::ReadPayload(wanted)
            }
            &&& len > 0x10_0000 ==> {
                &&& after.phase == Phase::Closed
                &&& action matches ActionState::Close(Err(ConnectionError::SegmentTooLarge(n)))
                &&& n == len
            }
        }),
{
    let header = be32(b);
    lemma_header_fields(header);
    let len = b[1] * 0x1_0000 + b[2] * 0x100 + b[3];
    assert(header == b[0] * 0x100_0000 + len);
    assert(header / 0x100_0000 == b[0] as int) by (nonlinear_arith)
        requires
            header == b[0] * 0x100_0000 + len,
            0 <= len < 0x100_0000,
    ;
    assert(length_bits(header) == len);
    assert(type_bits(header) == b[0] * 0x100_0000);
}

/// Where the guest closes the pipe in place of a header, the connection ends without
/// an error; and once a segment has been sent, the next header is read.
pub proof fn law_on_end_and_sent(c: ConnectionState)
    ensures
        c.phase == Phase::Header ==> stepped(c, EventState::End) == (
            ConnectionState { phase: Phase::Closed, ..c },
            ActionState::Close(Ok(())),
        ),
        c.phase == Phase::Sending ==> stepped(c, EventState::Sent) == (
            ConnectionState { phase: Phase::Header, ..c },
            ActionState::ReadHeader,
        ),
{
}

/// A version segment is answered with a version segment of 8 bytes: the version
/// requested where it is at most 1, which is then negotiated, and ones throughout
/// where it is not; never a capability. A payload under 8 bytes ends the connection.
pub proof fn law_on_version(c: ConnectionState, len: usize, b: Seq<u8>)
    requires
        c.phase == (Phase::Payload { segment_type: 0x0100_0000, len }),
    ensures
        ({
            let (after, action) = stepped(c, EventState::Payload(b));
            let requested = u32_at(b, 0);
            if b.len() < 8 {
                &&& after == (ConnectionState { phase: Phase::Closed, ..c })
                &&& action == ActionState::Close(Err(ConnectionError::ShortVersionPacket))
            } else {
                &&& after == (ConnectionState {
                    negotiated: c.negotiated || requested <= 1,
                    phase: Phase::Sending,
                    ..c
                })
                &&& action matches ActionState::Send(out)
                &&& is_segment(out, 1, out.skip(4))
                &&& out.len() == 12
                &&& u32_at(out.skip(4), 0) == (if requested <= 1 {
                    requested
                } else {
                    0xFFFF_FFFF
                })
                &&& u32_at(out.skip(4), 4) == 0
            }
        }),
{
    if b.len() >= 8 {
        law_every_buffer_is_readable::<VersionPacket>(b);
        let request = record_at::<VersionPacket>(b);
        let caps = request.capabilities;
        assert(caps & 0u32 == 0) by (bit_vector);
        let packet = super::version_answer(b);
        packet.lemma_layout(b);
        law_write_then_read(packet, packet, Seq::empty());
        assert(packet.wire_bytes() + Seq::<u8>::empty() =~= packet.wire_bytes());
        lemma_framed(0x0100_0000, packet.wire_bytes());
    }
}

/// Whether a connection goes on from what its server came to: it sends the response,
/// framed as an SMB segment, asks the host, or, without a response, ends.
pub open spec fn goes_on_from(
    c: ConnectionState,
    pass: Pass,
    after: ConnectionState,
    action: ActionState,
) -> bool {
    match pass {
        Pass::Done(s, Some(bytes)) => {
            &&& after == (ConnectionState {
                server: s,
                pending: None,
                phase: Phase::Sending,
                ..c
            })
            &&& action matches ActionState::Send(out)
            &&& is_segment(out, 0, bytes)
        },
        Pass::Done(s, None) => {
            &&& after == (ConnectionState { server: s, pending: None, phase: Phase::Closed, ..c })
            &&& action == ActionState::Close(Ok(()))
        },
        Pass::Ask(s, x, question) => {
            &&& after == (ConnectionState {
                server: s,
                pending: Some((x, question)),
                phase: Phase::Host,
                ..c
            })
            &&& action == ActionState::Ask(question)
        },
    }
}

/// An SMB segment is worked through from its start, on the server's tables as they
/// stand.
pub proof fn law_on_smb(c: ConnectionState, len: usize, b: Seq<u8>)
    requires
        c.phase == (Phase::Payload { segment_type: 0, len }),
    ensures
        ({
            let (after, action) = stepped(c, EventState::Payload(b));
            goes_on_from(c, advance(c.server, start(b)), after, action)
        }),
{
    match advance(c.server, start(b)) {
        Pass::Done(_, Some(bytes)) => lemma_framed(0, bytes),
        _ => {},
    }
}

/// The host's reply goes to the segment that waits for it.
pub proof fn law_on_reply(
    c: ConnectionState,
    x: ExchangeState,
    question: Question,
    answer: Answer,
)
    requires
        c.phase == Phase::Host,
        c.pending == Some((x, question)),
    ensures
        ({
            let (after, action) = stepped(c, EventState::Reply(answer));
            goes_on_from(c, resumed(c.server, x, question, answer), after, action)
        }),
{
    match resumed(c.server, x, question, answer) {
        Pass::Done(_, Some(bytes)) => lemma_framed(0, bytes),
        _ => {},
    }
}

/// A segment of any other type is passed over.
pub proof fn law_on_other_segments(c: ConnectionState, segment_type: u32, len: usize, b: Seq<u8>)
    requires
        c.phase == (Phase::Payload { segment_type, len }),
        segment_type != 0,
        segment_type != 0x0100_0000,
    ensures
        stepped(c, EventState::Payload(b)) == (
            ConnectionState { phase: Phase::Header, ..c },
            ActionState::ReadHeader,
        ),
{
}

/// Which events a connection takes, as long as ids are left for the commands that
/// may come: the header, or the end, where a header is due; a payload of the length
/// announced; an acceptable reply from the host; and word that a segment was sent.
pub proof fn law_events_are_taken(c: ConnectionState, e: EventState)
    ensures
        c.phase == Phase::Header ==> expects(c, EventState::End) && (e is Header ==> expects(c, e)),
        c.phase == Phase::Sending ==> expects(c, EventState::Sent),
        c.phase matches Phase::Payload { segment_type, len } ==> (e matches EventState::Payload(b)
            ==> b.len() == len && ids_left(c.server, len as int / 64) ==> expects(c, e)),
        c.phase == Phase::Host ==> (c.pending matches Some((x, question)) ==> (
        e matches EventState::Reply(answer) ==> x.next < x.chain.commands.len() && answers(
            question.op,
            answer,
        ) && ids_left(c.server, x.chain.commands.len() - x.next) ==> expects(c, e))),
{
    if let (Phase::Payload { segment_type, len }, EventState::Payload(b)) = (c.phase, e) {
        if b.len() == len && ids_left(c.server, len as int / 64) {
            lemma_chain_len(b, 0);
            lemma_ids_suffice(c.server, start(b));
        }
    }
    if let (Phase::Host, EventState::Reply(answer)) = (c.phase, e) {
        if let Some((x, question)) = c.pending {
            if x.next < x.chain.commands.len() && ids_left(
                c.server,
                x.chain.commands.len() - x.next,
            ) {
                lemma_ids_suffice_to_resume(c.server, x, question, answer);
            }
        }
    }
}

/// How many ids are left: the next of each kind, and `n - 1` behind it, are below the
/// largest.
pub proof fn law_ids_left(s: ServerState, n: int)
    ensures
        ids_left(s, n) <==> s.next_session_id + n <= 0xFFFF_FFFF_FFFF_FFFF && s.next_tree_id + n
            <= 0xFFFF_FFFF && s.next_file_id + n <= 0xFFFF_FFFF_FFFF_FFFF,
{
}

/// What a connection says of itself: whether a version has been negotiated, and
/// whether it takes an event, which it does wherever that is its turn and ids are
/// left.
pub proof fn law_connection_tells(c: Connection, negotiated: bool, e: Event, taken: bool)
    requires
        c.wf(),
        call_ensures(Connection::is_negotiated, (&c,), negotiated),
        call_ensures(Connection::admits, (&c, &e), taken),
    ensures
        negotiated == c@.negotiated,
        taken ==> expects(c@, e@),
        e is Header || e is End ==> taken == (c@.phase == Phase::Header),
        e is Sent ==> taken == (c@.phase == Phase::Sending),
        e matches Event::Payload(b) ==> (c@.phase matches Phase::Payload { segment_type, len }
            ==> b@.len() == len && ids_left(c@.server, len as int / 64) ==> taken),
        e matches Event::Reply(reply) ==> (c@.phase == Phase::Host ==> (c@.pending matches Some(
            (x, question),
        ) ==> x.next < x.chain.commands.len() && answers(question.op, reply@) && ids_left(
            c@.server,
            x.chain.commands.len() - x.next,
        ) ==> taken)),
{
    law_events_are_taken(c@, e@);
}

/// What events and actions stand for: the bytes, requests and replies that they hold.
pub proof fn law_events_and_actions_as_values(
    header: [u8; 4],
    bytes: Vec<u8>,
    reply: FsReply,
    request: FsRequest,
    len: usize,
    end: Result<(), ConnectionError>,
)
    ensures
        Event::Header(header)@ == EventState::Header(header@),
        Event::Payload(bytes)@ == EventState::Payload(bytes@),
        Event::Reply(reply)@ == EventState::Reply(reply@),
        Event::End@ == EventState::End && Event::Sent@ == EventState::Sent,
        Action::ReadHeader@ == ActionState::ReadHeader,
        Action::ReadPayload(len)@ == ActionState::ReadPayload(len),
        Action::Ask(request)@ == ActionState::Ask(
            Question { root: request.root@, rel: request.rel@, op: request.op },
        ),
        Action::Send(bytes)@ == ActionState::Send(bytes@),
        Action::Close(end)@ == ActionState::Close(end),
{
}

} // verus!
