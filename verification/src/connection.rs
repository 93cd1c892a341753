//! One vSMB connection: version negotiation, segment framing, and routing of
//! SMB2 segments into the server.
//!
//! A connection performs no I/O. It says what to do next, as an [`Action`], and
//! is told what came of it, as an [`Event`].

use crate::host::{answers, Answer, FsReply, FsRequest, Question};
use crate::protocol::{
    be32, be32_bytes, from_be_bytes, header_value, law_be32_round_trip,
    law_segment_header_round_trip, length_bits, lemma_header_fields, segment_header, to_be_bytes,
    type_bits, VersionPacket, MAX_SEGMENT_LEN, PROTOCOL_VERSION_CURRENT, PROTOCOL_VERSION_INVALID,
    SEGMENT_HEADER_TYPE_MASK, SEGMENT_HEADER_TYPE_SMB, SEGMENT_HEADER_TYPE_VERSION,
};
use crate::server::exchange::{
    advance, can_advance, can_resume, ids_left, resumed, start, ExchangeState, Pass,
};
use crate::server::chain_laws::{
    is_faithful, law_each_command_is_answered, law_each_command_is_answered_on_resuming,
    law_segment_starts_faithful, law_undecodable_segment_is_not_answered,
};
use crate::server::laws::{law_resuming_keeps_sound, law_segment_keeps_sound, sound};
use crate::server::model::{begin, finish, ServerState, Step};
use crate::server::{Progress, Smb2Server};
use crate::wire::{lemma_record_at, put_bytes, record_at, Wire};
use vstd::prelude::*;

pub mod laws;

verus! {

/// Why a connection cannot go on.
#[derive(Copy, Clone, Debug, PartialEq, Eq, Structural)]
pub enum ConnectionError {
    /// A version packet was too short.
    ShortVersionPacket,
    /// A segment payload was larger than this device accepts.
    SegmentTooLarge(usize),
}

/// The version-negotiation response: a version newer than this host understands
/// is answered with the invalid version and no capabilities, any other is
/// echoed with the capabilities that both sides have.
pub open spec fn negotiated_version(
    requested: u32,
    guest_caps: u32,
    host_caps: u32,
) -> VersionPacket {
    if requested > PROTOCOL_VERSION_CURRENT {
        VersionPacket { version_requested: PROTOCOL_VERSION_INVALID, capabilities: 0 }
    } else {
        VersionPacket { version_requested: requested, capabilities: guest_caps & host_caps }
    }
}

/// Computes the vSMB version-negotiation response.
///
/// If `requested` is newer than this host understands, the response version is
/// [`PROTOCOL_VERSION_INVALID`] (the guest then steps down and retries).
/// Otherwise the version is echoed and the negotiated capabilities are the
/// intersection of the guest's request and the host's support.
pub fn version_response(requested: u32, guest_caps: u32, host_caps: u32) -> (r: VersionPacket)
    ensures
        r == negotiated_version(requested, guest_caps, host_caps),
{
    if requested > PROTOCOL_VERSION_CURRENT {
        VersionPacket { version_requested: PROTOCOL_VERSION_INVALID, capabilities: 0 }
    } else {
        VersionPacket { version_requested: requested, capabilities: guest_caps & host_caps }
    }
}

/// Version negotiation never agrees on a version beyond this host's or the one
/// requested, never grants a capability that either side lacks, and grants none
/// that the host does not have.
pub proof fn law_version_negotiation(requested: u32, guest_caps: u32, host_caps: u32)
    ensures
        ({
            let r = negotiated_version(requested, guest_caps, host_caps);
            &&& r.version_requested != PROTOCOL_VERSION_INVALID ==> r.version_requested
                == requested && requested <= PROTOCOL_VERSION_CURRENT
            &&& r.version_requested == PROTOCOL_VERSION_INVALID <==> requested
                > PROTOCOL_VERSION_CURRENT
            &&& r.capabilities & !guest_caps == 0
            &&& r.capabilities & !host_caps == 0
            &&& host_caps == 0 ==> r.capabilities == 0
        }),
{
    assert((guest_caps & host_caps) & !guest_caps == 0) by (bit_vector);
    assert((guest_caps & host_caps) & !host_caps == 0) by (bit_vector);
    assert(guest_caps & 0u32 == 0) by (bit_vector);
    assert(0u32 & !guest_caps == 0) by (bit_vector);
    assert(0u32 & !host_caps == 0) by (bit_vector);
}

/// The response to the version packet at the front of a payload. DirectMap
/// (RDMA-v2) is not served, so no capabilities are advertised.
pub open spec fn version_answer(payload: Seq<u8>) -> VersionPacket {
    let request = record_at::<VersionPacket>(payload);
    negotiated_version(request.version_requested, request.capabilities, 0)
}

/// Computes the version-negotiation response for a VERSION segment payload,
/// updating `negotiated` when a version is accepted.
pub fn handle_version(payload: &[u8], negotiated: &mut bool) -> (r: Result<
    VersionPacket,
    ConnectionError,
>)
    ensures
        r is Err <==> payload@.len() < 8,
        r matches Err(e) ==> e == ConnectionError::ShortVersionPacket && *final(negotiated) == *old(
            negotiated,
        ),
        r matches Ok(packet) ==> packet == version_answer(payload@) && *final(negotiated) == (*old(
            negotiated,
        ) || packet.version_requested != PROTOCOL_VERSION_INVALID),
{
    match VersionPacket::read_from_prefix(payload) {
        None => Err(ConnectionError::ShortVersionPacket),
        Some((request, _)) => {
            proof {
                lemma_record_at(request, payload@);
            }
            // DirectMap/RDMA-v2 is deferred, so advertise no capabilities.
            let response = version_response(request.version_requested, request.capabilities, 0);
            if response.version_requested != PROTOCOL_VERSION_INVALID {
                *negotiated = true;
            }
            Ok(response)
        },
    }
}

/// A segment on the wire: its big-endian header, then its payload.
pub open spec fn framed(segment_type: u32, payload: Seq<u8>) -> Seq<u8> {
    be32_bytes(header_value(segment_type, payload.len() as int)) + payload
}

/// Frames one vSMB segment (big-endian header + payload).
pub fn frame_segment(segment_type: u32, payload: &[u8]) -> (r: Vec<u8>)
    ensures
        r@ == framed(segment_type, payload@),
{
    let header = to_be_bytes(segment_header(segment_type, payload.len()));
    let mut out: Vec<u8> = Vec::new();
    put_bytes(&mut out, header.as_slice());
    put_bytes(&mut out, payload);
    assert(out@ =~= framed(segment_type, payload@));
    out
}

/// What a framed segment is read back as: its type, and its payload's length
/// wherever 24 bits can hold it, followed by the payload.
pub proof fn law_framed_segment_reads_back(segment_type: u32, payload: Seq<u8>)
    requires
        payload.len() < 0x100_0000,
    ensures
        ({
            let bytes = framed(segment_type, payload);
            let header = be32(bytes.take(4));
            &&& type_bits(header) == type_bits(segment_type)
            &&& length_bits(header) == payload.len()
            &&& bytes.skip(4) == payload
        }),
{
    let bytes = framed(segment_type, payload);
    let value = header_value(segment_type, payload.len() as int);
    assert(bytes.take(4) =~= be32_bytes(value));
    assert(bytes.skip(4) =~= payload);
    law_be32_round_trip(value);
    law_segment_header_round_trip(segment_type, payload.len() as int);
}

/// What a connection waits for.
#[derive(Copy, Clone, Debug, PartialEq, Eq, Structural)]
pub enum Phase {
    /// The header of the next segment.
    Header,
    /// The payload of a segment of the given type and length.
    Payload {
        /// The segment type.
        segment_type: u32,
        /// The payload length.
        len: usize,
    },
    /// The host's reply to a request.
    Host,
    /// A segment to have been sent.
    Sending,
    /// Nothing: the connection is closed.
    Closed,
}

/// What came of an action.
pub enum Event {
    /// The four bytes of a segment header were read.
    Header([u8; 4]),
    /// The guest closed the pipe where a segment header was due.
    End,
    /// A payload was read.
    Payload(Vec<u8>),
    /// The host replied.
    Reply(FsReply),
    /// A segment was sent.
    Sent,
}

/// What to do next.
pub enum Action {
    /// Read the four bytes of a segment header.
    ReadHeader,
    /// Read a payload of the given length.
    ReadPayload(usize),
    /// Carry out a filesystem request.
    Ask(FsRequest),
    /// Send these bytes.
    Send(Vec<u8>),
    /// Close the connection.
    Close(Result<(), ConnectionError>),
}

/// An event as a mathematical value.
pub enum EventState {
    /// A segment header was read.
    Header(Seq<u8>),
    /// The guest closed the pipe.
    End,
    /// A payload was read.
    Payload(Seq<u8>),
    /// The host replied.
    Reply(Answer),
    /// A segment was sent.
    Sent,
}

impl View for Event {
    type V = EventState;

    open spec fn view(&self) -> EventState {
        match *self {
            Event::Header(bytes) => EventState::Header(bytes@),
            Event::End => EventState::End,
            Event::Payload(bytes) => EventState::Payload(bytes@),
            Event::Reply(reply) => EventState::Reply(reply@),
            Event::Sent => EventState::Sent,
        }
    }
}

/// An action as a mathematical value.
pub enum ActionState {
    /// Read a segment header.
    ReadHeader,
    /// Read a payload.
    ReadPayload(usize),
    /// Carry out a filesystem request.
    Ask(Question),
    /// Send bytes.
    Send(Seq<u8>),
    /// Close the connection.
    Close(Result<(), ConnectionError>),
}

impl View for Action {
    type V = ActionState;

    open spec fn view(&self) -> ActionState {
        match *self {
            Action::ReadHeader => ActionState::ReadHeader,
            Action::ReadPayload(len) => ActionState::ReadPayload(len),
            Action::Ask(request) => ActionState::Ask(request@),
            Action::Send(bytes) => ActionState::Send(bytes@),
            Action::Close(r) => ActionState::Close(r),
        }
    }
}

/// The state of a connection.
pub struct ConnectionState {
    /// The server's tables.
    pub server: ServerState,
    /// The SMB2 segment that waits for the host, and the question put to it.
    pub pending: Option<(ExchangeState, Question)>,
    /// Whether a protocol version has been accepted.
    pub negotiated: bool,
    /// What the connection waits for.
    pub phase: Phase,
}

/// Whether an event is one that the connection waits for, and no id runs out in
/// handling it.
pub open spec fn expects(c: ConnectionState, e: EventState) -> bool {
    match (c.phase, e) {
        (Phase::Header, EventState::Header(bytes)) => true,
        (Phase::Header, EventState::End) => true,
        (Phase::Payload { segment_type, len }, EventState::Payload(bytes)) => {
            &&& bytes.len() == len
            &&& segment_type == SEGMENT_HEADER_TYPE_SMB ==> can_advance(c.server, start(bytes))
        },
        (Phase::Host, EventState::Reply(answer)) => c.pending matches Some((x, question))
            && answers(question.op, answer) && can_resume(c.server, x, question, answer),
        (Phase::Sending, EventState::Sent) => true,
        _ => false,
    }
}

/// Where a connection goes once its server has worked on a segment: the
/// response is framed and sent; a segment that cannot be decoded ends the
/// connection.
pub open spec fn after_server(c: ConnectionState, pass: Pass) -> (ConnectionState, ActionState) {
    match pass {
        Pass::Done(s, Some(bytes)) => (
            ConnectionState { server: s, pending: None, phase: Phase::Sending, ..c },
            ActionState::Send(framed(SEGMENT_HEADER_TYPE_SMB, bytes)),
        ),
        Pass::Done(s, None) => (
            ConnectionState { server: s, pending: None, phase: Phase::Closed, ..c },
            ActionState::Close(Ok(())),
        ),
        Pass::Ask(s, x, question) => (
            ConnectionState {
                server: s,
                pending: Some((x, question)),
                phase: Phase::Host,
                ..c
            },
            ActionState::Ask(question),
        ),
    }
}

/// What a connection does on an event that it waits for.
pub open spec fn stepped(c: ConnectionState, e: EventState) -> (ConnectionState, ActionState) {
    match (c.phase, e) {
        (Phase::Header, EventState::Header(bytes)) => {
            let header = be32(bytes);
            let len = length_bits(header) as usize;
            if len > MAX_SEGMENT_LEN {
                (
                    ConnectionState { phase: Phase::Closed, ..c },
                    ActionState::Close(Err(ConnectionError::SegmentTooLarge(len))),
                )
            } else {
                (
                    ConnectionState {
                        phase: Phase::Payload { segment_type: type_bits(header), len },
                        ..c
                    },
                    ActionState::ReadPayload(len),
                )
            }
        },
        (Phase::Payload { segment_type, len }, EventState::Payload(bytes)) => {
            if segment_type == SEGMENT_HEADER_TYPE_VERSION {
                if bytes.len() < 8 {
                    (
                        ConnectionState { phase: Phase::Closed, ..c },
                        ActionState::Close(Err(ConnectionError::ShortVersionPacket)),
                    )
                } else {
                    let answer = version_answer(bytes);
                    (
                        ConnectionState {
                            negotiated: c.negotiated || answer.version_requested
                                != PROTOCOL_VERSION_INVALID,
                            phase: Phase::Sending,
                            ..c
                        },
                        ActionState::Send(
                            framed(SEGMENT_HEADER_TYPE_VERSION, answer.wire_bytes()),
                        ),
                    )
                }
            } else if segment_type == SEGMENT_HEADER_TYPE_SMB {
                after_server(c, advance(c.server, start(bytes)))
            } else {
                (ConnectionState { phase: Phase::Header, ..c }, ActionState::ReadHeader)
            }
        },
        (Phase::Host, EventState::Reply(answer)) => match c.pending {
            Some((x, question)) => after_server(c, resumed(c.server, x, question, answer)),
            None => (ConnectionState { phase: Phase::Header, ..c }, ActionState::ReadHeader),
        },
        (Phase::Sending, EventState::Sent) => (
            ConnectionState { phase: Phase::Header, ..c },
            ActionState::ReadHeader,
        ),
        _ => (ConnectionState { phase: Phase::Closed, ..c }, ActionState::Close(Ok(()))),
    }
}

/// One vSMB connection.
pub struct Connection {
    server: Smb2Server,
    negotiated: bool,
    phase: Phase,
}

impl View for Connection {
    type V = ConnectionState;

    closed spec fn view(&self) -> ConnectionState {
        ConnectionState {
            server: self.server@,
            pending: self.server.pending(),
            negotiated: self.negotiated,
            phase: self.phase,
        }
    }
}

impl Connection {
    /// A connection's validity: the server waits for the host exactly while
    /// the connection does.
    pub closed spec fn wf(&self) -> bool {
        self.server.wf() && (self.server.pending() is Some <==> self.phase == Phase::Host)
    }

    /// Starts serving a connection. The first thing to do is to read a segment
    /// header.
    pub fn new(server: Smb2Server) -> (r: Connection)
        requires
            server.wf(),
            server.pending() is None,
        ensures
            r.wf(),
            r@ == (ConnectionState {
                server: server@,
                pending: None,
                negotiated: false,
                phase: Phase::Header,
            }),
    {
        Connection { server, negotiated: false, phase: Phase::Header }
    }

    /// Turns what the server has come to into what to do next.
    fn route(&mut self, progress: Progress, Ghost(pass): Ghost<Pass>) -> (r: Action)
        requires
            old(self).server.wf(),
            crate::server::comes_to(
                pass,
                old(self).server@,
                old(self).server.pending(),
                progress,
            ),
        ensures
            final(self).wf(),
            (final(self)@, r@) == after_server(old(self)@, pass),
    {
        match progress {
            Progress::Done(Some(bytes)) => {
                self.phase = Phase::Sending;
                Action::Send(frame_segment(SEGMENT_HEADER_TYPE_SMB, bytes.as_slice()))
            },
            Progress::Done(None) => {
                self.phase = Phase::Closed;
                Action::Close(Ok(()))
            },
            Progress::Ask(request) => {
                self.phase = Phase::Host;
                Action::Ask(request)
            },
        }
    }

    /// Takes an event that the connection waits for, and says what to do next.
    pub fn step(&mut self, event: Event) -> (r: Action)
        requires
            old(self).wf(),
            expects(old(self)@, event@),
        ensures
            final(self).wf(),
            (final(self)@, r@) == stepped(old(self)@, event@),
    {
        match event {
            Event::Header(bytes) => {
                let header: u32 = from_be_bytes(bytes);
                proof {
                    lemma_header_fields(header);
                }
                let segment_type: u32 = header & SEGMENT_HEADER_TYPE_MASK;
                let len: usize = (header & !SEGMENT_HEADER_TYPE_MASK) as usize;
                if len > MAX_SEGMENT_LEN {
                    self.phase = Phase::Closed;
                    Action::Close(Err(ConnectionError::SegmentTooLarge(len)))
                } else {
                    self.phase = Phase::Payload { segment_type, len };
                    Action::ReadPayload(len)
                }
            },
            Event::End => {
                self.phase = Phase::Closed;
                Action::Close(Ok(()))
            },
            Event::Payload(payload) => {
                let segment_type: u32 = match self.phase {
                    Phase::Payload { segment_type, len: _ } => segment_type,
                    _ => SEGMENT_HEADER_TYPE_MASK,
                };
                if segment_type == SEGMENT_HEADER_TYPE_VERSION {
                    match handle_version(payload.as_slice(), &mut self.negotiated) {
                        Ok(response) => {
                            self.phase = Phase::Sending;
                            Action::Send(
                                frame_segment(
                                    SEGMENT_HEADER_TYPE_VERSION,
                                    response.as_bytes().as_slice(),
                                ),
                            )
                        },
                        Err(error) => {
                            self.phase = Phase::Closed;
                            Action::Close(Err(error))
                        },
                    }
                } else if segment_type == SEGMENT_HEADER_TYPE_SMB {
                    let ghost pass = advance(self.server@, start(payload@));
                    let progress = self.server.handle(payload.as_slice());
                    self.route(progress, Ghost(pass))
                } else {
                    self.phase = Phase::Header;
                    Action::ReadHeader
                }
            },
            Event::Reply(reply) => {
                let ghost waiting = self.server.pending()->0;
                let ghost pass = resumed(self.server@, waiting.0, waiting.1, reply@);
                let progress = self.server.resume(reply);
                self.route(progress, Ghost(pass))
            },
            Event::Sent => {
                self.phase = Phase::Header;
                Action::ReadHeader
            },
        }
    }

    /// Whether an event is one that the connection waits for, with ids to spare
    /// for handling it.
    pub fn admits(&self, event: &Event) -> (r: bool)
        requires
            self.wf(),
        ensures
            r ==> expects(self@, event@),
            event matches Event::Header(_) ==> r == expects(self@, event@),
            event is End || event is Sent ==> r == expects(self@, event@),
            event matches Event::Payload(payload) ==> expects(self@, event@) && ids_left(
                self@.server,
                payload@.len() as int / 64,
            ) ==> r,
            event matches Event::Reply(reply) ==> expects(self@, event@) && (self@.pending matches Some(
                (x, question),
            ) && ids_left(self@.server, x.chain.commands.len() - x.next)) ==> r,
    {
        match (event, self.phase) {
            (Event::Header(_), Phase::Header) => true,
            (Event::End, Phase::Header) => true,
            (Event::Payload(payload), Phase::Payload { segment_type: _, len }) => payload.len()
                == len && self.server.ids_suffice_for(len),
            (Event::Reply(reply), Phase::Host) => match self.server.awaited() {
                Some(request) => request.accepts(reply) && self.server.ids_suffice_to_resume(),
                None => false,
            },
            (Event::Sent, Phase::Sending) => true,
            _ => false,
        }
    }

    /// Whether a protocol version has been accepted.
    pub fn is_negotiated(&self) -> (r: bool)
        ensures
            r == self@.negotiated,
    {
        self.negotiated
    }
}

/// A segment larger than this device accepts ends the connection before any of
/// it is read; no other header does.
pub proof fn law_segment_size_is_bounded(c: ConnectionState, bytes: Seq<u8>)
    requires
        c.phase == Phase::Header,
        bytes.len() == 4,
    ensures
        ({
            let len = length_bits(be32(bytes));
            let (after, action) = stepped(c, EventState::Header(bytes));
            &&& len > MAX_SEGMENT_LEN ==> action == ActionState::Close(
                Err(ConnectionError::SegmentTooLarge(len as usize)),
            )
            &&& len <= MAX_SEGMENT_LEN ==> action == ActionState::ReadPayload(len as usize)
        }),
{
}

/// A segment of a type that is neither SMB nor VERSION is skipped: nothing is
/// sent, and the connection goes on with the next segment.
pub proof fn law_unknown_segments_are_skipped(c: ConnectionState, bytes: Seq<u8>)
    requires
        c.phase matches Phase::Payload { segment_type, len } && segment_type
            != SEGMENT_HEADER_TYPE_VERSION && segment_type != SEGMENT_HEADER_TYPE_SMB,
    ensures
        stepped(c, EventState::Payload(bytes)) == (
            ConnectionState { phase: Phase::Header, ..c },
            ActionState::ReadHeader,
        ),
{
}

/// Whether a connection neither sends anything nor goes on to another segment:
/// it is closed, or waits for the host first.
pub open spec fn is_ending(step: (ConnectionState, ActionState)) -> bool {
    match step.0.phase {
        Phase::Closed => step.1 == ActionState::Close(Ok(())),
        Phase::Host => step.1 is Ask && (step.0.pending matches Some((x, question))
            && !x.chain.complete),
        _ => false,
    }
}

proof fn lemma_incomplete(c: ConnectionState, s: ServerState, x: ExchangeState)
    requires
        !x.chain.complete,
    ensures
        is_ending(after_server(c, advance(s, x))),
    decreases x.chain.commands.len() - x.next,
{
    if x.next < x.chain.commands.len() {
        match begin(s, x.current().header, x.body()) {
            Step::Done(o) => lemma_incomplete(c, o.state, x.answered(o)),
            Step::Ask(_) => {},
        }
    }
}

/// An SMB segment that cannot be decoded to its end ends the connection:
/// nothing is sent for it and no further segment is read. Where a command
/// before the undecodable part needs the host, the host is asked first.
pub proof fn law_undecodable_segment_ends_the_connection(c: ConnectionState, bytes: Seq<u8>)
    requires
        c.phase matches Phase::Payload { segment_type, len } && segment_type
            == SEGMENT_HEADER_TYPE_SMB,
        !start(bytes).chain.complete,
    ensures
        is_ending(stepped(c, EventState::Payload(bytes))),
        !crate::smb2::starts_with_header(bytes) ==> stepped(c, EventState::Payload(bytes)) == (
            ConnectionState { pending: None, phase: Phase::Closed, ..c },
            ActionState::Close(Ok(())),
        ),
{
    lemma_incomplete(c, c.server, start(bytes));
    if !crate::smb2::starts_with_header(bytes) {
        law_undecodable_segment_is_not_answered(c.server, bytes);
    }
}

/// The same once the host has answered.
pub proof fn law_undecodable_segment_ends_the_connection_on_reply(
    c: ConnectionState,
    answer: Answer,
)
    requires
        c.phase == Phase::Host,
        c.pending matches Some((x, question)) && !x.chain.complete,
    ensures
        is_ending(stepped(c, EventState::Reply(answer))),
{
    let (x, question) = c.pending->0;
    let o = finish(c.server, x.current().header, x.body(), question, answer);
    lemma_incomplete(c, o.state, x.answered(o));
}

/// A closed connection takes no further event.
pub proof fn law_closed_is_closed(c: ConnectionState, e: EventState)
    requires
        c.phase == Phase::Closed,
    ensures
        !expects(c, e),
{
}

/// What a connection waits for the host about is what the command whose turn
/// it is asked for, and the commands before it have been answered.
pub open spec fn is_consistent(c: ConnectionState) -> bool {
    c.pending matches Some((x, question)) ==> {
        &&& is_faithful(x)
        &&& x.next < x.chain.commands.len()
        &&& begin(c.server, x.current().header, x.body()) == Step::Ask(question)
    }
}

proof fn lemma_asked(s: ServerState, x: ExchangeState)
    ensures
        advance(s, x) matches Pass::Ask(s2, x2, question) ==> begin(
            s2,
            x2.current().header,
            x2.body(),
        ) == Step::Ask(question),
    decreases x.chain.commands.len() - x.next,
{
    if x.next < x.chain.commands.len() {
        match begin(s, x.current().header, x.body()) {
            Step::Done(o) => lemma_asked(o.state, x.answered(o)),
            Step::Ask(_) => {},
        }
    }
}

/// Whatever a guest sends and the host answers, a connection keeps its server's
/// tables sound, and what it waits for consistent.
pub proof fn law_connection_stays_sound(c: ConnectionState, e: EventState)
    requires
        sound(c.server),
        is_consistent(c),
        expects(c, e),
    ensures
        sound(stepped(c, e).0.server),
        is_consistent(stepped(c, e).0),
{
    match (c.phase, e) {
        (Phase::Payload { segment_type, len }, EventState::Payload(bytes)) => {
            if segment_type == SEGMENT_HEADER_TYPE_SMB {
                let x = start(bytes);
                law_segment_keeps_sound(c.server, x);
                law_segment_starts_faithful(bytes);
                law_each_command_is_answered(c.server, x);
                lemma_asked(c.server, x);
            }
        },
        (Phase::Host, EventState::Reply(answer)) => {
            let (x, question) = c.pending->0;
            let o = finish(c.server, x.current().header, x.body(), question, answer);
            law_resuming_keeps_sound(c.server, x, question, answer);
            law_each_command_is_answered_on_resuming(c.server, x, question, answer);
            lemma_asked(o.state, x.answered(o));
        },
        _ => {},
    }
}

} // verus!
