//! What holds of the server whatever a guest sends and the host answers.

use super::exchange::{advance, can_advance, can_resume, resumed, ExchangeState, Pass};
use super::model::{
    assembled, begin, can_begin, can_finish, chosen_dialect, close, create_answered,
    create_response, error_body, finish, next_page, own_id, read_answered, read_question, refused,
    response, session_setup, tree_connect, tree_disconnect, wants_single, wire_id, with_listing,
    HandleState, Outcome, ServerState, Step,
};
use crate::encode::{is_dir_class, zeros};
use crate::host::{Answer, FsOp, Question};
use crate::smb2;
use crate::smb2::{
    command, status, CloseRequest, CreateRequest, Header, IoctlRequest, QueryDirectoryRequest,
    QueryInfoRequest, ReadRequest, ReadResponse, FLAGS_SERVER_TO_REDIR, PROTOCOL_ID,
};
use crate::wire::{
    array16_of, law_write_then_read, le64, lemma_array16_of, lemma_le64, lemma_record_at, lemma_u64_at, low32, record_at, Wire,
};
use vstd::prelude::*;

verus! {

/// An assembled response starts with its header.
pub proof fn lemma_assembled(h: Header, nt_status: u32, body: Seq<u8>, trailer: Seq<u8>)
    ensures
        assembled(h, nt_status, body, trailer).len() == 64 + body.len() + trailer.len(),
        Header::responding(h, nt_status).is_at(assembled(h, nt_status, body, trailer)),
        assembled(h, nt_status, body, trailer).skip(64) == body + trailer,
{
    let head = Header::responding(h, nt_status);
    law_write_then_read(head, head, body + trailer);
    head.lemma_layout(Seq::new(64, |i: int| 0u8));
    assert(head.wire_bytes() + body + trailer =~= head.wire_bytes() + (body + trailer));
    assert(assembled(h, nt_status, body, trailer).skip(64) =~= body + trailer);
}

/// Whether `bytes` is a response to a request with header `h`: a server
/// message that echoes the request's command, message id and credit charge,
/// and its session and tree wherever the command does not assign them.
pub open spec fn is_response_to(h: Header, bytes: Seq<u8>) -> bool {
    let r = record_at::<Header>(bytes);
    &&& bytes.len() >= 64
    &&& r.is_at(bytes)
    &&& r.protocol_id == PROTOCOL_ID
    &&& r.structure_size == 64
    &&& r.command == h.command
    &&& r.message_id == h.message_id
    &&& r.credit_charge == h.credit_charge
    &&& r.flags == FLAGS_SERVER_TO_REDIR
    &&& r.next_command == 0
    &&& h.command != command::TREE_CONNECT ==> r.tree_id == h.tree_id
    &&& h.command != command::SESSION_SETUP ==> r.session_id == h.session_id
}

/// Whether a reply is a response that reports success.
spec fn well_replied(h: Header, reply: Result<Seq<u8>, u32>) -> bool {
    reply matches Ok(bytes) ==> exists|h2: Header, body: Seq<u8>, trailer: Seq<u8>|
        bytes == #[trigger] assembled(h2, status::SUCCESS, body, trailer) && h2.command == h.command
            && h2.message_id == h.message_id && h2.credit_charge == h.credit_charge && (h.command
            != command::TREE_CONNECT ==> h2.tree_id == h.tree_id) && (h.command
            != command::SESSION_SETUP ==> h2.session_id == h.session_id)
}

proof fn lemma_well_replied(h: Header, o: Outcome)
    requires
        well_replied(h, o.reply),
    ensures
        is_response_to(h, response(h, o)),
        o.reply is Ok ==> record_at::<Header>(response(h, o)).status == status::SUCCESS,
        o.reply matches Err(e) ==> record_at::<Header>(response(h, o)).status == e,
{
    match o.reply {
        Ok(bytes) => {
            let (h2, body, trailer) = choose|h2: Header, body: Seq<u8>, trailer: Seq<u8>|
                bytes == #[trigger] assembled(h2, status::SUCCESS, body, trailer) && h2.command
                    == h.command && h2.message_id == h.message_id && h2.credit_charge
                    == h.credit_charge && (h.command != command::TREE_CONNECT ==> h2.tree_id
                    == h.tree_id) && (h.command != command::SESSION_SETUP ==> h2.session_id
                    == h.session_id);
            lemma_assembled(h2, status::SUCCESS, body, trailer);
            lemma_record_at(Header::responding(h2, status::SUCCESS), bytes);
        },
        Err(e) => {
            lemma_assembled(h, e, error_body(), Seq::empty());
            lemma_record_at(Header::responding(h, e), response(h, o));
        },
    }
}

/// Every command that is answered at once gets a response to it, with status
/// SUCCESS unless it is refused, and with the refusing status if it is.
pub proof fn law_immediate_response(s: ServerState, h: Header, body: Seq<u8>, o: Outcome)
    requires
        begin(s, h, body) == Step::Done(o),
    ensures
        is_response_to(h, response(h, o)),
        o.reply is Ok ==> record_at::<Header>(response(h, o)).status == status::SUCCESS,
        o.reply matches Err(e) ==> record_at::<Header>(response(h, o)).status == e,
{
    reveal(begin);
    assert(well_replied(h, o.reply));
    lemma_well_replied(h, o);
}

/// Every command that needed the host gets a response to it once the host has
/// answered, with status SUCCESS unless it is refused, and with the refusing
/// status if it is.
pub proof fn law_answered_response(
    s: ServerState,
    h: Header,
    body: Seq<u8>,
    question: Question,
    answer: Answer,
)
    requires
        begin(s, h, body) == Step::Ask(question),
    ensures
        ({
            let o = finish(s, h, body, question, answer);
            &&& is_response_to(h, response(h, o))
            &&& o.reply is Ok ==> record_at::<Header>(response(h, o)).status == status::SUCCESS
            &&& o.reply matches Err(e) ==> record_at::<Header>(response(h, o)).status == e
        }),
{
    reveal(begin);
    reveal(finish);
    let o = finish(s, h, body, question, answer);
    assert(well_replied(h, o.reply));
    lemma_well_replied(h, o);
}

/// What holds of the tables at all times: ids are never 0 and below the counter
/// that mints them; every connected tree refers to a share; every open handle is on a
/// connected tree; and no handle is past the end of its listing.
pub open spec fn sound(s: ServerState) -> bool {
    &&& s.next_session_id >= 1
    &&& s.next_tree_id >= 1
    &&& s.next_file_id >= 1
    &&& forall|id: u32| #[trigger]
        s.trees.contains_key(id) ==> 1 <= id < s.next_tree_id && s.shares.contains_key(s.trees[id])
    &&& forall|id: u64| #[trigger]
        s.open_files.contains_key(id) ==> 1 <= id < s.next_file_id && s.trees.contains_key(
            s.open_files[id].tree_id,
        ) && sound_handle(s.open_files[id])
}

/// A handle's cursor is within its listing.
pub open spec fn sound_handle(handle: HandleState) -> bool {
    &&& handle.cursor >= 0
    &&& handle.listing matches Some(entries) ==> handle.cursor <= entries.len()
}

/// A connection starts with sound tables.
pub proof fn law_initially_sound(shares: Map<Seq<char>, Seq<char>>)
    ensures
        sound(ServerState::initial(shares)),
{
}

proof fn lemma_next_page_sound(s: ServerState, h: Header, req: QueryDirectoryRequest)
    requires
        sound(s),
        s.open_files.contains_key(own_id(req.file_id)),
        s.open_files[own_id(req.file_id)].listing is Some,
    ensures
        sound(next_page(s, h, req).state),
{
    let handle = s.open_files[own_id(req.file_id)];
    let entries = handle.listing->0;
    if handle.cursor < entries.len() {
        crate::encode::lemma_page_end(
            req.file_information_class,
            entries,
            handle.cursor,
            0,
            req.output_buffer_length as int,
            wants_single(req),
        );
    }
}

/// A command that is answered at once keeps the tables sound.
pub proof fn law_begin_keeps_sound(s: ServerState, h: Header, body: Seq<u8>, o: Outcome)
    requires
        sound(s),
        can_begin(s, h, body),
        begin(s, h, body) == Step::Done(o),
    ensures
        sound(o.state),
{
    reveal(begin);
    if h.command == command::QUERY_DIRECTORY {
        let req = record_at::<QueryDirectoryRequest>(body);
        let id = own_id(req.file_id);
        if s.open_files.contains_key(id) && s.open_files[id].listing is Some {
            lemma_next_page_sound(s, h, req);
        }
    }
}

/// A command that needed the host keeps the tables sound, whatever the host
/// answers.
pub proof fn law_finish_keeps_sound(
    s: ServerState,
    h: Header,
    body: Seq<u8>,
    question: Question,
    answer: Answer,
)
    requires
        sound(s),
        begin(s, h, body) == Step::Ask(question),
        can_finish(s, h, answer),
    ensures
        sound(finish(s, h, body, question, answer).state),
{
    reveal(begin);
    reveal(finish);
    if h.command == command::QUERY_DIRECTORY {
        let req = record_at::<QueryDirectoryRequest>(body);
        let id = own_id(req.file_id);
        if let Answer::Listing(Ok(entries)) = answer {
            let listed = with_listing(s, id, entries);
            assert(sound(listed));
            lemma_next_page_sound(listed, h, req);
        }
    }
}

/// Whether one state may come after another as far as ids go: the counters have
/// not gone back, and every tree and handle that was not there before has an id
/// that was not handed out before.
pub open spec fn ids_go_on(s: ServerState, after: ServerState) -> bool {
    &&& s.next_session_id <= after.next_session_id
    &&& s.next_tree_id <= after.next_tree_id
    &&& s.next_file_id <= after.next_file_id
    &&& forall|id: u32| #[trigger]
        after.trees.contains_key(id) && !s.trees.contains_key(id) ==> s.next_tree_id <= id
            < after.next_tree_id
    &&& forall|id: u64| #[trigger]
        after.open_files.contains_key(id) && !s.open_files.contains_key(id) ==> s.next_file_id
            <= id < after.next_file_id
}

/// Ids are never handed out twice: a command that is answered at once takes no
/// counter back, and what it adds has a fresh id.
pub proof fn law_begin_mints_fresh_ids(s: ServerState, h: Header, body: Seq<u8>, o: Outcome)
    requires
        can_begin(s, h, body),
        begin(s, h, body) == Step::Done(o),
    ensures
        ids_go_on(s, o.state),
{
    reveal(begin);
}

/// Ids are never handed out twice: a command that needed the host takes no
/// counter back, and what it adds has a fresh id, whatever the host answers.
pub proof fn law_finish_mints_fresh_ids(
    s: ServerState,
    h: Header,
    body: Seq<u8>,
    question: Question,
    answer: Answer,
)
    requires
        begin(s, h, body) == Step::Ask(question),
        can_finish(s, h, answer),
    ensures
        ids_go_on(s, finish(s, h, body, question, answer).state),
{
    reveal(begin);
    reveal(finish);
}

/// The same over any number of commands: what follows a state that follows
/// another follows that one too.
pub proof fn law_ids_go_on_and_on(a: ServerState, b: ServerState, c: ServerState)
    requires
        ids_go_on(a, b),
        ids_go_on(b, c),
    ensures
        ids_go_on(a, c),
{
    assert forall|id: u32| #[trigger]
        c.trees.contains_key(id) && !a.trees.contains_key(id) implies a.next_tree_id <= id
        < c.next_tree_id by {
        if b.trees.contains_key(id) {
        }
    }
    assert forall|id: u64| #[trigger]
        c.open_files.contains_key(id) && !a.open_files.contains_key(id) implies a.next_file_id
        <= id < c.next_file_id by {
        if b.open_files.contains_key(id) {
        }
    }
}

/// The state after working through a segment, as far as it has got.
pub open spec fn state_after(pass: Pass) -> ServerState {
    match pass {
        Pass::Done(s, _) => s,
        Pass::Ask(s, _, _) => s,
    }
}

/// A segment keeps the tables sound, whatever it holds.
pub proof fn law_segment_keeps_sound(s: ServerState, x: ExchangeState)
    requires
        sound(s),
        can_advance(s, x),
    ensures
        sound(state_after(advance(s, x))),
    decreases x.chain.commands.len() - x.next,
{
    if x.next < x.chain.commands.len() {
        match begin(s, x.current().header, x.body()) {
            Step::Done(o) => {
                law_begin_keeps_sound(s, x.current().header, x.body(), o);
                law_segment_keeps_sound(o.state, x.answered(o));
            },
            Step::Ask(_) => {},
        }
    }
}

/// Going on with a segment keeps the tables sound, whatever the host answers.
pub proof fn law_resuming_keeps_sound(
    s: ServerState,
    x: ExchangeState,
    question: Question,
    answer: Answer,
)
    requires
        sound(s),
        begin(s, x.current().header, x.body()) == Step::Ask(question),
        can_resume(s, x, question, answer),
    ensures
        sound(state_after(resumed(s, x, question, answer))),
{
    let o = finish(s, x.current().header, x.body(), question, answer);
    law_finish_keeps_sound(s, x.current().header, x.body(), question, answer);
    law_segment_keeps_sound(o.state, x.answered(o));
}

/// The server asks the host only about files below the directory of one of its
/// shares, and no command changes the shares.
pub proof fn law_only_shares_are_touched(
    s: ServerState,
    h: Header,
    body: Seq<u8>,
    question: Question,
    answer: Answer,
)
    ensures
        begin(s, h, body) matches Step::Ask(q) ==> s.shares.contains_value(q.root),
        begin(s, h, body) matches Step::Done(o) ==> o.state.shares == s.shares,
        finish(s, h, body, question, answer).state.shares == s.shares,
{
    reveal(begin);
    reveal(finish);
    match begin(s, h, body) {
        Step::Ask(q) => {
            assert(exists|share: Seq<char>| #[trigger]
                s.shares.contains_key(share) && s.shares[share] == q.root);
        },
        Step::Done(_) => {},
    }
}

/// A command that is refused at once changes nothing.
pub proof fn law_refusal_changes_nothing(s: ServerState, h: Header, body: Seq<u8>, o: Outcome)
    requires
        begin(s, h, body) == Step::Done(o),
        o.reply is Err,
    ensures
        o.state == s,
{
    reveal(begin);
}

/// A command that is refused on the host's answer changes nothing, but for a
/// QUERY_DIRECTORY that has got a listing: the handle keeps it, unread.
pub proof fn law_late_refusal_changes_nothing(
    s: ServerState,
    h: Header,
    body: Seq<u8>,
    question: Question,
    answer: Answer,
)
    requires
        begin(s, h, body) == Step::Ask(question),
        finish(s, h, body, question, answer).reply is Err,
    ensures
        ({
            let after = finish(s, h, body, question, answer).state;
            ||| after == s
            ||| {
                &&& h.command == command::QUERY_DIRECTORY
                &&& answer matches Answer::Listing(Ok(entries)) && after == with_listing(
                    s,
                    own_id(record_at::<QueryDirectoryRequest>(body).file_id),
                    entries,
                )
            }
        }),
{
    reveal(begin);
    reveal(finish);
}

/// Whether the server serves a command at all.
pub open spec fn is_served(code: u16) -> bool {
    code == command::NEGOTIATE || code == command::SESSION_SETUP || code == command::LOGOFF || code
        == command::TREE_CONNECT || code == command::TREE_DISCONNECT || code == command::CREATE
        || code == command::CLOSE || code == command::READ || code == command::IOCTL || code
        == command::QUERY_DIRECTORY || code == command::QUERY_INFO
}

/// Any command outside the read-only subset, WRITE and FLUSH among them, is
/// refused as not supported and changes nothing.
pub proof fn law_unserved_commands_are_refused(s: ServerState, h: Header, body: Seq<u8>)
    requires
        !is_served(h.command),
    ensures
        begin(s, h, body) == Step::Done(refused(s, status::NOT_SUPPORTED)),
        !is_served(command::WRITE),
        !is_served(command::FLUSH),
{
    reveal(begin);
}

/// A CREATE that would do anything but open an existing file is denied.
pub proof fn law_create_only_opens(s: ServerState, h: Header, body: Seq<u8>)
    requires
        sound(s),
        h.command == command::CREATE,
        s.trees.contains_key(h.tree_id),
        body.len() >= 56,
        record_at::<CreateRequest>(body).create_disposition != smb2::FILE_OPEN,
    ensures
        begin(s, h, body) == Step::Done(refused(s, status::ACCESS_DENIED)),
{
    reveal(begin);
}

/// On the inputs that the host does not decide, an open is put to the host:
/// the named path below the directory of the tree's share.
pub proof fn law_open_is_put_to_the_host(s: ServerState, h: Header, body: Seq<u8>, name: Seq<char>)
    requires
        sound(s),
        h.command == command::CREATE,
        s.trees.contains_key(h.tree_id),
        body.len() >= 56,
        record_at::<CreateRequest>(body).create_disposition == smb2::FILE_OPEN,
        super::model::text_in(
            body,
            record_at::<CreateRequest>(body).name_offset,
            record_at::<CreateRequest>(body).name_length,
        ) == Some(name),
    ensures
        begin(s, h, body) == Step::Ask(
            Question { root: s.shares[s.trees[h.tree_id]], rel: name, op: FsOp::Stat },
        ),
{
    reveal(begin);
}

/// A FileId holds the file id it was made from.
pub proof fn law_file_id_round_trip(id: u64)
    ensures
        own_id(wire_id(id)) == id,
        wire_id(id)@ == le64(id) + zeros(8),
{
    lemma_le64(id);
    let s = le64(id) + zeros(8);
    lemma_array16_of(s);
    assert(array16_of(s)@ == s);
    assert(wire_id(id)@ == s);
    lemma_u64_at(s, 0, id);
    assert(s.subrange(0, 8) =~= le64(id));
}

/// Once a file has been opened, reading through the FileId that the CREATE
/// response carries is put to the host as a read of the very path that was
/// opened, at the requested offset and length.
pub proof fn law_open_then_read(
    s: ServerState,
    h: Header,
    rel: Seq<char>,
    info: crate::backing::FileInfo,
    body: Seq<u8>,
)
    requires
        sound(s),
        s.trees.contains_key(h.tree_id),
        s.next_file_id < u64::MAX,
        !info.is_dir,
        body.len() >= 48,
        record_at::<ReadRequest>(body).file_id == create_response(s.next_file_id, info).file_id,
    ensures
        ({
            let o = create_answered(s, h, rel, Answer::Stat(Ok(info)));
            let req = record_at::<ReadRequest>(body);
            &&& !s.open_files.contains_key(s.next_file_id)
            &&& o.reply is Ok
            &&& read_question(o.state, body) == Ok::<Question, u32>(
                Question {
                    root: s.shares[s.trees[h.tree_id]],
                    rel,
                    op: FsOp::Read { offset: req.offset, len: req.length },
                },
            )
        }),
{
    law_file_id_round_trip(s.next_file_id);
}

/// Distinct files that are open have distinct ids: a fresh handle takes the
/// place of none.
pub proof fn law_opening_keeps_other_handles(
    s: ServerState,
    h: Header,
    rel: Seq<char>,
    answer: Answer,
    id: u64,
)
    requires
        sound(s),
        s.open_files.contains_key(id),
    ensures
        create_answered(s, h, rel, answer).state.open_files.contains_key(id),
        create_answered(s, h, rel, answer).state.open_files[id] == s.open_files[id],
{
}

/// What a READ returns: exactly the bytes that the host read, right where the
/// response says they are, in the number it says.
pub proof fn law_read_returns_the_data(s: ServerState, h: Header, len: u32, data: Seq<u8>)
    requires
        data.len() <= len,
        data.len() > 0 || len == 0,
    ensures
        ({
            let o = read_answered(s, h, len, Answer::Data(Ok(data)));
            let bytes = response(h, o);
            let r = record_at::<ReadResponse>(bytes.skip(64));
            &&& o.state == s
            &&& o.reply is Ok
            &&& r.is_at(bytes.skip(64))
            &&& r.data_length == data.len()
            &&& bytes.len() == r.data_offset + r.data_length
            &&& bytes.skip(r.data_offset as int) == data
        }),
{
    let fixed = ReadResponse {
        structure_size: 17,
        data_offset: 80,
        reserved: 0,
        data_length: low32(data.len() as int),
        data_remaining: 0,
        reserved2: 0,
    };
    let bytes = assembled(h, status::SUCCESS, fixed.wire_bytes(), data);
    lemma_assembled(h, status::SUCCESS, fixed.wire_bytes(), data);
    fixed.lemma_layout(Seq::new(16, |i: int| 0u8));
    law_write_then_read(fixed, fixed, data);
    lemma_record_at(fixed, bytes.skip(64));
    assert(bytes.skip(80) =~= bytes.skip(64).skip(16));
    assert((fixed.wire_bytes() + data).skip(16) =~= data);
}

/// Reading past the end of a file is refused as such.
pub proof fn law_read_past_the_end(s: ServerState, h: Header, len: u32)
    requires
        len > 0,
    ensures
        read_answered(s, h, len, Answer::Data(Ok(Seq::empty()))) == refused(s, status::END_OF_FILE),
{
}

/// A handle that is not open is no longer good for anything: READ, CLOSE,
/// QUERY_DIRECTORY, and any served QUERY_INFO or IOCTL on it are refused.
pub proof fn law_unknown_handle_is_refused(s: ServerState, h: Header, body: Seq<u8>)
    ensures
        h.command == command::READ && body.len() >= 48 && !s.open_files.contains_key(
            own_id(record_at::<ReadRequest>(body).file_id),
        ) ==> begin(s, h, body) == Step::Done(refused(s, status::INVALID_PARAMETER)),
        h.command == command::CLOSE && body.len() >= 24 && !s.open_files.contains_key(
            own_id(record_at::<CloseRequest>(body).file_id),
        ) ==> begin(s, h, body) == Step::Done(refused(s, status::INVALID_PARAMETER)),
        h.command == command::QUERY_DIRECTORY && body.len() >= 32 && !s.open_files.contains_key(
            own_id(record_at::<QueryDirectoryRequest>(body).file_id),
        ) ==> begin(s, h, body) == Step::Done(refused(s, status::INVALID_PARAMETER)),
        h.command == command::IOCTL && body.len() >= 56 && record_at::<IoctlRequest>(body).ctl_code
            == smb2::FSCTL_GET_REPARSE_POINT && !s.open_files.contains_key(
            own_id(record_at::<IoctlRequest>(body).file_id),
        ) ==> begin(s, h, body) == Step::Done(refused(s, status::INVALID_PARAMETER)),
        h.command == command::QUERY_INFO && body.len() >= 40 && (record_at::<QueryInfoRequest>(
            body,
        ).info_type == smb2::INFO_TYPE_FILE || record_at::<QueryInfoRequest>(body).info_type
            == smb2::INFO_TYPE_SECURITY) && !s.open_files.contains_key(
            own_id(record_at::<QueryInfoRequest>(body).file_id),
        ) ==> begin(s, h, body) == Step::Done(refused(s, status::INVALID_PARAMETER)),
{
    reveal(begin);
}

/// A CLOSE that succeeds takes the handle away, and no other.
pub proof fn law_close_takes_the_handle(s: ServerState, h: Header, body: Seq<u8>)
    requires
        close(s, h, body).reply is Ok,
    ensures
        ({
            let id = own_id(record_at::<CloseRequest>(body).file_id);
            let after = close(s, h, body).state;
            &&& s.open_files.contains_key(id)
            &&& !after.open_files.contains_key(id)
            &&& forall|other: u64|
                other != id ==> (#[trigger] after.open_files.contains_key(other)
                    <==> s.open_files.contains_key(other)) && after.open_files[other]
                    == s.open_files[other]
        }),
{
}

/// A TREE_DISCONNECT takes the tree and all handles on it away, and no others;
/// the tree then refuses further opens.
pub proof fn law_disconnect_takes_the_tree(s: ServerState, h: Header, later: Header, body: Seq<u8>)
    requires
        later.command == command::CREATE,
        later.tree_id == h.tree_id,
    ensures
        ({
            let after = tree_disconnect(s, h).state;
            &&& !after.trees.contains_key(h.tree_id)
            &&& forall|id: u64| #[trigger]
                after.open_files.contains_key(id) <==> s.open_files.contains_key(id)
                    && s.open_files[id].tree_id != h.tree_id
            &&& forall|id: u64| #[trigger]
                after.open_files.contains_key(id) ==> after.open_files[id] == s.open_files[id]
            &&& begin(after, later, body) == Step::Done(refused(after, status::INVALID_PARAMETER))
        }),
{
    reveal(begin);
}

/// The dialect agreed on is one that the client offered, or 2.0.2 on the
/// wildcard; it is 2.0.2 wherever the client offered that; and there is one
/// wherever the client offered 2.0.2, 2.1 or the wildcard. It is always a
/// concrete dialect, never the wildcard.
pub proof fn law_dialect_was_offered(offered: Seq<u16>)
    ensures
        chosen_dialect(offered) matches Some(d) ==> offered.contains(d) || (d
            == smb2::DIALECT_2_0_2 && offered.contains(smb2::DIALECT_WILDCARD)),
        chosen_dialect(offered) matches Some(d) ==> d == smb2::DIALECT_2_0_2 || d
            == smb2::DIALECT_2_1_0,
        offered.contains(smb2::DIALECT_2_0_2) ==> chosen_dialect(offered) == Some(
            smb2::DIALECT_2_0_2,
        ),
        chosen_dialect(offered) is None <==> !offered.contains(smb2::DIALECT_2_0_2)
            && !offered.contains(smb2::DIALECT_2_1_0) && !offered.contains(
            smb2::DIALECT_WILDCARD,
        ),
{
}

/// A session setup that is not malformed always succeeds, with a session id
/// that is not 0 and that the response carries.
pub proof fn law_session_is_granted(s: ServerState, h: Header, body: Seq<u8>)
    requires
        sound(s),
        body.len() >= 24,
    ensures
        ({
            let o = session_setup(s, h, body);
            let id = record_at::<Header>(response(h, o)).session_id;
            &&& o.reply is Ok
            &&& id != 0
            &&& o.state.sessions.contains(id)
            &&& h.session_id != 0 ==> id == h.session_id
        }),
{
    let id = if h.session_id == 0 {
        s.next_session_id
    } else {
        h.session_id
    };
    let routed = Header { session_id: id, ..h };
    let fixed = smb2::SessionSetupResponse {
        structure_size: 9,
        session_flags: smb2::SESSION_FLAG_IS_GUEST,
        security_buffer_offset: 72,
        security_buffer_length: 0,
    };
    lemma_assembled(routed, status::SUCCESS, fixed.wire_bytes(), Seq::empty());
    lemma_record_at(
        Header::responding(routed, status::SUCCESS),
        response(h, session_setup(s, h, body)),
    );
}

/// A tree connection that succeeds is on the share that the request names,
/// under an id that is not 0, was not in use, and that the response carries.
pub proof fn law_tree_is_fresh(s: ServerState, h: Header, body: Seq<u8>)
    requires
        sound(s),
        tree_connect(s, h, body).reply is Ok,
    ensures
        ({
            let o = tree_connect(s, h, body);
            let id = record_at::<Header>(response(h, o)).tree_id;
            &&& id != 0
            &&& !s.trees.contains_key(id)
            &&& o.state.trees.contains_key(id)
            &&& super::model::requested_share(body) == Some(o.state.trees[id])
            &&& s.shares.contains_key(o.state.trees[id])
        }),
{
    let routed = Header { tree_id: s.next_tree_id, ..h };
    let fixed = smb2::TreeConnectResponse {
        structure_size: 16,
        share_type: smb2::SHARE_TYPE_DISK,
        reserved: 0,
        share_flags: 0,
        capabilities: 0,
        maximal_access: super::model::READ_ONLY_ACCESS,
    };
    lemma_assembled(routed, status::SUCCESS, fixed.wire_bytes(), Seq::empty());
    lemma_record_at(
        Header::responding(routed, status::SUCCESS),
        response(h, tree_connect(s, h, body)),
    );
}

/// Directory listings are paged through the handle: a page starts where the
/// one before it ended, the end of the listing is reported as such, and nothing
/// but the handle's own position changes.
pub proof fn law_pages_follow_one_another(s: ServerState, h: Header, req: QueryDirectoryRequest)
    requires
        sound(s),
        s.open_files.contains_key(own_id(req.file_id)),
        s.open_files[own_id(req.file_id)].listing is Some,
        is_dir_class(req.file_information_class),
    ensures
        ({
            let id = own_id(req.file_id);
            let handle = s.open_files[id];
            let entries = handle.listing->0;
            let o = next_page(s, h, req);
            &&& o.reply is Ok <==> handle.cursor < entries.len()
            &&& o.reply is Err ==> o == refused(s, status::NO_MORE_FILES)
            &&& o.reply is Ok ==> {
                let after = o.state.open_files[id];
                &&& handle.cursor < after.cursor <= entries.len()
                &&& wants_single(req) ==> after.cursor == handle.cursor + 1
                &&& after == HandleState { cursor: after.cursor, ..handle }
                &&& o.state == ServerState {
                    open_files: s.open_files.insert(id, after),
                    ..s
                }
                &&& o.reply == Ok::<Seq<u8>, u32>(
                    super::model::output_buffer_response(
                        h,
                        crate::encode::dir_page(
                            req.file_information_class,
                            entries.subrange(handle.cursor, after.cursor),
                        ),
                    ),
                )
            }
        }),
{
    let handle = s.open_files[own_id(req.file_id)];
    let entries = handle.listing->0;
    if handle.cursor < entries.len() {
        crate::encode::laws::law_page_bounds(
            req.file_information_class,
            entries,
            handle.cursor,
            req.output_buffer_length as int,
            wants_single(req),
        );
    }
}

} // verus!
