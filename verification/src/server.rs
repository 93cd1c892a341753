//! A minimal read-only SMB2 server for vSMB.
//!
//! This drives the connect path (NEGOTIATE, SESSION_SETUP, TREE_CONNECT) and
//! the read path (CREATE, READ, QUERY_INFO, QUERY_DIRECTORY, IOCTL, CLOSE). It
//! operates on decoded SMB2 segments (the vSMB transport framing is handled by
//! [`crate::connection`]) and produces SMB2 response byte buffers. The server
//! is unconditionally read-only, matching the image-layer use case.
//!
//! The server performs no I/O. Where a command needs the host filesystem,
//! [`Smb2Server::handle`] hands out a request, and [`Smb2Server::resume`] goes
//! on with the host's reply.

use crate::host::{answers, Answer, FsReply, FsRequest, Question};
use crate::text::lowercase;
use compound::{
    assemble_compound, byte_views, capture_fid, command_views, decode_chain, fid_view,
    lemma_chain_len, resolve_body, Chain, Command,
};
use exchange::{
    advance, can_advance, can_resume, ids_left, lemma_ids_suffice, lemma_ids_suffice_to_resume,
    resumed, start, ExchangeState, Pass,
};
use laws::{law_answered_response, law_immediate_response};
use model::{begin, Outcome, ServerState, Step};
use tables::{reply_view, respond, Begun, Tables};
use vstd::prelude::*;

pub mod chain_laws;
pub mod command_laws;
pub mod compound;
pub mod exchange;
pub mod laws;
pub mod model;
pub mod related_laws;
pub mod tables;

verus! {

/// The built-in keepalive share that the guest vSMB redirector opens to
/// establish and maintain the connection.
pub const EMPTY_SHARE: &'static str = "defaultemptyshare";

/// A configured read-only share.
#[derive(Clone)]
pub struct Share {
    /// The host directory backing the share.
    pub root: String,
}

/// A share's name and directory.
pub struct ShareConfig {
    /// The configured name.
    pub name: Seq<char>,
    /// The host directory backing the share.
    pub root: Seq<char>,
}

/// The directory behind each share of a list, by lower-case name. Later shares
/// take the place of earlier ones of the same name.
pub open spec fn listed_shares(shares: Seq<ShareConfig>) -> Map<Seq<char>, Seq<char>>
    decreases shares.len(),
{
    if shares.len() == 0 {
        Map::empty()
    } else {
        listed_shares(shares.drop_last()).insert(lowercase(shares.last().name), shares.last().root)
    }
}

/// The shares that a server exposes: those configured, and the built-in empty
/// one unless it is among them.
pub open spec fn exposed_shares(shares: Seq<ShareConfig>, empty_dir: Seq<char>) -> Map<
    Seq<char>,
    Seq<char>,
> {
    let listed = listed_shares(shares);
    if listed.contains_key(EMPTY_SHARE@) {
        listed
    } else {
        listed.insert(EMPTY_SHARE@, empty_dir)
    }
}

/// The values of a list of named shares.
pub open spec fn config_views(shares: Seq<(String, Share)>) -> Seq<ShareConfig> {
    Seq::new(shares.len(), |i: int| ShareConfig { name: shares[i].0@, root: shares[i].1.root@ })
}

/// How far the server got with a segment.
pub enum Progress {
    /// It is done with it. The bytes, if any, are to be sent back (already
    /// SMB2-framed, without the vSMB segment header).
    Done(Option<Vec<u8>>),
    /// It needs the host's reply to this request.
    Ask(FsRequest),
}

/// How far a segment has been worked through.
struct Exchange {
    commands: Vec<Command>,
    complete: bool,
    next: usize,
    opened: Option<[u8; 16]>,
    responses: Vec<Vec<u8>>,
}

impl View for Exchange {
    type V = ExchangeState;

    closed spec fn view(&self) -> ExchangeState {
        ExchangeState {
            chain: Chain { commands: command_views(self.commands@), complete: self.complete },
            next: self.next as int,
            opened: fid_view(self.opened),
            responses: byte_views(self.responses@),
        }
    }
}

impl Exchange {
    spec fn wf(&self) -> bool {
        &&& self.next <= self.commands@.len()
        &&& forall|i: int|
            0 <= i < self.responses@.len() ==> (#[trigger] self.responses@[i])@.len() >= 64
    }

    /// Takes the response to the command whose turn it is.
    fn take_response(&mut self, response: Vec<u8>, Ghost(o): Ghost<Outcome>)
        requires
            old(self).wf(),
            old(self).next < old(self).commands@.len(),
            response@ == model::response(old(self)@.current().header, o),
            response@.len() >= 64,
        ensures
            final(self).wf(),
            final(self)@ == old(self)@.answered(o),
    {
        let ghost before = self.responses@;
        let count: usize = self.commands.len();
        assert(self.next < count);
        let code: u16 = self.commands[self.next].header.command;
        if let Some(fid) = capture_fid(code, &response) {
            self.opened = Some(fid);
        }
        self.responses.push(response);
        self.next = self.next + 1;
        assert(byte_views(self.responses@) =~= byte_views(before).push(response@));
        assert(self@ == old(self)@.answered(o));
    }
}

/// A command that waits for the host.
struct Waiting {
    exchange: Exchange,
    body: Vec<u8>,
    request: FsRequest,
}

/// The read-only SMB2 server state for a single vSMB connection.
pub struct Smb2Server {
    tables: Tables,
    waiting: Option<Waiting>,
}

impl View for Smb2Server {
    type V = ServerState;

    closed spec fn view(&self) -> ServerState {
        self.tables@
    }
}

fn copy_request(request: &FsRequest) -> (r: FsRequest)
    ensures
        r@ == request@,
{
    FsRequest { root: request.root.clone(), rel: request.rel.clone(), op: request.op }
}

/// Whether working through a segment came to `pass`, as far as the server's
/// state, what it waits for and what it returned show.
pub open spec fn comes_to(
    pass: Pass,
    state: ServerState,
    pending: Option<(ExchangeState, Question)>,
    progress: Progress,
) -> bool {
    match pass {
        Pass::Done(s, out) => {
            &&& state == s
            &&& pending is None
            &&& match progress {
                Progress::Done(Some(bytes)) => out == Some(bytes@),
                Progress::Done(None) => out is None,
                Progress::Ask(_) => false,
            }
        },
        Pass::Ask(s, x, question) => {
            &&& state == s
            &&& pending == Some((x, question))
            &&& progress matches Progress::Ask(request) && request@ == question
        },
    }
}

impl Smb2Server {
    /// The server's validity: what it waits for is what the command whose turn
    /// it is asked for.
    pub closed spec fn wf(&self) -> bool {
        self.waiting matches Some(w) ==> {
            &&& w.exchange.wf()
            &&& w.exchange.next < w.exchange.commands@.len()
            &&& w.body@ == w.exchange@.body()
            &&& begin(self.tables@, w.exchange@.current().header, w.body@) == Step::Ask(w.request@)
        }
    }

    /// The segment that waits for the host, and the question put to it.
    pub closed spec fn pending(&self) -> Option<(ExchangeState, Question)> {
        match self.waiting {
            Some(w) => Some((w.exchange@, w.request@)),
            None => None,
        }
    }

    /// Creates a server exposing the given shares (keyed by share name,
    /// case-insensitive). `empty_dir` is an empty host directory to back the
    /// built-in keepalive share with.
    pub fn new(shares: Vec<(String, Share)>, empty_dir: &str) -> (r: Smb2Server)
        ensures
            r.wf(),
            r.pending() is None,
            r@ == ServerState::initial(exposed_shares(config_views(shares@), empty_dir@)),
    {
        let ghost all = config_views(shares@);
        let mut tables = Tables::new();
        let mut i: usize = 0;
        assert(all.take(0) =~= Seq::<ShareConfig>::empty());
        while i < shares.len()
            invariant
                i <= shares@.len(),
                all == config_views(shares@),
                tables@ == ServerState::initial(listed_shares(all.take(i as int))),
            decreases shares@.len() - i,
        {
            tables.add_share(shares[i].0.as_str(), shares[i].1.root.as_str());
            assert(all.take(i + 1).drop_last() =~= all.take(i as int));
            assert(all.take(i + 1).last() == all[i as int]);
            i = i + 1;
        }
        assert(all.take(i as int) =~= all);
        let empty_name = EMPTY_SHARE.to_owned();
        if !tables.has_share(&empty_name) {
            proof {
                reveal_strlit("defaultemptyshare");
                assert(lowercase(EMPTY_SHARE@) =~= EMPTY_SHARE@);
            }
            tables.add_share(EMPTY_SHARE, empty_dir);
        }
        Smb2Server { tables, waiting: None }
    }

    /// Works through the commands of a segment until it is done or a command
    /// needs the host.
    fn work_through(&mut self, segment: Exchange) -> (r: Progress)
        requires
            segment.wf(),
            can_advance(old(self)@, segment@),
            old(self).pending() is None,
        ensures
            final(self).wf(),
            comes_to(
                advance(old(self)@, segment@),
                final(self)@,
                final(self).pending(),
                r,
            ),
    {
        let mut exchange = segment;
        let ghost target = advance(self@, exchange@);
        while exchange.next < exchange.commands.len()
            invariant
                self.waiting is None,
                exchange.wf(),
                can_advance(self@, exchange@),
                advance(self@, exchange@) == target,
                target == advance(old(self)@, segment@),
            decreases exchange.commands@.len() - exchange.next,
        {
            let ghost before = exchange@;
            let ghost state = self@;
            let body = resolve_body(&exchange.commands[exchange.next], exchange.opened);
            let header = exchange.commands[exchange.next].header;
            assert(exchange@.current() == exchange.commands@[exchange.next as int]@);
            assert(body@ == exchange@.body());
            match self.tables.begin(&header, body.as_slice()) {
                Begun::Ask(request) => {
                    let asked = copy_request(&request);
                    self.waiting = Some(Waiting { exchange, body, request });
                    return Progress::Ask(asked);
                },
                Begun::Done(reply) => {
                    let ghost o = Outcome { state: self@, reply: reply_view(reply) };
                    assert(begin(state, header, body@) == Step::Done(o));
                    proof {
                        law_immediate_response(state, header, body@, o);
                    }
                    let response = respond(&header, reply);
                    assert(response@ == model::response(header, o));
                    exchange.take_response(response, Ghost(o));
                    assert(exchange@ == before.answered(o));
                },
            }
        }
        if !exchange.complete {
            return Progress::Done(None);
        }
        Progress::Done(Some(assemble_compound(&exchange.responses)))
    }

    /// Handles one decoded SMB2 request segment.
    ///
    /// Supports SMB2 compound requests (MS-SMB2 2.2.1.2 / 3.3.5.2.7): the
    /// segment may chain several commands via the header `NextCommand` field,
    /// and "related" compounds reuse the FileId produced by a preceding
    /// `CREATE` (sentinel FileId `0xFFFF...`). The response is a matching
    /// compound. There is none if the request could not be decoded to its end
    /// (the caller should drop the connection).
    pub fn handle(&mut self, payload: &[u8]) -> (r: Progress)
        requires
            old(self).wf(),
            old(self).pending() is None,
            can_advance(old(self)@, start(payload@)),
        ensures
            final(self).wf(),
            comes_to(
                advance(old(self)@, start(payload@)),
                final(self)@,
                final(self).pending(),
                r,
            ),
    {
        let (commands, complete) = decode_chain(payload);
        let exchange = Exchange {
            commands,
            complete,
            next: 0,
            opened: None,
            responses: Vec::new(),
        };
        assert(byte_views(exchange.responses@) =~= Seq::<Seq<u8>>::empty());
        assert(exchange@ == start(payload@));
        self.work_through(exchange)
    }

    /// Goes on with a segment, on the host's reply to the request handed out.
    pub fn resume(&mut self, reply: FsReply) -> (r: Progress)
        requires
            old(self).wf(),
            old(self).pending() matches Some((x, question)) && answers(question.op, reply@)
                && can_resume(old(self)@, x, question, reply@),
        ensures
            final(self).wf(),
            old(self).pending() matches Some((x, question)) && comes_to(
                resumed(old(self)@, x, question, reply@),
                final(self)@,
                final(self).pending(),
                r,
            ),
    {
        let waiting = match self.waiting.take() {
            Some(waiting) => waiting,
            None => return Progress::Done(None),
        };
        let mut exchange = waiting.exchange;
        let ghost before = exchange@;
        let ghost state = self@;
        let header = exchange.commands[exchange.next].header;
        assert(exchange@.current() == exchange.commands@[exchange.next as int]@);
        let ghost answer = reply@;
        let done = self.tables.finish(&header, waiting.body.as_slice(), &waiting.request, reply);
        let ghost o = Outcome { state: self@, reply: reply_view(done) };
        proof {
            law_answered_response(state, header, waiting.body@, waiting.request@, answer);
        }
        let response = respond(&header, done);
        assert(response@ == model::response(header, o));
        exchange.take_response(response, Ghost(o));
        assert(exchange@ == before.answered(o));
        self.work_through(exchange)
    }

    /// The request whose reply the server waits for.
    pub fn awaited(&self) -> (r: Option<&FsRequest>)
        ensures
            match r {
                Some(request) => self.pending() matches Some((x, question)) && question == request@,
                None => self.pending() is None,
            },
    {
        match &self.waiting {
            Some(waiting) => Some(&waiting.request),
            None => None,
        }
    }

    /// Whether enough ids are left for any segment of `len` bytes.
    pub fn ids_suffice_for(&self, len: usize) -> (r: bool)
        ensures
            r == ids_left(self@, len as int / 64),
            r ==> forall|payload: Seq<u8>|
                payload.len() <= len ==> #[trigger] can_advance(self@, start(payload)),
    {
        let r = self.tables.ids_left(len / 64);
        proof {
            if r {
                assert forall|payload: Seq<u8>| payload.len() <= len implies #[trigger] can_advance(
                    self@,
                    start(payload),
                ) by {
                    lemma_chain_len(payload, 0);
                    lemma_ids_suffice(self@, start(payload));
                }
            }
        }
        r
    }

    /// Whether enough ids are left to go on whatever the host replies.
    pub fn ids_suffice_to_resume(&self) -> (r: bool)
        requires
            self.wf(),
        ensures
            match self.pending() {
                Some((x, question)) => {
                    &&& r == ids_left(self@, x.chain.commands.len() - x.next)
                    &&& r ==> forall|answer: Answer| #[trigger]
                        can_resume(self@, x, question, answer)
                },
                None => !r,
            },
    {
        match &self.waiting {
            Some(waiting) => {
                let rest: usize = waiting.exchange.commands.len() - waiting.exchange.next;
                let r = self.tables.ids_left(rest);
                proof {
                    if r {
                        let x = waiting.exchange@;
                        assert forall|answer: Answer| #[trigger]
                            can_resume(self@, x, waiting.request@, answer) by {
                            lemma_ids_suffice_to_resume(self@, x, waiting.request@, answer);
                        }
                    }
                }
                r
            },
            None => false,
        }
    }
}

/// Which share of a list stands behind a name: the last one configured under
/// it, whatever its case.
proof fn lemma_listed_shares(shares: Seq<ShareConfig>, i: int)
    requires
        0 <= i < shares.len(),
        forall|k: int|
            i < k < shares.len() ==> lowercase((#[trigger] shares[k]).name) != lowercase(
                shares[i].name,
            ),
    ensures
        listed_shares(shares).contains_key(lowercase(shares[i].name)),
        listed_shares(shares)[lowercase(shares[i].name)] == shares[i].root,
    decreases shares.len(),
{
    if i < shares.len() - 1 {
        assert(lowercase(shares[shares.len() - 1].name) != lowercase(shares[i].name));
        lemma_listed_shares(shares.drop_last(), i);
    }
}

/// Every configured share is exposed under its name, whatever its case, unless
/// a later one takes its place; and the keepalive share is always there.
pub proof fn law_configured_shares_are_exposed(
    shares: Seq<ShareConfig>,
    empty_dir: Seq<char>,
    i: int,
)
    requires
        0 <= i < shares.len(),
        forall|k: int|
            i < k < shares.len() ==> lowercase((#[trigger] shares[k]).name) != lowercase(
                shares[i].name,
            ),
    ensures
        exposed_shares(shares, empty_dir).contains_key(lowercase(shares[i].name)),
        exposed_shares(shares, empty_dir)[lowercase(shares[i].name)] == shares[i].root,
        exposed_shares(shares, empty_dir).contains_key(EMPTY_SHARE@),
{
    lemma_listed_shares(shares, i);
}

proof fn lemma_listed_names(shares: Seq<ShareConfig>, name: Seq<char>)
    ensures
        listed_shares(shares).contains_key(name) <==> exists|i: int|
            0 <= i < shares.len() && lowercase((#[trigger] shares[i]).name) == name,
    decreases shares.len(),
{
    if shares.len() > 0 {
        let front = shares.drop_last();
        lemma_listed_names(front, name);
        let last = shares.len() - 1;
        if exists|i: int| 0 <= i < shares.len() && lowercase((#[trigger] shares[i]).name) == name {
            let i = choose|i: int|
                0 <= i < shares.len() && lowercase((#[trigger] shares[i]).name) == name;
            if i < last {
                assert(front[i] == shares[i]);
            }
        }
        if exists|i: int| 0 <= i < front.len() && lowercase((#[trigger] front[i]).name) == name {
            let i = choose|i: int|
                0 <= i < front.len() && lowercase((#[trigger] front[i]).name) == name;
            assert(shares[i] == front[i]);
        }
        assert(lowercase(shares[last].name) == name || listed_shares(shares).contains_key(name)
            == listed_shares(front).contains_key(name));
    }
}

/// The names that a server exposes are those configured, folded to lower case, and
/// the keepalive share; that one is backed by the empty directory unless its name is
/// configured.
pub proof fn law_exposed_names(shares: Seq<ShareConfig>, empty_dir: Seq<char>, name: Seq<char>)
    ensures
        ({
            let exposed = exposed_shares(shares, empty_dir);
            let configured = exists|i: int|
                0 <= i < shares.len() && lowercase((#[trigger] shares[i]).name) == name;
            &&& exposed.contains_key(name) <==> configured || name == "defaultemptyshare"@
            &&& !configured && name == "defaultemptyshare"@ ==> exposed[name] == empty_dir
        }),
{
    lemma_listed_names(shares, name);
}

/// A server starts with the shares that it was given and nothing else: nothing
/// negotiated, no session, tree or handle, every first id still to be minted, and
/// nothing waiting for the host.
pub proof fn law_server_starts(
    shares: Vec<(String, Share)>,
    empty_dir: &str,
    r: Smb2Server,
    name: Seq<char>,
    i: int,
)
    requires
        call_ensures(Smb2Server::new, (shares, empty_dir), r),
    ensures
        r.pending() is None,
        !r@.negotiated,
        r@.next_session_id == 1 && r@.next_tree_id == 1 && r@.next_file_id == 1,
        forall|id: u64| !r@.sessions.contains(id),
        forall|id: u32| !r@.trees.contains_key(id),
        forall|id: u64| !r@.open_files.contains_key(id),
        r@.shares.contains_key(name) <==> name == "defaultemptyshare"@ || exists|k: int|
            0 <= k < shares@.len() && lowercase((#[trigger] shares@[k]).0@) == name,
        0 <= i < shares@.len() && (forall|k: int|
            i < k < shares@.len() ==> lowercase((#[trigger] shares@[k]).0@) != lowercase(
                shares@[i].0@,
            )) ==> r@.shares.contains_pair(lowercase(shares@[i].0@), shares@[i].1.root@),
{
    let views = config_views(shares@);
    law_exposed_names(views, empty_dir@, name);
    if exists|k: int| 0 <= k < shares@.len() && lowercase((#[trigger] shares@[k]).0@) == name {
        let k = choose|k: int|
            0 <= k < shares@.len() && lowercase((#[trigger] shares@[k]).0@) == name;
        assert(views[k].name == shares@[k].0@);
    }
    if exists|k: int| 0 <= k < views.len() && lowercase((#[trigger] views[k]).name) == name {
        let k = choose|k: int|
            0 <= k < views.len() && lowercase((#[trigger] views[k]).name) == name;
        assert(views[k].name == shares@[k].0@);
    }
    if 0 <= i < shares@.len() && (forall|k: int|
        i < k < shares@.len() ==> lowercase((#[trigger] shares@[k]).0@) != lowercase(
            shares@[i].0@,
        )) {
        assert forall|k: int| i < k < views.len() implies lowercase((#[trigger] views[k]).name)
            != lowercase(views[i].name) by {
            assert(views[k].name == shares@[k].0@);
        }
        law_configured_shares_are_exposed(views, empty_dir@, i);
    }
}

/// What the caller of the server gets is what the segment came to: its bytes, none,
/// or the question to put to the host.
pub proof fn law_progress(
    pass: Pass,
    state: ServerState,
    pending: Option<(ExchangeState, Question)>,
    progress: Progress,
)
    requires
        comes_to(pass, state, pending, progress),
    ensures
        pass matches Pass::Done(s, None) ==> state == s && pending is None && progress
            == Progress::Done(None),
        pass matches Pass::Done(s, Some(bytes)) ==> state == s && pending is None && (
        progress matches Progress::Done(Some(v)) && v@ == bytes),
        pass matches Pass::Ask(s, x, q) ==> state == s && pending == Some((x, q)) && (
        progress matches Progress::Ask(request) && request.root@ == q.root && request.rel@ == q.rel
            && request.op == q.op),
{
}

/// The request that a server waits on is the one that its segment asked.
pub proof fn law_awaited(server: Smb2Server, r: Option<&FsRequest>)
    requires
        call_ensures(Smb2Server::awaited, (&server,), r),
    ensures
        r is Some <==> server.pending() is Some,
        r matches Some(request) ==> request@ == (server.pending()->0).1,
{
}

} // verus!
