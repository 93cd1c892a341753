//! How the server works through the commands of one segment.

use super::compound::{
    chain_at, compound, related_body, returned_fid, Chain, CommandState,
};
use super::model::{
    begin, can_begin, can_finish, finish, response, Outcome, ServerState, Step,
};
use crate::host::{Answer, Question};
use crate::smb2::Header;
use vstd::prelude::*;

verus! {

/// How far a segment has been worked through.
pub struct ExchangeState {
    /// The commands of the segment.
    pub chain: Chain,
    /// The command whose turn it is.
    pub next: int,
    /// The FileId of the last file opened in this chain.
    pub opened: Option<Seq<u8>>,
    /// The responses to the commands before it.
    pub responses: Seq<Seq<u8>>,
}

/// What working through a segment comes to.
pub enum Pass {
    /// The segment is done: the state after it, and the bytes to send back, if
    /// any.
    Done(ServerState, Option<Seq<u8>>),
    /// The command whose turn it is needs the host's answer to a question.
    Ask(ServerState, ExchangeState, Question),
}

/// The start of a segment.
pub open spec fn start(payload: Seq<u8>) -> ExchangeState {
    ExchangeState {
        chain: chain_at(payload, 0),
        next: 0,
        opened: None,
        responses: Seq::empty(),
    }
}

impl ExchangeState {
    /// The command whose turn it is.
    pub open spec fn current(self) -> CommandState {
        self.chain.commands[self.next]
    }

    /// The body of that command as it is to be carried out.
    pub open spec fn body(self) -> Seq<u8> {
        related_body(self.current(), self.opened)
    }

    /// The exchange once that command has been answered.
    pub open spec fn answered(self, o: Outcome) -> ExchangeState {
        let bytes = response(self.current().header, o);
        ExchangeState {
            next: self.next + 1,
            opened: match returned_fid(self.current().header.command, bytes) {
                Some(fid) => Some(fid),
                None => self.opened,
            },
            responses: self.responses.push(bytes),
            ..self
        }
    }
}

/// Works through the commands of a segment in order, as far as it gets without
/// the host. A segment that cannot be decoded to its end is not answered,
/// though the commands before that are carried out.
pub open spec fn advance(s: ServerState, x: ExchangeState) -> Pass
    decreases x.chain.commands.len() - x.next,
{
    if x.next >= x.chain.commands.len() {
        Pass::Done(
            s,
            if x.chain.complete {
                Some(compound(x.responses))
            } else {
                None
            },
        )
    } else {
        match begin(s, x.current().header, x.body()) {
            Step::Ask(question) => Pass::Ask(s, x, question),
            Step::Done(o) => advance(o.state, x.answered(o)),
        }
    }
}

/// Goes on with a segment once the host has answered.
pub open spec fn resumed(s: ServerState, x: ExchangeState, question: Question, answer: Answer) -> Pass {
    let o = finish(s, x.current().header, x.body(), question, answer);
    advance(o.state, x.answered(o))
}

/// Whether no id is exhausted on the way.
pub open spec fn can_advance(s: ServerState, x: ExchangeState) -> bool
    decreases x.chain.commands.len() - x.next,
{
    x.next < x.chain.commands.len() ==> {
        &&& can_begin(s, x.current().header, x.body())
        &&& begin(s, x.current().header, x.body()) matches Step::Done(o) ==> can_advance(
            o.state,
            x.answered(o),
        )
    }
}

/// Whether no id is exhausted on the way, once the host has answered.
pub open spec fn can_resume(
    s: ServerState,
    x: ExchangeState,
    question: Question,
    answer: Answer,
) -> bool {
    let o = finish(s, x.current().header, x.body(), question, answer);
    can_finish(s, x.current().header, answer) && can_advance(o.state, x.answered(o))
}

/// Whether at least `n` ids of each kind are left.
pub open spec fn ids_left(s: ServerState, n: int) -> bool {
    &&& s.next_session_id + n <= u64::MAX
    &&& s.next_tree_id + n <= u32::MAX
    &&& s.next_file_id + n <= u64::MAX
}

proof fn lemma_finish_ids(s: ServerState, x: ExchangeState, question: Question, answer: Answer, n: int)
    requires
        ids_left(s, n),
        n >= 1,
    ensures
        ids_left(finish(s, x.current().header, x.body(), question, answer).state, n - 1),
{
    reveal(finish);
}

proof fn lemma_begin_ids(s: ServerState, h: Header, body: Seq<u8>, o: Outcome, n: int)
    requires
        ids_left(s, n),
        n >= 1,
        begin(s, h, body) == Step::Done(o),
    ensures
        ids_left(o.state, n - 1),
{
    reveal(begin);
}

/// As many ids as there are commands to come are enough.
pub proof fn lemma_ids_suffice(s: ServerState, x: ExchangeState)
    requires
        ids_left(s, x.chain.commands.len() - x.next),
    ensures
        can_advance(s, x),
    decreases x.chain.commands.len() - x.next,
{
    if x.next < x.chain.commands.len() {
        match begin(s, x.current().header, x.body()) {
            Step::Done(o) => {
                lemma_begin_ids(
                    s,
                    x.current().header,
                    x.body(),
                    o,
                    x.chain.commands.len() - x.next,
                );
                lemma_ids_suffice(o.state, x.answered(o));
            },
            Step::Ask(_) => {},
        }
    }
}

/// As many ids as there are commands to come are enough, the one waiting for
/// the host among them.
pub proof fn lemma_ids_suffice_to_resume(
    s: ServerState,
    x: ExchangeState,
    question: Question,
    answer: Answer,
)
    requires
        x.next < x.chain.commands.len(),
        ids_left(s, x.chain.commands.len() - x.next),
    ensures
        can_resume(s, x, question, answer),
{
    let o = finish(s, x.current().header, x.body(), question, answer);
    lemma_finish_ids(s, x, question, answer, x.chain.commands.len() - x.next);
    lemma_ids_suffice(o.state, x.answered(o));
}

} // verus!
