//! Compound requests and responses (MS-SMB2 2.2.1.2, 3.3.5.2.7).
//!
//! A segment may chain several commands through the header's `NextCommand`
//! field. Commands marked as related reuse the FileId that a preceding
//! `CREATE` of the chain returned. The responses are chained the same way.

use crate::encode::{aligned8, pad8, padded};
use crate::smb2;
use crate::smb2::{command, parse_header, starts_with_header, status, Header};
use crate::wire::{
    get_array16, le32, lemma_record_at, len_u32, low32, put_bytes, put_u32, record_at, u32_at, Wire,
};
use vstd::prelude::*;
use vstd::slice::slice_subrange;

verus! {

/// The sentinel FileId used by related commands to mean "the FileId returned
/// by the preceding CREATE in this chain".
pub const SENTINEL_FILE_ID: [u8; 16] = [
    0xFF,
    0xFF,
    0xFF,
    0xFF,
    0xFF,
    0xFF,
    0xFF,
    0xFF,
    0xFF,
    0xFF,
    0xFF,
    0xFF,
    0xFF,
    0xFF,
    0xFF,
    0xFF,
];

/// One command of a chain.
pub struct CommandState {
    /// Its header.
    pub header: Header,
    /// What stands between its header and the next command.
    pub body: Seq<u8>,
}

/// The commands of a segment, up to the first that cannot be decoded.
pub struct Chain {
    /// The commands that can be decoded.
    pub commands: Seq<CommandState>,
    /// Whether they are all there is.
    pub complete: bool,
}

/// Where the command at `off` ends: at the next command, or with the segment.
pub open spec fn command_end(payload: Seq<u8>, off: int) -> int {
    let next = record_at::<Header>(payload.skip(off)).next_command;
    if next != 0 {
        off + next
    } else {
        payload.len() as int
    }
}

/// Whether a command can be decoded at `off`: a valid header, and an end
/// within the segment and not inside the header.
pub open spec fn decodable(payload: Seq<u8>, off: int) -> bool {
    &&& 0 <= off <= payload.len()
    &&& starts_with_header(payload.skip(off))
    &&& off + 64 <= command_end(payload, off) <= payload.len()
}

/// The command at `off`.
pub open spec fn command_at(payload: Seq<u8>, off: int) -> CommandState {
    CommandState {
        header: record_at::<Header>(payload.skip(off)),
        body: payload.subrange(off + 64, command_end(payload, off)),
    }
}

/// The chain of commands that starts at `off`.
pub open spec fn chain_at(payload: Seq<u8>, off: int) -> Chain
    decreases payload.len() - off,
{
    if !decodable(payload, off) {
        Chain { commands: Seq::empty(), complete: false }
    } else if command_end(payload, off) >= payload.len() {
        Chain { commands: seq![command_at(payload, off)], complete: true }
    } else {
        let rest = chain_at(payload, command_end(payload, off));
        Chain {
            commands: seq![command_at(payload, off)] + rest.commands,
            complete: rest.complete,
        }
    }
}

/// One command of a chain, decoded.
pub struct Command {
    /// Its header.
    pub header: Header,
    /// What stands between its header and the next command.
    pub body: Vec<u8>,
}

impl View for Command {
    type V = CommandState;

    open spec fn view(&self) -> CommandState {
        CommandState { header: self.header, body: self.body@ }
    }
}

/// The values of a list of commands.
pub open spec fn command_views(commands: Seq<Command>) -> Seq<CommandState> {
    Seq::new(commands.len(), |i: int| commands[i]@)
}

/// There are no more commands than headers fit.
pub proof fn lemma_chain_len(payload: Seq<u8>, off: int)
    requires
        0 <= off <= payload.len(),
    ensures
        chain_at(payload, off).commands.len() * 64 <= payload.len() - off,
    decreases payload.len() - off,
{
    if decodable(payload, off) && command_end(payload, off) < payload.len() {
        lemma_chain_len(payload, command_end(payload, off));
    }
}

/// Decodes the commands of a segment, up to the first that cannot be decoded,
/// and says whether they are all there is.
pub fn decode_chain(payload: &[u8]) -> (r: (Vec<Command>, bool))
    ensures
        command_views(r.0@) == chain_at(payload@, 0).commands,
        r.1 == chain_at(payload@, 0).complete,
{
    let ghost whole = chain_at(payload@, 0);
    let mut commands: Vec<Command> = Vec::new();
    let mut off: usize = 0;
    assert(command_views(commands@) + chain_at(payload@, 0).commands =~= whole.commands);
    loop
        invariant
            off <= payload@.len(),
            whole == chain_at(payload@, 0),
            command_views(commands@) + chain_at(payload@, off as int).commands == whole.commands,
            chain_at(payload@, off as int).complete == whole.complete,
        decreases payload@.len() - off,
    {
        let ghost here = payload@.skip(off as int);
        let tail = slice_subrange(payload, off, payload.len());
        assert(tail@ =~= here);
        let (header, _) = match parse_header(tail) {
            Some(parsed) => parsed,
            None => {
                assert(command_views(commands@) =~= whole.commands);
                return (commands, false);
            },
        };
        proof {
            lemma_record_at(header, here);
        }
        let room: usize = payload.len() - off;
        let len: usize = if header.next_command == 0 {
            room
        } else if header.next_command as u64 > room as u64 {
            assert(command_views(commands@) =~= whole.commands);
            return (commands, false);
        } else {
            header.next_command as usize
        };
        if len < smb2::HEADER_SIZE {
            assert(command_views(commands@) =~= whole.commands);
            return (commands, false);
        }
        let end: usize = off + len;
        let mut body: Vec<u8> = Vec::new();
        put_bytes(&mut body, slice_subrange(payload, off + smb2::HEADER_SIZE, end));
        let ghost before = command_views(commands@);
        let next = Command { header, body };
        assert(next@.body =~= command_at(payload@, off as int).body);
        commands.push(next);
        assert(command_views(commands@) =~= before.push(command_at(payload@, off as int)));
        if end >= payload.len() {
            assert(command_views(commands@) =~= whole.commands);
            return (commands, true);
        }
        proof {
            let rest = chain_at(payload@, end as int).commands;
            assert(command_views(commands@) + rest =~= before + (seq![
                command_at(payload@, off as int),
            ] + rest));
        }
        off = end;
    }
}

/// Where the FileId stands in the body of a command that carries one.
pub open spec fn id_offset(code: u16) -> Option<int> {
    if code == command::CLOSE || code == command::IOCTL || code == command::QUERY_DIRECTORY {
        Some(8int)
    } else if code == command::READ {
        Some(16int)
    } else if code == command::QUERY_INFO {
        Some(24int)
    } else {
        None
    }
}

/// Returns the byte offset of the FileId field within the request body for
/// commands that carry one, or `None` for commands that do not.
pub fn file_id_offset(code: u16) -> (r: Option<usize>)
    ensures
        match r {
            Some(off) => id_offset(code) == Some(off as int) && off <= 24,
            None => id_offset(code) is None,
        },
{
    match code {
        command::CLOSE => Some(8),
        command::READ => Some(16),
        command::IOCTL => Some(8),
        command::QUERY_DIRECTORY => Some(8),
        command::QUERY_INFO => Some(24),
        _ => None,
    }
}

/// Whether a command refers to the file opened earlier in its chain.
pub open spec fn is_related(c: CommandState) -> bool {
    &&& c.header.flags & smb2::FLAGS_RELATED_OPERATIONS != 0
    &&& id_offset(c.header.command) matches Some(off) && c.body.len() >= off + 16
        && c.body.subrange(off, off + 16) == SENTINEL_FILE_ID@
}

/// The body of a command with the sentinel FileId replaced by that of the file
/// opened earlier in the chain, if there is one.
pub open spec fn related_body(c: CommandState, opened: Option<Seq<u8>>) -> Seq<u8> {
    match opened {
        Some(fid) if is_related(c) => {
            let off = id_offset(c.header.command)->0;
            c.body.take(off) + fid + c.body.skip(off + 16)
        },
        _ => c.body,
    }
}

/// The value of an optional FileId.
pub open spec fn fid_view(fid: Option<[u8; 16]>) -> Option<Seq<u8>> {
    match fid {
        Some(a) => Some(a@),
        None => None,
    }
}

fn is_sentinel(bytes: &[u8]) -> (r: bool)
    requires
        bytes@.len() == 16,
    ensures
        r == (bytes@ == SENTINEL_FILE_ID@),
{
    let mut i: usize = 0;
    while i < 16
        invariant
            i <= 16,
            bytes@.len() == 16,
            forall|k: int| 0 <= k < i ==> bytes@[k] == 0xFF,
        decreases 16 - i,
    {
        if bytes[i] != 0xFF {
            assert(bytes@[i as int] != SENTINEL_FILE_ID@[i as int]);
            return false;
        }
        i = i + 1;
    }
    assert(bytes@ =~= SENTINEL_FILE_ID@);
    true
}

/// The body of a command as it is to be carried out.
pub fn resolve_body(c: &Command, opened: Option<[u8; 16]>) -> (r: Vec<u8>)
    ensures
        r@ == related_body(c@, fid_view(opened)),
{
    let body = c.body.as_slice();
    let mut out: Vec<u8> = Vec::new();
    if c.header.flags & smb2::FLAGS_RELATED_OPERATIONS != 0 {
        if let Some(fid) = opened {
            if let Some(off) = file_id_offset(c.header.command) {
                if body.len() >= off + 16 && is_sentinel(slice_subrange(body, off, off + 16)) {
                    put_bytes(&mut out, slice_subrange(body, 0, off));
                    put_bytes(&mut out, fid.as_slice());
                    put_bytes(&mut out, slice_subrange(body, off + 16, body.len()));
                    assert(out@ =~= related_body(c@, fid_view(opened)));
                    return out;
                }
            }
        }
    }
    put_bytes(&mut out, body);
    assert(out@ =~= c@.body);
    out
}

/// The FileId that a CREATE response returns, if it reports success.
pub open spec fn returned_fid(code: u16, response: Seq<u8>) -> Option<Seq<u8>> {
    if code == command::CREATE && starts_with_header(response) && u32_at(response, 8)
        == status::SUCCESS && response.len() >= 144 {
        Some(response.subrange(128, 144))
    } else {
        None
    }
}

/// Captures the FileId from a successful CREATE.
pub fn capture_fid(code: u16, response: &Vec<u8>) -> (r: Option<[u8; 16]>)
    ensures
        fid_view(r) == returned_fid(code, response@),
{
    if code != command::CREATE {
        return None;
    }
    match parse_header(response.as_slice()) {
        Some((header, rest)) => if header.status == status::SUCCESS && rest.len() >= 80 {
            let fid = get_array16(rest, 64);
            assert(fid@ =~= response@.subrange(128, 144));
            Some(fid)
        } else {
            None
        },
        None => None,
    }
}

/// A response that links to the one after it: padded to eight bytes, with its
/// `NextCommand` (at offset 20) set to its padded length.
pub open spec fn linked(response: Seq<u8>) -> Seq<u8> {
    pad8(response).take(20) + le32(low32(aligned8(response.len() as int))) + pad8(response).skip(24)
}

/// Linked responses, one after the other.
pub open spec fn linked_all(responses: Seq<Seq<u8>>) -> Seq<u8>
    decreases responses.len(),
{
    if responses.len() == 0 {
        Seq::empty()
    } else {
        linked_all(responses.drop_last()) + linked(responses.last())
    }
}

/// A compound response: all responses, each but the last linked to the next.
pub open spec fn compound(responses: Seq<Seq<u8>>) -> Seq<u8> {
    if responses.len() == 0 {
        Seq::empty()
    } else {
        linked_all(responses.drop_last()) + responses.last()
    }
}

/// The values of a list of responses.
pub open spec fn byte_views(responses: Seq<Vec<u8>>) -> Seq<Seq<u8>> {
    Seq::new(responses.len(), |i: int| responses[i]@)
}

fn put_linked(out: &mut Vec<u8>, response: &Vec<u8>)
    requires
        response@.len() >= 24,
    ensures
        final(out)@ == old(out)@ + linked(response@),
{
    let ghost before = out@;
    let mut copy: Vec<u8> = Vec::new();
    put_bytes(&mut copy, response.as_slice());
    assert(copy@ =~= response@);
    let whole = padded(copy);
    put_bytes(out, slice_subrange(whole.as_slice(), 0, 20));
    put_u32(out, len_u32(whole.len()));
    put_bytes(out, slice_subrange(whole.as_slice(), 24, whole.len()));
    assert(out@ =~= before + linked(response@));
}

/// Assembles the compound response.
pub fn assemble_compound(responses: &Vec<Vec<u8>>) -> (r: Vec<u8>)
    requires
        forall|i: int| 0 <= i < responses@.len() ==> (#[trigger] responses@[i])@.len() >= 24,
    ensures
        r@ == compound(byte_views(responses@)),
{
    let ghost all = byte_views(responses@);
    let mut out: Vec<u8> = Vec::new();
    if responses.len() == 0 {
        return out;
    }
    let mut i: usize = 0;
    assert(all.take(0) =~= Seq::<Seq<u8>>::empty());
    while i < responses.len() - 1
        invariant
            all == byte_views(responses@),
            forall|i: int| 0 <= i < responses@.len() ==> (#[trigger] responses@[i])@.len() >= 24,
            i <= responses@.len() - 1,
            out@ == linked_all(all.take(i as int)),
        decreases responses@.len() - i,
    {
        put_linked(&mut out, &responses[i]);
        assert(all.take(i + 1).drop_last() =~= all.take(i as int));
        assert(all.take(i + 1).last() == all[i as int]);
        i = i + 1;
    }
    put_bytes(&mut out, responses[i].as_slice());
    assert(all.take(i as int) =~= all.drop_last());
    assert(all.last() == all[i as int]);
    out
}

} // verus!
