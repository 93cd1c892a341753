//! What the server asks of the host filesystem, and what the host answers.
//!
//! The server itself performs no I/O. Where it needs the filesystem it hands
//! out a request; whoever drives it carries the request out, below the share
//! root only (see [`crate::backing`]), and hands the reply back.

use crate::backing::{
    entry_views, resolves, Backing, DirEntry, EntryState, FileInfo, HostPath, IoErrorKind,
};
use crate::encode::{stream_fits, stream_views, StreamState};
use crate::smb2::status;
use crate::backing::laws::{is_resolution, law_resolution};
use vstd::prelude::*;

verus! {

/// A filesystem operation.
#[derive(Copy, Clone, Debug)]
pub enum FsOp {
    /// Get the metadata.
    Stat,
    /// Read up to `len` bytes at `offset`.
    Read {
        /// Where to read.
        offset: u64,
        /// How many bytes to read at most.
        len: u32,
    },
    /// Read the raw reparse data buffer.
    ReadReparse,
    /// Read the self-relative security descriptor.
    ReadSecurity,
    /// List the streams.
    ListStreams,
    /// Enumerate the directory.
    Enumerate,
}

/// A filesystem operation on a path of a share.
#[derive(Clone, Debug)]
pub struct FsRequest {
    /// The host directory backing the share.
    pub root: String,
    /// The path below it, as the guest sent it.
    pub rel: String,
    /// What to do there.
    pub op: FsOp,
}

/// A filesystem request as a mathematical value.
pub struct Question {
    /// The host directory backing the share.
    pub root: Seq<char>,
    /// The path below it.
    pub rel: Seq<char>,
    /// What to do there.
    pub op: FsOp,
}

impl View for FsRequest {
    type V = Question;

    open spec fn view(&self) -> Question {
        Question { root: self.root@, rel: self.rel@, op: self.op }
    }
}

/// What the host answers to a filesystem request.
#[derive(Debug)]
pub enum FsReply {
    /// To [`FsOp::Stat`].
    Stat(Result<FileInfo, IoErrorKind>),
    /// To [`FsOp::Read`] and [`FsOp::ReadReparse`].
    Data(Result<Vec<u8>, IoErrorKind>),
    /// To [`FsOp::ReadSecurity`]; `None` if it is unavailable.
    Security(Option<Vec<u8>>),
    /// To [`FsOp::ListStreams`].
    Streams(Vec<(String, i64)>),
    /// To [`FsOp::Enumerate`].
    Listing(Result<Vec<DirEntry>, IoErrorKind>),
}

/// An answer of the host as a mathematical value.
pub enum Answer {
    /// Metadata.
    Stat(Result<FileInfo, IoErrorKind>),
    /// File or reparse data.
    Data(Result<Seq<u8>, IoErrorKind>),
    /// A security descriptor.
    Security(Option<Seq<u8>>),
    /// Streams.
    Streams(Seq<StreamState>),
    /// Directory entries.
    Listing(Result<Seq<EntryState>, IoErrorKind>),
}

impl View for FsReply {
    type V = Answer;

    open spec fn view(&self) -> Answer {
        match *self {
            FsReply::Stat(r) => Answer::Stat(r),
            FsReply::Data(r) => Answer::Data(
                match r {
                    Ok(data) => Ok(data@),
                    Err(kind) => Err(kind),
                },
            ),
            FsReply::Security(r) => Answer::Security(
                match r {
                    Some(data) => Some(data@),
                    None => None,
                },
            ),
            FsReply::Streams(streams) => Answer::Streams(stream_views(streams@)),
            FsReply::Listing(r) => Answer::Listing(
                match r {
                    Ok(entries) => Ok(entry_views(entries@)),
                    Err(kind) => Err(kind),
                },
            ),
        }
    }
}

/// Whether every stream size of an answer can be rounded up to whole clusters.
pub open spec fn sizes_fit(answer: Answer) -> bool {
    answer matches Answer::Streams(streams) ==> forall|i: int|
        0 <= i < streams.len() ==> stream_fits((#[trigger] streams[i]).size)
}

/// Whether an answer is of the kind that an operation asks for. A read never
/// returns more than was asked for.
pub open spec fn answers(op: FsOp, answer: Answer) -> bool {
    match op {
        FsOp::Stat => answer is Stat,
        FsOp::Read { offset, len } => match answer {
            Answer::Data(Ok(data)) => data.len() <= len,
            Answer::Data(Err(_)) => true,
            _ => false,
        },
        FsOp::ReadReparse => answer is Data,
        FsOp::ReadSecurity => answer is Security,
        FsOp::ListStreams => answer is Streams && sizes_fit(answer),
        FsOp::Enumerate => answer is Listing,
    }
}

/// The answer to an operation on a path that may not be resolved: there is no
/// such file, no security descriptor, no stream.
pub open spec fn unresolved(op: FsOp) -> Answer {
    match op {
        FsOp::Stat => Answer::Stat(Err(IoErrorKind::NotFound)),
        FsOp::Read { offset, len } => Answer::Data(Err(IoErrorKind::NotFound)),
        FsOp::ReadReparse => Answer::Data(Err(IoErrorKind::NotFound)),
        FsOp::ReadSecurity => Answer::Security(None),
        FsOp::ListStreams => Answer::Streams(Seq::empty()),
        FsOp::Enumerate => Answer::Listing(Err(IoErrorKind::NotFound)),
    }
}

impl FsRequest {
    /// Finds the host path to carry the request out on, or the reply to give
    /// at once where the path may not be resolved below the share root.
    pub fn locate(&self) -> (r: Result<HostPath, FsReply>)
        ensures
            match r {
                Ok(path) => resolves(self@.root, self@.rel, Some(path@)),
                Err(reply) => resolves(self@.root, self@.rel, None) && reply@ == unresolved(
                    self@.op,
                ) && answers(self@.op, reply@),
            },
    {
        let backing = Backing::new(self.root.as_str());
        let rel = self.rel.as_str();
        match self.op {
            FsOp::Stat => match backing.stat(rel) {
                Ok(path) => Ok(path),
                Err(kind) => Err(FsReply::Stat(Err(kind))),
            },
            FsOp::Read { offset, len } => match backing.open(rel) {
                Ok(path) => Ok(path),
                Err(kind) => Err(FsReply::Data(Err(kind))),
            },
            FsOp::ReadReparse => match backing.read_reparse(rel) {
                Ok(path) => Ok(path),
                Err(kind) => Err(FsReply::Data(Err(kind))),
            },
            FsOp::ReadSecurity => match backing.read_security(rel) {
                Some(path) => Ok(path),
                None => Err(FsReply::Security(None)),
            },
            FsOp::ListStreams => match backing.list_streams(rel) {
                Some(path) => Ok(path),
                None => {
                    let none: Vec<(String, i64)> = Vec::new();
                    assert(stream_views(none@) =~= Seq::empty());
                    Err(FsReply::Streams(none))
                },
            },
            FsOp::Enumerate => match backing.enumerate(rel) {
                Ok(path) => Ok(path),
                Err(kind) => Err(FsReply::Listing(Err(kind))),
            },
        }
    }

    /// Whether a reply is of the kind that the request asks for.
    pub fn accepts(&self, reply: &FsReply) -> (r: bool)
        ensures
            r == answers(self@.op, reply@),
    {
        match self.op {
            FsOp::Stat => matches!(reply, FsReply::Stat(_)),
            FsOp::Read { offset: _, len } => match reply {
                FsReply::Data(Ok(data)) => data.len() as u64 <= len as u64,
                FsReply::Data(Err(_)) => true,
                _ => false,
            },
            FsOp::ReadReparse => matches!(reply, FsReply::Data(_)),
            FsOp::ReadSecurity => matches!(reply, FsReply::Security(_)),
            FsOp::ListStreams => matches!(reply, FsReply::Streams(_)) && reply.sizes_fit(),
            FsOp::Enumerate => matches!(reply, FsReply::Listing(_)),
        }
    }
}

impl FsReply {
    /// Whether every stream size in the reply can be rounded up to whole
    /// clusters.
    pub fn sizes_fit(&self) -> (r: bool)
        ensures
            r == sizes_fit(self@),
    {
        match self {
            FsReply::Streams(streams) => {
                let mut i: usize = 0;
                while i < streams.len()
                    invariant
                        i <= streams@.len(),
                        self@ == Answer::Streams(stream_views(streams@)),
                        forall|k: int| 0 <= k < i ==> stream_fits((#[trigger] streams@[k]).1),
                    decreases streams@.len() - i,
                {
                    let size: i64 = streams[i].1;
                    assert(stream_views(streams@)[i as int].size == size);
                    if -4095 <= size && size < 0 {
                        proof {
                            let views = stream_views(streams@);
                            assert(!stream_fits(views[i as int].size));
                            assert(self@->Streams_0 == views);
                            assert(!sizes_fit(self@));
                        }
                        return false;
                    }
                    assert(stream_fits(size));
                    i = i + 1;
                }
                assert forall|k: int| 0 <= k < streams@.len() implies stream_fits(
                    (#[trigger] stream_views(streams@)[k]).size,
                ) by {
                    assert(stream_fits(streams@[k].1));
                }
                true
            },
            _ => true,
        }
    }
}

/// The NT status that reports a failed host operation.
pub open spec fn io_status(kind: IoErrorKind) -> u32 {
    match kind {
        IoErrorKind::NotFound => status::OBJECT_NAME_NOT_FOUND,
        IoErrorKind::PermissionDenied => status::ACCESS_DENIED,
        IoErrorKind::Other => status::INVALID_PARAMETER,
    }
}

/// Maps a host I/O failure to an NT status.
pub fn map_io_error(kind: IoErrorKind) -> (r: u32)
    ensures
        r == io_status(kind),
{
    match kind {
        IoErrorKind::NotFound => status::OBJECT_NAME_NOT_FOUND,
        IoErrorKind::PermissionDenied => status::ACCESS_DENIED,
        IoErrorKind::Other => status::INVALID_PARAMETER,
    }
}

/// The failures of a host as a client sees them: no such name, no access, and a bad
/// parameter for anything else.
pub proof fn law_failures_on_the_wire(kind: IoErrorKind, r: u32)
    requires
        call_ensures(map_io_error, (kind,), r),
    ensures
        r == io_status(kind),
        kind == IoErrorKind::NotFound ==> r == 0xC000_0034,
        kind == IoErrorKind::PermissionDenied ==> r == 0xC000_0022,
        kind == IoErrorKind::Other ==> r == 0xC000_000D,
{
}

/// A request is carried out on the path that it names, below the root that it names.
/// Where that path comes to nothing, the reply is of the kind asked for: there is no
/// such file, no security descriptor, no stream.
pub proof fn law_requests_are_located(request: FsRequest, r: Result<HostPath, FsReply>)
    requires
        call_ensures(FsRequest::locate, (&request,), r),
    ensures
        match r {
            Ok(path) => is_resolution(request.root@, request.rel@, Some(path@)),
            Err(reply) => {
                &&& is_resolution(request.root@, request.rel@, None)
                &&& request.op is Stat ==> reply@ == Answer::Stat(Err(IoErrorKind::NotFound))
                &&& request.op is Read || request.op is ReadReparse ==> reply@ == Answer::Data(
                    Err(IoErrorKind::NotFound),
                )
                &&& request.op is ReadSecurity ==> reply@ == Answer::Security(None)
                &&& request.op is ListStreams ==> reply@ == Answer::Streams(Seq::empty())
                &&& request.op is Enumerate ==> reply@ == Answer::Listing(
                    Err(IoErrorKind::NotFound),
                )
            },
        },
{
    match r {
        Ok(path) => law_resolution(request.root@, request.rel@, Some(path@)),
        Err(_) => law_resolution(request.root@, request.rel@, None),
    }
}

/// A reply is accepted where it is of the kind that the request asks for, with no
/// more data than a read asked for, and no stream size that has no 64-bit size in
/// whole clusters.
pub proof fn law_replies_are_accepted(request: FsRequest, reply: FsReply, r: bool)
    requires
        call_ensures(FsRequest::accepts, (&request, &reply), r),
    ensures
        request.op is Stat ==> r == (reply is Stat),
        request.op matches FsOp::Read { offset, len } ==> r == (match reply {
            FsReply::Data(Ok(data)) => data@.len() <= len,
            FsReply::Data(Err(_)) => true,
            _ => false,
        }),
        request.op is ReadReparse ==> r == (reply is Data),
        request.op is ReadSecurity ==> r == (reply is Security),
        request.op is ListStreams ==> r == (match reply {
            FsReply::Streams(streams) => forall|i: int|
                0 <= i < streams@.len() ==> !(-4096 < (#[trigger] streams@[i]).1 < 0),
            _ => false,
        }),
        request.op is Enumerate ==> r == (reply is Listing),
{
    if let FsReply::Streams(streams) = reply {
        let views = stream_views(streams@);
        assert(reply@ == Answer::Streams(views) && reply@->Streams_0 == views);
        assert forall|i: int| 0 <= i < streams@.len() implies (stream_fits(
            (#[trigger] streams@[i]).1,
        ) <==> !(-4096 < streams@[i].1 < 0)) by {}
        if sizes_fit(reply@) {
            assert forall|i: int| 0 <= i < streams@.len() implies !(-4096 < (
            #[trigger] streams@[i]).1 < 0) by {
                assert(stream_fits(reply@->Streams_0[i].size));
                assert(stream_fits(streams@[i].1));
            }
        }
        if forall|i: int| 0 <= i < streams@.len() ==> !(-4096 < (#[trigger] streams@[i]).1 < 0) {
            assert forall|i: int| 0 <= i < views.len() implies stream_fits(
                (#[trigger] views[i]).size,
            ) by {
                assert(stream_fits(streams@[i].1));
            }
        }
    }
}

/// What a reply stands for: the metadata, data, descriptor, streams and entries that
/// it holds, in the order in which it holds them.
pub proof fn law_replies_as_values(
    streams: Vec<(String, i64)>,
    entries: Vec<DirEntry>,
    data: Vec<u8>,
    info: FileInfo,
    i: int,
)
    ensures
        FsReply::Stat(Ok(info))@ == Answer::Stat(Ok(info)),
        FsReply::Data(Ok(data))@ == Answer::Data(Ok(data@)),
        FsReply::Security(Some(data))@ == Answer::Security(Some(data@)),
        FsReply::Streams(streams)@ matches Answer::Streams(s) && s.len() == streams@.len() && (0
            <= i < s.len() ==> s[i].name == streams@[i].0@ && s[i].size == streams@[i].1),
        FsReply::Listing(Ok(entries))@ matches Answer::Listing(Ok(s)) && s.len() == entries@.len()
            && (0 <= i < s.len() ==> s[i].name == entries@[i].name@ && s[i].info
            == entries@[i].info),
{
}

} // verus!
