//! Read-only host-directory backing for a vSMB share.
//!
//! Decides, for each filesystem operation the SMB2 server needs, which host
//! path it may touch (constrained to the share root), and turns what the host
//! reports into SMB terms. This is deliberately read-only (the image-layer use
//! case), so there are no write, rename or delete paths. The operations
//! themselves are performed by the caller.

use crate::text::{
    is_separator, lemma_split, lossy_utf16, split, split_path, string_from_utf16_lossy, views,
};
use std::path::{Component, Path};
use vstd::prelude::*;

pub mod laws;

verus! {

/// `FILE_ATTRIBUTE_READONLY` (used by the fallback metadata path).
pub const ATTR_READONLY: u32 = 0x0000_0001;

/// `FILE_ATTRIBUTE_DIRECTORY`.
pub const ATTR_DIRECTORY: u32 = 0x0000_0010;

/// `FILE_ATTRIBUTE_NORMAL` (used by the fallback metadata path).
pub const ATTR_NORMAL: u32 = 0x0000_0080;

/// `FILE_ATTRIBUTE_REPARSE_POINT`.
pub const ATTR_REPARSE_POINT: u32 = 0x0000_0400;

/// Number of 100ns ticks between 1601-01-01 (FILETIME epoch) and the Unix
/// epoch (1970-01-01).
pub const FILETIME_UNIX_EPOCH_DIFF: u64 = 116_444_736_000_000_000;

/// Why a host operation failed, as far as the server tells failures apart.
#[derive(Copy, Clone, Debug, PartialEq, Eq, Structural)]
pub enum IoErrorKind {
    /// There is no such file, or the path may not be resolved.
    NotFound,
    /// The host refused access.
    PermissionDenied,
    /// Anything else.
    Other,
}

/// Metadata about a file or directory, in SMB/Windows terms.
#[derive(Copy, Clone, Debug)]
pub struct FileInfo {
    /// End-of-file / logical size, in bytes.
    pub size: u64,
    /// Allocation size, in bytes (rounded up to a cluster boundary).
    pub allocation_size: u64,
    /// Windows file attributes (`FILE_ATTRIBUTE_*`).
    pub attributes: u32,
    /// Whether this is a directory.
    pub is_dir: bool,
    /// Creation time, as a Windows FILETIME (100ns ticks since 1601-01-01).
    pub creation_time: u64,
    /// Last access time (FILETIME).
    pub last_access_time: u64,
    /// Last write time (FILETIME).
    pub last_write_time: u64,
    /// Change time (FILETIME).
    pub change_time: u64,
    /// Reparse point tag, or 0 if this is not a reparse point. Meaningful only
    /// when `attributes` has `FILE_ATTRIBUTE_REPARSE_POINT`.
    pub reparse_tag: u32,
}

/// A single directory entry produced by enumeration.
#[derive(Clone, Debug)]
pub struct DirEntry {
    /// The file name (no path).
    pub name: String,
    /// The entry's metadata.
    pub info: FileInfo,
}

/// A directory entry as a mathematical value.
pub struct EntryState {
    /// The file name.
    pub name: Seq<char>,
    /// The entry's metadata.
    pub info: FileInfo,
}

impl View for DirEntry {
    type V = EntryState;

    open spec fn view(&self) -> EntryState {
        EntryState { name: self.name@, info: self.info }
    }
}

/// The values of a list of directory entries.
pub open spec fn entry_views(entries: Seq<DirEntry>) -> Seq<EntryState> {
    Seq::new(entries.len(), |i: int| entries[i]@)
}

/// A host path: a root directory and the names to descend through from it.
#[derive(Clone, Debug)]
pub struct HostPath {
    /// The directory the path starts from.
    pub root: String,
    /// The names below it, outermost first.
    pub parts: Vec<String>,
}

/// A host path as a mathematical value.
pub struct PathState {
    /// The directory the path starts from.
    pub root: Seq<char>,
    /// The names below it, outermost first.
    pub parts: Seq<Seq<char>>,
}

impl View for HostPath {
    type V = PathState;

    open spec fn view(&self) -> PathState {
        PathState { root: self.root@, parts: views(self.parts@) }
    }
}

/// The name of the directory itself.
pub open spec fn dot() -> Seq<char> {
    seq!['.']
}

/// The name of the parent directory.
pub open spec fn dot_dot() -> Seq<char> {
    seq!['.', '.']
}

/// Whether a piece of a path names something, as opposed to staying in place
/// or going up.
pub open spec fn is_name(part: Seq<char>) -> bool {
    part.len() > 0 && part != dot() && part != dot_dot()
}

/// The names along a split path, outermost first: the pieces that do not stay
/// in place.
pub open spec fn kept(parts: Seq<Seq<char>>) -> Seq<Seq<char>>
    decreases parts.len(),
{
    if parts.len() == 0 {
        Seq::empty()
    } else if parts.last().len() == 0 || parts.last() == dot() {
        kept(parts.drop_last())
    } else {
        kept(parts.drop_last()).push(parts.last())
    }
}

/// Whether a split path goes up anywhere.
pub open spec fn goes_up(parts: Seq<Seq<char>>) -> bool {
    exists|i: int| 0 <= i < parts.len() && #[trigger] parts[i] == dot_dot()
}

/// Whether a text starts with a drive prefix: an ASCII letter and a colon.
pub open spec fn is_drive(part: Seq<char>) -> bool {
    part.len() >= 2 && ('a' <= part[0] <= 'z' || 'A' <= part[0] <= 'Z') && part[1] == ':'
}

/// Whether any piece of a split path starts with a drive prefix.
pub open spec fn has_drive(parts: Seq<Seq<char>>) -> bool {
    exists|i: int| 0 <= i < parts.len() && is_drive(#[trigger] parts[i])
}

/// Whether the host's own path parsing takes every name along a split path to
/// be a single plain component, given its verdict on each piece.
pub open spec fn all_normal(parts: Seq<Seq<char>>, normal: Seq<bool>) -> bool {
    forall|i: int| 0 <= i < parts.len() && is_name(#[trigger] parts[i]) ==> normal[i]
}

/// Whether no part of a path goes up or holds a separator. That is what keeps a
/// path below its root, but for parts that start with a drive prefix: what such
/// a part is rests with the host's own parsing, which on Windows takes it for no
/// plain name.
pub open spec fn is_contained(parts: Seq<Seq<char>>) -> bool {
    forall|i: int|
        0 <= i < parts.len() ==> is_name(#[trigger] parts[i]) && forall|j: int|
            0 <= j < parts[i].len() ==> !is_separator(#[trigger] parts[i][j], true)
}

proof fn lemma_kept(parts: Seq<Seq<char>>)
    requires
        !goes_up(parts),
        forall|i: int, j: int|
            0 <= i < parts.len() && 0 <= j < parts[i].len() ==> !is_separator(
                #[trigger] parts[i][j],
                true,
            ),
    ensures
        is_contained(kept(parts)),
    decreases parts.len(),
{
    if parts.len() != 0 {
        let front = parts.drop_last();
        assert forall|i: int| 0 <= i < front.len() implies #[trigger] front[i] != dot_dot() by {
            assert(parts[i] != dot_dot());
        }
        assert forall|i: int, j: int|
            0 <= i < front.len() && 0 <= j < front[i].len() implies !is_separator(
            #[trigger] front[i][j],
            true,
        ) by {
            assert(!is_separator(parts[i][j], true));
        }
        lemma_kept(front);
        let k = kept(parts);
        assert(parts[parts.len() - 1] != dot_dot());
        assert forall|i: int| 0 <= i < k.len() implies is_name(#[trigger] k[i]) && forall|j: int|
            0 <= j < k[i].len() ==> !is_separator(#[trigger] k[i][j], true) by {
            if i < kept(front).len() {
                assert(k[i] == kept(front)[i]);
            } else {
                assert(k[i] == parts[parts.len() - 1]);
                assert forall|j: int| 0 <= j < k[i].len() implies !is_separator(
                    #[trigger] k[i][j],
                    true,
                ) by {
                    assert(!is_separator(parts[parts.len() - 1][j], true));
                }
            }
        }
    }
}

/// What the host's path parsing takes a piece of a path for.
#[derive(Copy, Clone, Debug, PartialEq, Eq, Structural)]
pub enum PathComponent {
    /// A drive or share prefix.
    Prefix,
    /// The root of a file system.
    RootDir,
    /// The directory itself.
    CurDir,
    /// The parent directory.
    ParentDir,
    /// A plain name.
    Normal,
}

/// Whether a text holds no separator of any host.
pub open spec fn is_unseparated(part: Seq<char>) -> bool {
    forall|j: int| 0 <= j < part.len() ==> !is_separator(#[trigger] part[j], true)
}

/// The kinds of the first two components that `std::path::Path::components`
/// finds in a text, `None` where there are fewer. Of a text that holds a
/// separator nothing is stated. Any other text is a single component: none if it
/// is empty, the directory itself for `.`, its parent for `..`, and a plain name
/// otherwise. The exception is a text that starts with a drive prefix, such as
/// `C:`: on Windows its first component is that prefix, elsewhere it is a plain
/// name like any other.
#[verifier::external_body]
fn first_components(part: &str) -> (r: (Option<PathComponent>, Option<PathComponent>))
    ensures
        is_unseparated(part@) && !is_drive(part@) ==> r == (
            if part@.len() == 0 {
                None
            } else if part@ == dot() {
                Some(PathComponent::CurDir)
            } else if part@ == dot_dot() {
                Some(PathComponent::ParentDir)
            } else {
                Some(PathComponent::Normal)
            },
            None::<PathComponent>,
        ),
        is_unseparated(part@) && is_drive(part@) ==> r.0 == Some(PathComponent::Prefix) || r == (
            Some(PathComponent::Normal),
            None::<PathComponent>,
        ),
{
    let kind = |c: Component<'_>| match c {
        Component::Prefix(_) => PathComponent::Prefix,
        Component::RootDir => PathComponent::RootDir,
        Component::CurDir => PathComponent::CurDir,
        Component::ParentDir => PathComponent::ParentDir,
        Component::Normal(_) => PathComponent::Normal,
    };
    let mut components = Path::new(part).components();
    (components.next().map(kind), components.next().map(kind))
}

/// Whether the host takes a piece of a path for exactly one plain name. It does
/// so for every text without separators that names something, but for one that
/// starts with a drive prefix: there the host decides.
fn is_single_normal(part: &str) -> (r: bool)
    ensures
        is_unseparated(part@) && !is_drive(part@) ==> r == is_name(part@),
{
    matches!(first_components(part), (Some(PathComponent::Normal), None))
}

/// The path that a relative path denotes below `root`, if it may be resolved.
pub open spec fn denoted(root: Seq<char>, rel: Seq<char>) -> PathState {
    PathState { root, parts: kept(split(rel, true)) }
}

/// Whether `r` is an answer the host may give to resolving `rel` below `root`:
/// a path that goes up is refused, any other is accepted unless a piece of it
/// starts with a drive prefix (the host decides on those), and whatever is
/// accepted is the path that `rel` denotes: the root, then the names along
/// `rel`.
pub open spec fn resolves(root: Seq<char>, rel: Seq<char>, r: Option<PathState>) -> bool {
    &&& goes_up(split(rel, true)) ==> r is None
    &&& !goes_up(split(rel, true)) && !has_drive(split(rel, true)) ==> r is Some
    &&& r matches Some(p) ==> p == denoted(root, rel) && is_contained(p.parts)
}

/// A read-only view of a host directory tree.
pub struct Backing {
    root: String,
}

impl Backing {
    /// The directory the tree starts from.
    pub closed spec fn root(&self) -> Seq<char> {
        self.root@
    }

    /// Creates a backing rooted at `root`.
    pub fn new(root: &str) -> (r: Backing)
        ensures
            r.root() == root@,
    {
        Backing { root: root.to_owned() }
    }

    /// Resolves an SMB relative path given the host's verdict on each of its
    /// pieces (the pieces between `\` and `/` separators, in order).
    pub fn resolve_with(&self, rel: &str, normal: &Vec<bool>) -> (r: Option<HostPath>)
        requires
            normal@.len() == split(rel@, true).len(),
        ensures
            r is Some <==> !goes_up(split(rel@, true)) && all_normal(split(rel@, true), normal@),
            r matches Some(p) ==> p@ == denoted(self.root(), rel@),
    {
        let pieces = split_path(rel, true);
        let ghost all = split(rel@, true);
        let mut parts: Vec<String> = Vec::new();
        let mut i: usize = 0;
        assert(all.take(0) =~= Seq::<Seq<char>>::empty());
        assert(views(parts@) =~= kept(all.take(0)));
        while i < pieces.len()
            invariant
                0 <= i <= pieces@.len(),
                all == split(rel@, true),
                all == views(pieces@),
                normal@.len() == all.len(),
                views(parts@) == kept(all.take(i as int)),
                forall|k: int| 0 <= k < i ==> #[trigger] all[k] != dot_dot(),
                forall|k: int| 0 <= k < i && is_name(#[trigger] all[k]) ==> normal@[k],
            decreases pieces@.len() - i,
        {
            let piece = crate::text::chars_of(pieces[i].as_str());
            proof {
                assert(all[i as int] == piece@);
                assert(all.take(i + 1).drop_last() =~= all.take(i as int));
                assert(all.take(i + 1).last() == piece@);
            }
            if piece.len() == 0 || (piece.len() == 1 && piece[0] == '.') {
                proof {
                    if piece@.len() == 1 {
                        assert(piece@ =~= dot());
                    }
                    assert(dot_dot().len() == 2);
                }
            } else if piece.len() == 2 && piece[0] == '.' && piece[1] == '.' {
                proof {
                    assert(piece@ =~= dot_dot());
                }
                return None;
            } else {
                proof {
                    assert(piece@ != dot()) by {
                        assert(dot()[0] == '.');
                    }
                    assert(piece@ != dot_dot()) by {
                        assert(dot_dot()[0] == '.' && dot_dot()[1] == '.');
                    }
                }
                if !normal[i] {
                    return None;
                }
                let ghost before = views(parts@);
                parts.push(pieces[i].clone());
                assert(views(parts@) =~= before.push(piece@));
            }
            i = i + 1;
        }
        assert(all.take(i as int) =~= all);
        let path = HostPath { root: self.root.clone(), parts };
        assert(path@ == denoted(self.root(), rel@));
        Some(path)
    }

    /// Resolves an SMB relative path (using `\` or `/` separators) to a host
    /// path, rejecting any path that escapes the share root.
    pub fn resolve(&self, rel: &str) -> (r: Option<HostPath>)
        ensures
            r is None ==> resolves(self.root(), rel@, None),
            r matches Some(p) ==> resolves(self.root(), rel@, Some(p@)),
    {
        let pieces = split_path(rel, true);
        let ghost all = split(rel@, true);
        let mut normal: Vec<bool> = Vec::new();
        let mut i: usize = 0;
        proof {
            lemma_split(rel@, true);
        }
        while i < pieces.len()
            invariant
                0 <= i <= pieces@.len(),
                all == views(pieces@),
                normal@.len() == i,
                forall|k: int, j: int|
                    0 <= k < all.len() && 0 <= j < all[k].len() ==> !is_separator(
                        #[trigger] all[k][j],
                        true,
                    ),
                forall|k: int|
                    0 <= k < i && is_name(#[trigger] all[k]) && !has_drive(all) ==> normal@[k],
            decreases pieces@.len() - i,
        {
            let ghost piece = all[i as int];
            let verdict = is_single_normal(pieces[i].as_str());
            proof {
                if is_name(piece) && !has_drive(all) {
                    assert(!is_drive(all[i as int]));
                    assert forall|j: int| 0 <= j < piece.len() implies !is_separator(
                        #[trigger] piece[j],
                        true,
                    ) by {
                        assert(!is_separator(all[i as int][j], true));
                    }
                }
            }
            normal.push(verdict);
            i = i + 1;
        }
        let r = self.resolve_with(rel, &normal);
        proof {
            if r is Some {
                lemma_kept(all);
            }
        }
        r
    }

    /// The path whose metadata answers a stat of `rel`, or the failure that
    /// answers it at once. A trailing reparse point is not followed.
    pub fn stat(&self, rel: &str) -> (r: Result<HostPath, IoErrorKind>)
        ensures
            match r {
                Ok(p) => resolves(self.root(), rel@, Some(p@)),
                Err(kind) => kind == IoErrorKind::NotFound && resolves(self.root(), rel@, None),
            },
    {
        match self.resolve(rel) {
            Some(path) => Ok(path),
            None => Err(IoErrorKind::NotFound),
        }
    }

    /// The path to open for reading `rel`, or the failure that answers it at
    /// once. Directories return an error: see [`admit_open`].
    pub fn open(&self, rel: &str) -> (r: Result<HostPath, IoErrorKind>)
        ensures
            match r {
                Ok(p) => resolves(self.root(), rel@, Some(p@)),
                Err(kind) => kind == IoErrorKind::NotFound && resolves(self.root(), rel@, None),
            },
    {
        match self.resolve(rel) {
            Some(path) => Ok(path),
            None => Err(IoErrorKind::NotFound),
        }
    }

    /// Starts reading up to `len` bytes at `offset` from the file at `rel`.
    pub fn read(&self, rel: &str, offset: u64, len: usize) -> (r: Result<PendingRead, IoErrorKind>)
        ensures
            match r {
                Ok(p) => resolves(self.root(), rel@, Some(p.path()@)) && p.offset() == offset && p.wanted()
                    == len && p.data() == Seq::<u8>::empty(),
                Err(kind) => kind == IoErrorKind::NotFound && resolves(self.root(), rel@, None),
            },
    {
        match self.open(rel) {
            Ok(path) => Ok(PendingRead { path, offset, wanted: len, data: Vec::new() }),
            Err(kind) => Err(kind),
        }
    }

    /// The reparse point whose data buffer answers for `rel`, or the failure
    /// that answers at once.
    pub fn read_reparse(&self, rel: &str) -> (r: Result<HostPath, IoErrorKind>)
        ensures
            match r {
                Ok(p) => resolves(self.root(), rel@, Some(p@)),
                Err(kind) => kind == IoErrorKind::NotFound && resolves(self.root(), rel@, None),
            },
    {
        match self.resolve(rel) {
            Some(path) => Ok(path),
            None => Err(IoErrorKind::NotFound),
        }
    }

    /// The path whose security descriptor answers for `rel`, or `None` if
    /// there is none to be had.
    pub fn read_security(&self, rel: &str) -> (r: Option<HostPath>)
        ensures
            r is None ==> resolves(self.root(), rel@, None),
            r matches Some(p) ==> resolves(self.root(), rel@, Some(p@)),
    {
        self.resolve(rel)
    }

    /// The path whose streams answer for `rel`, or `None` if it has none.
    pub fn list_streams(&self, rel: &str) -> (r: Option<HostPath>)
        ensures
            r is None ==> resolves(self.root(), rel@, None),
            r matches Some(p) ==> resolves(self.root(), rel@, Some(p@)),
    {
        self.resolve(rel)
    }

    /// The directory whose contents answer an enumeration of `rel`, or the
    /// failure that answers it at once.
    pub fn enumerate(&self, rel: &str) -> (r: Result<HostPath, IoErrorKind>)
        ensures
            match r {
                Ok(p) => resolves(self.root(), rel@, Some(p@)),
                Err(kind) => kind == IoErrorKind::NotFound && resolves(self.root(), rel@, None),
            },
    {
        match self.resolve(rel) {
            Some(path) => Ok(path),
            None => Err(IoErrorKind::NotFound),
        }
    }
}

/// Decides whether what was opened for reading is read: directories return an
/// error.
pub fn admit_open(is_dir: bool) -> (r: Result<(), IoErrorKind>)
    ensures
        r is Err <==> is_dir,
        r matches Err(kind) ==> kind == IoErrorKind::Other,
{
    if is_dir {
        Err(IoErrorKind::Other)
    } else {
        Ok(())
    }
}

/// Whatever relative path a guest sends, the host path that it resolves to is
/// its root followed by names, none of which goes up or holds a separator; and a
/// path that goes up anywhere resolves to none. A name that starts with a drive
/// prefix is among them only where the host's own parsing takes it for a plain
/// name.
pub proof fn law_resolution_stays_below_root(root: Seq<char>, rel: Seq<char>, r: Option<PathState>)
    requires
        resolves(root, rel, r),
    ensures
        goes_up(split(rel, true)) ==> r is None,
        r matches Some(p) ==> p.root == root && is_contained(p.parts) && forall|i: int|
            0 <= i < p.parts.len() ==> #[trigger] p.parts[i] != dot_dot(),
{
    if r is Some {
        let p = r->0;
        assert forall|i: int| 0 <= i < p.parts.len() implies #[trigger] p.parts[i]
            != dot_dot() by {
            assert(is_name(p.parts[i]));
        }
    }
}

/// A path with `\` in place of every `/`.
pub open spec fn backslashed(rel: Seq<char>) -> Seq<char> {
    Seq::new(
        rel.len(),
        |i: int|
            if rel[i] == '/' {
                '\\'
            } else {
                rel[i]
            },
    )
}

proof fn lemma_split_backslashed(rel: Seq<char>)
    ensures
        split(backslashed(rel), true) == split(rel, true),
    decreases rel.len(),
{
    if rel.len() != 0 {
        lemma_split_backslashed(rel.drop_last());
        assert(backslashed(rel).drop_last() =~= backslashed(rel.drop_last()));
    }
}

/// The two separators are interchangeable: a path resolves to whatever it
/// resolves to with `\` in place of every `/`.
pub proof fn law_separators_are_interchangeable(
    root: Seq<char>,
    rel: Seq<char>,
    r: Option<PathState>,
)
    ensures
        resolves(root, rel, r) <==> resolves(root, backslashed(rel), r),
        denoted(root, rel) == denoted(root, backslashed(rel)),
{
    lemma_split_backslashed(rel);
}

/// What a positioned read of `wanted` bytes comes to when a read of the host file has
/// returned `chunk`: the bytes so far, and whether to read on.
pub open spec fn absorbed(data: Seq<u8>, wanted: nat, chunk: Seq<u8>) -> (Seq<u8>, bool) {
    (data + chunk, chunk.len() > 0 && data.len() + chunk.len() < wanted)
}

/// A positioned read in progress: what was asked for and what has come so far.
pub struct PendingRead {
    path: HostPath,
    offset: u64,
    wanted: usize,
    data: Vec<u8>,
}

impl PendingRead {
    /// The file to read.
    pub closed spec fn path(&self) -> HostPath {
        self.path
    }

    /// Where the read starts.
    pub closed spec fn offset(&self) -> u64 {
        self.offset
    }

    /// How many bytes were asked for.
    pub closed spec fn wanted(&self) -> nat {
        self.wanted as nat
    }

    /// The bytes that have come so far.
    pub closed spec fn data(&self) -> Seq<u8> {
        self.data@
    }

    /// The file to read and where the read starts.
    pub fn source(&self) -> (r: (&HostPath, u64))
        ensures
            *r.0 == self.path(),
            r.1 == self.offset(),
    {
        (&self.path, self.offset)
    }

    /// How many more bytes the read may take; 0 once it is filled.
    pub fn remaining(&self) -> (r: usize)
        requires
            self.data().len() <= self.wanted(),
        ensures
            r == self.wanted() - self.data().len(),
    {
        self.wanted - self.data.len()
    }

    /// Takes in what one read of the host file returned, and says whether to
    /// read on: until the read is filled or the file has ended.
    pub fn absorb(&mut self, chunk: &[u8]) -> (more: bool)
        requires
            old(self).data().len() + chunk@.len() <= old(self).wanted(),
        ensures
            final(self).data() == old(self).data() + chunk@,
            final(self).wanted() == old(self).wanted(),
            final(self).path() == old(self).path(),
            final(self).offset() == old(self).offset(),
            more <==> chunk@.len() > 0 && final(self).data().len() < final(self).wanted(),
            (final(self).data(), more) == absorbed(old(self).data(), old(self).wanted(), chunk@),
    {
        crate::wire::put_bytes(&mut self.data, chunk);
        chunk.len() > 0 && self.data.len() < self.wanted
    }

    /// The bytes that were read.
    pub fn into_data(self) -> (r: Vec<u8>)
        ensures
            r@ == self.data(),
    {
        self.data
    }
}

/// A size rounded up to whole 4 KiB clusters.
pub open spec fn cluster_round(size: int) -> int {
    (size + 4095) / 4096 * 4096
}

/// The allocation size of a file: the least multiple of the cluster size that
/// holds it.
pub proof fn law_allocation_covers_size(size: int)
    requires
        0 <= size,
    ensures
        size <= cluster_round(size) < size + 4096,
        cluster_round(size) % 4096 == 0,
{
}

/// Rounds a size up to whole 4 KiB clusters.
pub fn allocation_size(size: u64) -> (r: u64)
    requires
        cluster_round(size as int) <= u64::MAX,
    ensures
        r == cluster_round(size as int),
{
    let whole: u64 = size / 4096;
    if size % 4096 == 0 {
        whole * 4096
    } else {
        (whole + 1) * 4096
    }
}

/// A host timestamp.
#[derive(Copy, Clone, Debug)]
pub enum HostTime {
    /// At or after the Unix epoch.
    SinceEpoch {
        /// Whole seconds since the epoch.
        secs: u64,
        /// Nanoseconds within the second.
        nanos: u32,
    },
    /// Before the Unix epoch.
    BeforeEpoch,
}

/// A host timestamp in 100ns ticks since 1601-01-01, unbounded. A time before
/// the Unix epoch counts as the epoch.
pub open spec fn filetime_ticks(time: HostTime) -> int {
    match time {
        HostTime::SinceEpoch { secs, nanos } => secs * 10_000_000 + nanos / 100
            + FILETIME_UNIX_EPOCH_DIFF,
        HostTime::BeforeEpoch => FILETIME_UNIX_EPOCH_DIFF as int,
    }
}

/// A FILETIME: the tick count, capped at the largest `u64`.
pub open spec fn filetime(time: HostTime) -> u64 {
    if filetime_ticks(time) <= u64::MAX {
        filetime_ticks(time) as u64
    } else {
        u64::MAX
    }
}

/// Converts a host timestamp to a Windows FILETIME (100ns ticks since 1601).
pub fn to_filetime(time: HostTime) -> (r: u64)
    ensures
        r == filetime(time),
{
    match time {
        HostTime::SinceEpoch { secs, nanos } => {
            let ticks: u64 = match secs.checked_mul(10_000_000) {
                Some(t) => t,
                None => u64::MAX,
            };
            let ticks: u64 = ticks.saturating_add((nanos / 100) as u64);
            ticks.saturating_add(FILETIME_UNIX_EPOCH_DIFF)
        },
        HostTime::BeforeEpoch => FILETIME_UNIX_EPOCH_DIFF,
    }
}

/// A time that could not be had counts as 0.
pub open spec fn filetime_or_zero(time: Option<HostTime>) -> u64 {
    match time {
        Some(t) => filetime(t),
        None => 0,
    }
}

fn to_filetime_or_zero(time: Option<HostTime>) -> (r: u64)
    ensures
        r == filetime_or_zero(time),
{
    match time {
        Some(t) => to_filetime(t),
        None => 0,
    }
}

/// What a host without Windows file attributes reports about a file.
#[derive(Copy, Clone, Debug)]
pub struct Metadata {
    /// Whether this is a directory.
    pub is_dir: bool,
    /// The file size, in bytes.
    pub len: u64,
    /// Creation time, if known.
    pub created: Option<HostTime>,
    /// Last access time, if known.
    pub accessed: Option<HostTime>,
    /// Last modification time, if known.
    pub modified: Option<HostTime>,
}

/// Builds a [`FileInfo`] from plain metadata, converting times to FILETIME and
/// setting Windows attributes.
pub fn file_info_from_meta(meta: &Metadata) -> (r: FileInfo)
    requires
        meta.is_dir || cluster_round(meta.len as int) <= u64::MAX,
    ensures
        r == (FileInfo {
            size: if meta.is_dir {
                0
            } else {
                meta.len
            },
            allocation_size: if meta.is_dir {
                0
            } else {
                cluster_round(meta.len as int) as u64
            },
            attributes: if meta.is_dir {
                ATTR_DIRECTORY
            } else {
                0x81
            },
            is_dir: meta.is_dir,
            creation_time: filetime_or_zero(meta.created),
            last_access_time: filetime_or_zero(meta.accessed),
            last_write_time: filetime_or_zero(meta.modified),
            change_time: filetime_or_zero(meta.modified),
            reparse_tag: 0,
        }),
{
    let size: u64 = if meta.is_dir {
        0
    } else {
        meta.len
    };
    let allocation_size: u64 = allocation_size(size);
    let last_write_time: u64 = to_filetime_or_zero(meta.modified);
    let attributes: u32 = if meta.is_dir {
        ATTR_DIRECTORY
    } else {
        ATTR_READONLY | ATTR_NORMAL
    };
    assert(0x0000_0001u32 | 0x0000_0080u32 == 0x81) by (bit_vector);
    FileInfo {
        size,
        allocation_size,
        attributes,
        is_dir: meta.is_dir,
        creation_time: to_filetime_or_zero(meta.created),
        last_access_time: to_filetime_or_zero(meta.accessed),
        last_write_time,
        change_time: last_write_time,
        reparse_tag: 0,
    }
}

/// What a Windows host reports about a file; the times are FILETIMEs.
#[derive(Copy, Clone, Debug)]
pub struct WindowsMetadata {
    /// Windows file attributes.
    pub attributes: u32,
    /// The file size, in bytes.
    pub file_size: u64,
    /// Creation time.
    pub creation_time: u64,
    /// Last access time.
    pub last_access_time: u64,
    /// Last write time.
    pub last_write_time: u64,
}

/// Whether attributes mark a directory.
pub open spec fn is_directory(attributes: u32) -> bool {
    attributes & ATTR_DIRECTORY != 0
}

/// Whether attributes mark a reparse point.
pub open spec fn is_reparse_point(attributes: u32) -> bool {
    attributes & ATTR_REPARSE_POINT != 0
}

/// Whether attributes mark a reparse point, so that its tag has to be read.
pub fn has_reparse_tag(attributes: u32) -> (r: bool)
    ensures
        r == is_reparse_point(attributes),
{
    attributes & ATTR_REPARSE_POINT != 0
}

/// Builds a [`FileInfo`] from Windows metadata. `tag` is the reparse tag, if
/// it could be read; it counts only for a reparse point.
pub fn file_info_from_windows(meta: &WindowsMetadata, tag: Option<u32>) -> (r: FileInfo)
    requires
        is_directory(meta.attributes) || cluster_round(meta.file_size as int) <= u64::MAX,
    ensures
        r == (FileInfo {
            size: if is_directory(meta.attributes) {
                0
            } else {
                meta.file_size
            },
            allocation_size: if is_directory(meta.attributes) {
                0
            } else {
                cluster_round(meta.file_size as int) as u64
            },
            attributes: meta.attributes,
            is_dir: is_directory(meta.attributes),
            creation_time: meta.creation_time,
            last_access_time: meta.last_access_time,
            last_write_time: meta.last_write_time,
            change_time: meta.last_write_time,
            reparse_tag: if is_reparse_point(meta.attributes) {
                match tag {
                    Some(t) => t,
                    None => 0,
                }
            } else {
                0
            },
        }),
{
    let is_dir = meta.attributes & ATTR_DIRECTORY != 0;
    let size: u64 = if is_dir {
        0
    } else {
        meta.file_size
    };
    let reparse_tag: u32 = if has_reparse_tag(meta.attributes) {
        match tag {
            Some(t) => t,
            None => 0,
        }
    } else {
        0
    };
    FileInfo {
        size,
        allocation_size: allocation_size(size),
        attributes: meta.attributes,
        is_dir,
        creation_time: meta.creation_time,
        last_access_time: meta.last_access_time,
        last_write_time: meta.last_write_time,
        change_time: meta.last_write_time,
        reparse_tag,
    }
}

/// The units before the first NUL, or all of them if there is none.
pub open spec fn until_nul(units: Seq<u16>) -> Seq<u16>
    decreases units.len(),
{
    if units.len() == 0 || units[0] == 0 {
        Seq::empty()
    } else {
        seq![units[0]] + until_nul(units.skip(1))
    }
}

proof fn lemma_until_nul(units: Seq<u16>, n: int)
    requires
        0 <= n <= units.len(),
        forall|i: int| 0 <= i < n ==> units[i] != 0,
        n == units.len() || units[n] == 0,
    ensures
        until_nul(units) == units.take(n),
    decreases units.len(),
{
    if n == 0 {
        assert(units.take(0) =~= Seq::<u16>::empty());
    } else {
        lemma_until_nul(units.skip(1), n - 1);
        assert(units.take(n) =~= seq![units[0]] + units.skip(1).take(n - 1));
    }
}

/// The text of a NUL-terminated run of UTF-16 code units, with U+FFFD for each
/// unpaired surrogate.
pub fn wstr_from_slice(buf: &[u16]) -> (r: String)
    ensures
        r@ == lossy_utf16(until_nul(buf@)),
{
    let mut end: usize = 0;
    while end < buf.len() && buf[end] != 0
        invariant
            end <= buf@.len(),
            forall|i: int| 0 <= i < end ==> buf@[i] != 0,
        decreases buf@.len() - end,
    {
        end = end + 1;
    }
    proof {
        lemma_until_nul(buf@, end as int);
    }
    string_from_utf16_lossy(vstd::slice::slice_subrange(buf, 0, end))
}

} // verus!
