//! Which host path a path of the guest comes to, and what metadata come to.

use super::{
    absorbed, admit_open, allocation_size, cluster_round, file_info_from_meta,
    file_info_from_windows, filetime, has_drive, has_reparse_tag, is_directory, kept, resolves,
    until_nul, wstr_from_slice, Backing, FileInfo, HostPath, HostTime, IoErrorKind, Metadata,
    PathState, PendingRead, WindowsMetadata,
};
use crate::text::{lossy_utf16, split};
use vstd::prelude::*;

verus! {

/// What is left of a split path: the pieces, in order, without the empty ones and
/// those that are a single dot.
pub open spec fn named_pieces(pieces: Seq<Seq<char>>) -> Seq<Seq<char>> {
    pieces.filter(|p: Seq<char>| p.len() > 0 && p != seq!['.'])
}

pub(crate) proof fn lemma_kept_filter(pieces: Seq<Seq<char>>)
    ensures
        kept(pieces) == named_pieces(pieces),
    decreases pieces.len(),
{
    reveal(Seq::filter);
    if pieces.len() != 0 {
        lemma_kept_filter(pieces.drop_last());
    }
}

/// Whether `r` is what a path of the guest may come to below `root`. A path with
/// `..` between its separators comes to nothing. Any other comes to the root
/// followed by its pieces, without those that are empty or a single dot; it may be
/// refused only where a piece starts with a letter and a colon.
pub open spec fn is_resolution(root: Seq<char>, rel: Seq<char>, r: Option<PathState>) -> bool {
    let pieces = split(rel, true);
    let up = exists|i: int| 0 <= i < pieces.len() && #[trigger] pieces[i] == seq!['.', '.'];
    let drive = exists|i: int|
        0 <= i < pieces.len() && (#[trigger] pieces[i]).len() >= 2 && pieces[i][1] == ':' && (0x41
            <= pieces[i][0] as u32 <= 0x5A || 0x61 <= pieces[i][0] as u32 <= 0x7A);
    match r {
        None => up || drive,
        Some(p) => !up && p.root == root && p.parts == named_pieces(pieces),
    }
}

/// What the answers that a host may give come to.
pub proof fn law_resolution(root: Seq<char>, rel: Seq<char>, r: Option<PathState>)
    requires
        resolves(root, rel, r),
    ensures
        is_resolution(root, rel, r),
{
    let pieces = split(rel, true);
    lemma_kept_filter(pieces);
    assert(super::dot_dot() == seq!['.', '.']);
    if r is None && has_drive(pieces) {
        let i = choose|i: int| 0 <= i < pieces.len() && super::is_drive(#[trigger] pieces[i]);
        lemma_letter(pieces[i][0]);
        assert(pieces[i].len() >= 2);
    }
}

proof fn lemma_letter(c: char)
    ensures
        'a' <= c <= 'z' || 'A' <= c <= 'Z' ==> 0x41 <= c as u32 <= 0x5A || 0x61 <= c as u32 <= 0x7A,
{
}

/// Every operation of a backing is on the path that the guest named, below the root
/// of the backing; where that path comes to nothing, there is no such file.
pub proof fn law_backing_stays_on_the_path(
    backing: Backing,
    rel: &str,
    path: Option<HostPath>,
    opened: Result<HostPath, IoErrorKind>,
)
    ensures
        call_ensures(Backing::resolve, (&backing, rel), path) || call_ensures(
            Backing::read_security,
            (&backing, rel),
            path,
        ) || call_ensures(Backing::list_streams, (&backing, rel), path) ==> is_resolution(
            backing.root(),
            rel@,
            match path {
                Some(p) => Some(p@),
                None => None,
            },
        ),
        call_ensures(Backing::stat, (&backing, rel), opened) || call_ensures(
            Backing::open,
            (&backing, rel),
            opened,
        ) || call_ensures(Backing::read_reparse, (&backing, rel), opened) || call_ensures(
            Backing::enumerate,
            (&backing, rel),
            opened,
        ) ==> match opened {
            Ok(p) => is_resolution(backing.root(), rel@, Some(p@)),
            Err(kind) => kind == IoErrorKind::NotFound && is_resolution(backing.root(), rel@, None),
        },
{
    if resolves(backing.root(), rel@, None) {
        law_resolution(backing.root(), rel@, None);
    }
    if path is Some && resolves(backing.root(), rel@, Some(path->0@)) {
        law_resolution(backing.root(), rel@, Some(path->0@));
    }
    if opened is Ok && resolves(backing.root(), rel@, Some(opened->Ok_0@)) {
        law_resolution(backing.root(), rel@, Some(opened->Ok_0@));
    }
}

/// Given the host's verdict on each piece, a path comes to the root followed by its
/// named pieces, unless one of the pieces is `..` or a named one is no plain name.
pub proof fn law_resolution_by_verdict(
    backing: Backing,
    rel: &str,
    normal: Vec<bool>,
    r: Option<HostPath>,
)
    requires
        normal@.len() == split(rel@, true).len(),
        call_ensures(Backing::resolve_with, (&backing, rel, &normal), r),
    ensures
        ({
            let pieces = split(rel@, true);
            &&& r is None <==> exists|i: int|
                0 <= i < pieces.len() && (#[trigger] pieces[i] == seq!['.', '.'] || pieces[i].len()
                    > 0 && pieces[i] != seq!['.'] && !normal@[i])
            &&& r matches Some(p) ==> p@.root == backing.root() && p@.parts == named_pieces(pieces)
        }),
{
    let pieces = split(rel@, true);
    lemma_kept_filter(pieces);
    assert(super::dot_dot() == seq!['.', '.'] && super::dot() == seq!['.']);
    if r is None {
        if super::goes_up(pieces) {
            let i = choose|i: int|
                0 <= i < pieces.len() && #[trigger] pieces[i] == super::dot_dot();
            assert(pieces[i] == seq!['.', '.']);
        } else {
            let i = choose|i: int|
                0 <= i < pieces.len() && super::is_name(#[trigger] pieces[i]) && !normal@[i];
            assert(pieces[i].len() > 0);
        }
    } else {
        assert forall|i: int| 0 <= i < pieces.len() implies !(#[trigger] pieces[i] == seq!['.', '.']
            || pieces[i].len() > 0 && pieces[i] != seq!['.'] && !normal@[i]) by {
            assert(pieces[i] != super::dot_dot());
            assert(super::is_name(pieces[i]) ==> normal@[i]);
        }
    }
}

/// A backing keeps the root that it was made with, and a read starts on the named
/// path, where it was asked to, for as many bytes as it was asked for, with none
/// read yet.
pub proof fn law_read_starts_as_asked(
    root: &str,
    backing: Backing,
    rel: &str,
    offset: u64,
    len: usize,
    r: Result<PendingRead, IoErrorKind>,
)
    requires
        call_ensures(Backing::new, (root,), backing),
        call_ensures(Backing::read, (&backing, rel, offset, len), r),
    ensures
        match r {
            Ok(p) => {
                &&& is_resolution(root@, rel@, Some(p.path()@))
                &&& p.offset() == offset
                &&& p.wanted() == len
                &&& p.data().len() == 0
            },
            Err(kind) => kind == IoErrorKind::NotFound && is_resolution(root@, rel@, None),
        },
{
    match r {
        Ok(p) => law_resolution(root@, rel@, Some(p.path()@)),
        Err(_) => law_resolution(root@, rel@, None),
    }
}

/// What an unfinished read says of itself: what it was started with, and how much
/// of that has not come yet.
pub proof fn law_read_accounts(
    read: PendingRead,
    source: (&HostPath, u64),
    left: usize,
    data: Vec<u8>,
)
    requires
        read.data().len() <= read.wanted(),
        call_ensures(PendingRead::source, (&read,), source),
        call_ensures(PendingRead::remaining, (&read,), left),
        call_ensures(PendingRead::into_data, (read,), data),
    ensures
        *source.0 == read.path(),
        source.1 == read.offset(),
        data@ == read.data(),
        data@.len() + left == read.wanted(),
{
}

/// A read goes on until it is filled or the file has ended, and keeps every byte in
/// the order in which it came: two chunks are taken in as the two together are.
pub proof fn law_read_goes_on(data: Seq<u8>, wanted: nat, chunk: Seq<u8>, next: Seq<u8>)
    requires
        data.len() + chunk.len() <= wanted,
    ensures
        absorbed(data, wanted, chunk).0.take(data.len() as int) == data,
        absorbed(data, wanted, chunk).0.skip(data.len() as int) == chunk,
        absorbed(absorbed(data, wanted, chunk).0, wanted, next).0 == absorbed(
            data,
            wanted,
            chunk + next,
        ).0,
        !absorbed(data, wanted, chunk).1 <==> chunk.len() == 0 || absorbed(
            data,
            wanted,
            chunk,
        ).0.len() == wanted,
{
    assert(absorbed(data, wanted, chunk).0.take(data.len() as int) =~= data);
    assert(absorbed(data, wanted, chunk).0.skip(data.len() as int) =~= chunk);
    assert(data + chunk + next =~= data + (chunk + next));
}

/// Directories, and nothing else, are not read.
pub proof fn law_directories_are_not_read(is_dir: bool, r: Result<(), IoErrorKind>)
    requires
        call_ensures(admit_open, (is_dir,), r),
    ensures
        is_dir ==> r == Err::<(), IoErrorKind>(IoErrorKind::Other),
        !is_dir ==> r is Ok,
{
}

/// A host time is counted in ticks of 100 nanoseconds since the start of 1601,
/// 116444736000000000 of them before the Unix epoch, where times before it are put;
/// a count beyond 64 bits stays at the largest.
pub proof fn law_filetime(time: HostTime)
    ensures
        time is BeforeEpoch ==> filetime(time) == 116_444_736_000_000_000,
        time matches HostTime::SinceEpoch { secs, nanos } ==> {
            let ticks = 116_444_736_000_000_000 + secs * 10_000_000 + nanos / 100;
            &&& ticks <= 0xFFFF_FFFF_FFFF_FFFF ==> filetime(time) == ticks
            &&& ticks > 0xFFFF_FFFF_FFFF_FFFF ==> filetime(time) == 0xFFFF_FFFF_FFFF_FFFF
        },
{
}

/// One second later is ten million ticks later, and no later time has fewer ticks.
pub proof fn law_filetime_goes_with_time(secs: u64, nanos: u32, later: u64, later_nanos: u32)
    requires
        secs < later || secs == later && nanos <= later_nanos,
        nanos < 1_000_000_000 && later_nanos < 1_000_000_000,
    ensures
        ({
            let a = filetime(HostTime::SinceEpoch { secs, nanos });
            let b = filetime(HostTime::SinceEpoch { secs: later, nanos: later_nanos });
            &&& filetime(HostTime::BeforeEpoch) <= a <= b
            &&& later == secs + 1 && nanos == later_nanos && b < 0xFFFF_FFFF_FFFF_FFFF ==> b == a
                + 10_000_000
        }),
{
}

/// A size rounded up is the least number of whole clusters of 4096 bytes.
pub proof fn law_allocation_size(size: u64, r: u64)
    requires
        call_ensures(allocation_size, (size,), r),
        cluster_round(size as int) <= u64::MAX,
    ensures
        size <= r < size + 4096,
        r % 4096 == 0,
{
}

/// What is told of a file on a host without Windows attributes: each time is its
/// own, the change time that of the last write; a directory has the directory
/// attribute and no size, anything else is a read-only normal file with its size in
/// whole clusters; and nothing is a reparse point.
pub proof fn law_plain_metadata(meta: Metadata, r: FileInfo)
    requires
        meta.is_dir || meta.len + 4096 <= u64::MAX,
        call_ensures(file_info_from_meta, (&meta,), r),
    ensures
        r.is_dir == meta.is_dir,
        meta.is_dir ==> r.size == 0 && r.allocation_size == 0 && r.attributes == 0x10,
        !meta.is_dir ==> {
            &&& r.size == meta.len
            &&& r.size <= r.allocation_size < r.size + 4096
            &&& r.allocation_size % 4096 == 0
            &&& r.attributes == 0x81
        },
        r.creation_time == (match meta.created {
            Some(t) => filetime(t),
            None => 0,
        }),
        r.last_access_time == (match meta.accessed {
            Some(t) => filetime(t),
            None => 0,
        }),
        r.last_write_time == (match meta.modified {
            Some(t) => filetime(t),
            None => 0,
        }),
        r.change_time == r.last_write_time,
        r.reparse_tag == 0,
{
}

/// What is told of a file on a Windows host: its attributes and times as they are,
/// the change time that of the last write; no size for a directory, and the size in
/// whole clusters for anything else; and the tag of a reparse point, where it could
/// be read.
pub proof fn law_windows_metadata(meta: WindowsMetadata, tag: Option<u32>, r: FileInfo)
    requires
        meta.attributes & 0x10 != 0 || meta.file_size + 4096 <= u64::MAX,
        call_ensures(file_info_from_windows, (&meta, tag), r),
    ensures
        r.attributes == meta.attributes,
        r.is_dir <==> meta.attributes & 0x10 != 0,
        r.is_dir ==> r.size == 0 && r.allocation_size == 0,
        !r.is_dir ==> {
            &&& r.size == meta.file_size
            &&& r.size <= r.allocation_size < r.size + 4096
            &&& r.allocation_size % 4096 == 0
        },
        r.creation_time == meta.creation_time,
        r.last_access_time == meta.last_access_time,
        r.last_write_time == meta.last_write_time,
        r.change_time == meta.last_write_time,
        r.reparse_tag == (if meta.attributes & 0x400 != 0 && tag is Some {
            tag->0
        } else {
            0
        }),
{
    assert(is_directory(meta.attributes) <==> meta.attributes & 0x10 != 0);
}

/// A reparse tag is looked for exactly where the reparse point attribute is set.
pub proof fn law_reparse_attribute(attributes: u32, r: bool)
    requires
        call_ensures(has_reparse_tag, (attributes,), r),
    ensures
        r <==> attributes & 0x400 != 0,
{
}

/// What stands before the first NUL: a run without NUL from the start, that ends at
/// a NUL or with the units.
pub proof fn law_until_nul(units: Seq<u16>)
    ensures
        ({
            let text = until_nul(units);
            let n = text.len() as int;
            &&& n <= units.len()
            &&& text == units.take(n)
            &&& forall|i: int| 0 <= i < n ==> #[trigger] units[i] != 0
            &&& n < units.len() ==> units[n] == 0
        }),
    decreases units.len(),
{
    let text = until_nul(units);
    let n = text.len() as int;
    if units.len() != 0 && units[0] != 0 {
        let rest = units.skip(1);
        law_until_nul(rest);
        assert(text =~= units.take(n)) by {
            assert forall|i: int| 0 <= i < n implies text[i] == units[i] by {
                if i > 0 {
                    assert(text[i] == until_nul(rest)[i - 1]);
                    assert(rest.take(n - 1)[i - 1] == units[i]);
                }
            }
        }
        assert forall|i: int| 0 <= i < n implies #[trigger] units[i] != 0 by {
            if i > 0 {
                assert(rest[i - 1] != 0);
            }
        }
    } else {
        assert(text =~= units.take(0));
    }
}

/// A wide string is the text of what stands before its first NUL.
pub proof fn law_wide_string(buf: &[u16], r: String, n: int)
    requires
        call_ensures(wstr_from_slice, (buf,), r),
        0 <= n <= buf@.len(),
        forall|i: int| 0 <= i < n ==> buf@[i] != 0,
        n < buf@.len() ==> buf@[n] == 0,
    ensures
        r@ == lossy_utf16(buf@.take(n)),
{
    super::lemma_until_nul(buf@, n);
}

} // verus!
