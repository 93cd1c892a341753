//! A backing store for the vmbus file system that serves a host directory tree
//! read-only.
//!
//! This is used to boot a UVM whose OS files live in a host directory (the
//! `UtilityVM\Files` tree of a WCOW image layer). The vmbfs protocol is
//! path-based (`GET_FILE_INFO` + `READ_FILE`), so no directory enumeration is
//! required: the boot loader reads files by their known paths.
//!
//! The store decides which host file a path denotes and whether the file opened
//! last can be read on. Opening and reading are left to the caller.

use crate::backing::{dot, dot_dot, goes_up, is_contained, is_name, kept, HostPath, PathState};
use crate::backing::laws::{lemma_kept_filter, named_pieces};
use crate::text::laws::{law_split, piece_offset};
use crate::text::{chars_of, is_separator, lemma_split, split, split_path, views};
use vstd::prelude::*;

verus! {

/// Why a file is not served.
#[derive(Copy, Clone, Debug, PartialEq, Eq, Structural)]
pub enum FileError {
    /// There is no such file.
    NotFound,
}

/// What is known about a file.
#[derive(Copy, Clone, Debug, PartialEq, Eq, Structural)]
pub struct FileInfo {
    /// Whether it is a directory.
    pub directory: bool,
    /// Its size, in bytes.
    pub file_size: u64,
}

/// Whether a character could reinterpret a path outside its root: an alternate
/// separator or a drive or stream marker.
pub open spec fn is_marker(c: char) -> bool {
    c == '\\' || c == ':'
}

/// Whether a name along a split path holds such a character.
pub open spec fn has_marker(parts: Seq<Seq<char>>) -> bool {
    exists|i: int, j: int|
        0 <= i < parts.len() && 0 <= j < parts[i].len() && is_marker(#[trigger] parts[i][j])
}

/// The host path that a vmbfs path denotes: the names along it, below the
/// root. A path that goes up or holds a marker denotes none.
pub open spec fn located(root: Seq<char>, path: Seq<char>) -> Option<PathState> {
    let parts = split(path, false);
    if goes_up(parts) || has_marker(parts) {
        None
    } else {
        Some(PathState { root, parts: kept(parts) })
    }
}

/// Whatever path the guest sends, the host file it denotes, if any, stays below
/// the root: no part of it goes up or holds a separator or a drive marker.
pub proof fn law_vmbfs_path_stays_below_root(root: Seq<char>, path: Seq<char>)
    ensures
        located(root, path) matches Some(p) ==> p.root == root && is_contained(p.parts)
            && !has_marker(p.parts),
{
    let parts = split(path, false);
    lemma_split(path, false);
    if !goes_up(parts) && !has_marker(parts) {
        lemma_kept_plain(parts);
    }
}

proof fn lemma_kept_plain(parts: Seq<Seq<char>>)
    requires
        !goes_up(parts),
        !has_marker(parts),
        forall|i: int, j: int|
            0 <= i < parts.len() && 0 <= j < parts[i].len() ==> !is_separator(
                #[trigger] parts[i][j],
                false,
            ),
    ensures
        is_contained(kept(parts)),
        !has_marker(kept(parts)),
    decreases parts.len(),
{
    if parts.len() != 0 {
        let front = parts.drop_last();
        let last = parts[parts.len() - 1];
        assert forall|i: int| 0 <= i < front.len() implies #[trigger] front[i] != dot_dot() by {
            assert(parts[i] != dot_dot());
        }
        assert forall|i: int, j: int|
            0 <= i < front.len() && 0 <= j < front[i].len() implies !is_marker(
            #[trigger] front[i][j],
        ) && !is_separator(front[i][j], false) by {
            assert(!is_marker(parts[i][j]));
            assert(!is_separator(parts[i][j], false));
        }
        lemma_kept_plain(front);
        let k = kept(parts);
        assert(last != dot_dot());
        assert forall|i: int, j: int| 0 <= i < k.len() && 0 <= j < k[i].len() implies !is_marker(
            #[trigger] k[i][j],
        ) && !is_separator(k[i][j], true) by {
            if i < kept(front).len() {
                assert(k[i] == kept(front)[i]);
                assert(!is_marker(kept(front)[i][j]));
                assert(!is_separator(kept(front)[i][j], true));
            } else {
                assert(!is_marker(parts[parts.len() - 1][j]));
                assert(!is_separator(parts[parts.len() - 1][j], false));
            }
        }
        assert forall|i: int| 0 <= i < k.len() implies is_name(#[trigger] k[i]) by {
            if i < kept(front).len() {
                assert(k[i] == kept(front)[i]);
            }
        }
    }
}

/// How to serve a read.
pub enum ReadPlan {
    /// Read from the file opened last.
    Reuse,
    /// Open this file, and read from it.
    Open(HostPath),
}

/// A backing store that serves files from a host directory tree, addressed by
/// path. Read-only.
pub struct VmbfsDirBacking {
    root: String,
    // The path of the file opened last, so that the sequential chunked reads
    // the boot loader issues for a single file don't reopen it on every
    // request.
    open: Option<String>,
}

impl VmbfsDirBacking {
    /// The directory whose contents are served.
    pub closed spec fn root(&self) -> Seq<char> {
        self.root@
    }

    /// The path of the file opened last.
    pub closed spec fn opened(&self) -> Option<Seq<char>> {
        match self.open {
            Some(path) => Some(path@),
            None => None,
        }
    }

    /// The store's validity: the file opened last is one that it serves.
    pub open spec fn wf(&self) -> bool {
        self.opened() matches Some(path) ==> located(self.root(), path) is Some
    }

    /// Serves the contents of `root` read-only over vmbfs.
    pub fn new(root: &str) -> (r: VmbfsDirBacking)
        ensures
            r.wf(),
            r.root() == root@,
            r.opened() is None,
    {
        VmbfsDirBacking { root: root.to_owned(), open: None }
    }

    /// Resolves a guest-supplied vmbfs path (forward-slash separated, absolute)
    /// to a host path under `root`, rejecting any attempt to escape the root.
    pub fn resolve(&self, path: &str) -> (r: Option<HostPath>)
        ensures
            match r {
                Some(p) => located(self.root(), path@) == Some(p@),
                None => located(self.root(), path@) is None,
            },
    {
        let pieces = split_path(path, false);
        let ghost all = split(path@, false);
        let mut parts: Vec<String> = Vec::new();
        let mut i: usize = 0;
        assert(all.take(0) =~= Seq::<Seq<char>>::empty());
        assert(views(parts@) =~= kept(all.take(0)));
        while i < pieces.len()
            invariant
                i <= pieces@.len(),
                all == split(path@, false),
                all == views(pieces@),
                views(parts@) == kept(all.take(i as int)),
                forall|k: int| 0 <= k < i ==> #[trigger] all[k] != dot_dot(),
                forall|k: int, j: int|
                    0 <= k < i && 0 <= j < all[k].len() ==> !is_marker(#[trigger] all[k][j]),
            decreases pieces@.len() - i,
        {
            let piece = chars_of(pieces[i].as_str());
            proof {
                assert(all[i as int] == piece@);
                assert(all.take(i + 1).drop_last() =~= all.take(i as int));
                assert(all.take(i + 1).last() == piece@);
                assert(dot_dot().len() == 2);
            }
            if piece.len() == 0 || (piece.len() == 1 && piece[0] == '.') {
                assert(piece@.len() == 1 ==> piece@ =~= dot());
            } else if piece.len() == 2 && piece[0] == '.' && piece[1] == '.' {
                assert(piece@ =~= dot_dot());
                return None;
            } else {
                assert(piece@ != dot()) by {
                    assert(dot()[0] == '.');
                }
                assert(piece@ != dot_dot()) by {
                    assert(dot_dot()[0] == '.' && dot_dot()[1] == '.');
                }
                // Reject anything that could reinterpret the path outside
                // `root` (drive-relative, alternate separators, etc.).
                let mut j: usize = 0;
                while j < piece.len()
                    invariant
                        j <= piece@.len(),
                        i < all.len(),
                        all == split(path@, false),
                        all[i as int] == piece@,
                        forall|l: int| 0 <= l < j ==> !is_marker(#[trigger] piece@[l]),
                    decreases piece@.len() - j,
                {
                    if piece[j] == '\\' || piece[j] == ':' {
                        assert(is_marker(all[i as int][j as int]));
                        return None;
                    }
                    j = j + 1;
                }
                let ghost before = views(parts@);
                parts.push(pieces[i].clone());
                assert(views(parts@) =~= before.push(piece@));
            }
            i = i + 1;
        }
        assert(all.take(i as int) =~= all);
        Some(HostPath { root: self.root.clone(), parts })
    }

    /// The host file whose metadata answers for `path`.
    pub fn file_info(&self, path: &str) -> (r: Result<HostPath, FileError>)
        ensures
            match r {
                Ok(p) => located(self.root(), path@) == Some(p@),
                Err(e) => e == FileError::NotFound && located(self.root(), path@) is None,
            },
    {
        match self.resolve(path) {
            Some(full) => Ok(full),
            None => Err(FileError::NotFound),
        }
    }

    /// How to serve a read from `path`: from the file opened last if it is the
    /// same, from a newly opened one otherwise.
    pub fn read_file(&self, path: &str) -> (r: Result<ReadPlan, FileError>)
        requires
            self.wf(),
        ensures
            match r {
                Ok(ReadPlan::Reuse) => self.opened() == Some(path@) && located(
                    self.root(),
                    path@,
                ) is Some,
                Ok(ReadPlan::Open(p)) => self.opened() != Some(path@) && located(
                    self.root(),
                    path@,
                ) == Some(p@),
                Err(e) => e == FileError::NotFound && located(self.root(), path@) is None,
            },
    {
        if let Some(opened) = &self.open {
            if *opened == path.to_owned() {
                return Ok(ReadPlan::Reuse);
            }
        }
        match self.resolve(path) {
            Some(full) => Ok(ReadPlan::Open(full)),
            None => Err(FileError::NotFound),
        }
    }

    /// Takes note that the file at `path` has been opened, in place of the one
    /// before.
    pub fn note_opened(&mut self, path: &str)
        requires
            located(old(self).root(), path@) is Some,
        ensures
            final(self).wf(),
            final(self).root() == old(self).root(),
            final(self).opened() == Some(path@),
    {
        self.open = Some(path.to_owned());
    }
}

/// Which host file a path denotes. A path with `..` between its slashes, or with a
/// backslash or a colon anywhere, denotes none. Any other denotes the root followed
/// by the pieces between its slashes, without those that are empty or a single dot.
pub proof fn law_located(root: Seq<char>, path: Seq<char>)
    ensures
        ({
            let pieces = split(path, false);
            let up = exists|i: int| 0 <= i < pieces.len() && #[trigger] pieces[i] == seq!['.', '.'];
            let marked = exists|k: int|
                0 <= k < path.len() && (#[trigger] path[k] == '\\' || path[k] == ':');
            match located(root, path) {
                None => up || marked,
                Some(p) => !up && !marked && p.root == root && p.parts == named_pieces(pieces),
            }
        }),
{
    let pieces = split(path, false);
    lemma_kept_filter(pieces);
    assert(dot_dot() == seq!['.', '.']);
    if has_marker(pieces) {
        let (i, j) = choose|i: int, j: int|
            0 <= i < pieces.len() && 0 <= j < pieces[i].len() && is_marker(
                #[trigger] pieces[i][j],
            );
        law_split(path, false, i);
        let at = piece_offset(pieces, i);
        let end = at + pieces[i].len();
        assert(path.subrange(at, end)[j] == path[at + j]);
    }
    if exists|k: int| 0 <= k < path.len() && (#[trigger] path[k] == '\\' || path[k] == ':') {
        let k = choose|k: int|
            0 <= k < path.len() && (#[trigger] path[k] == '\\' || path[k] == ':');
        lemma_piece_of(path, k, pieces.len() as int);
    }
}

/// Every character before the end of the first `n` pieces of a path stands in one of
/// them or is the slash behind one.
proof fn lemma_piece_of(path: Seq<char>, k: int, n: int)
    requires
        0 <= n <= split(path, false).len(),
        0 <= k < path.len(),
        k < piece_offset(split(path, false), n) || n == split(path, false).len(),
        is_marker(path[k]),
    ensures
        n > 0 ==> has_marker(split(path, false)),
    decreases n,
{
    let pieces = split(path, false);
    if n > 0 {
        let at = piece_offset(pieces, n - 1);
        law_split(path, false, n - 1);
        if k < at {
            if n > 1 {
                lemma_piece_of(path, k, n - 1);
            }
        } else {
            let end = at + pieces[n - 1].len();
            assert(path[k] == path.subrange(at, end)[k - at]);
            assert(is_marker(pieces[n - 1][k - at]));
        }
    }
}

/// Files are looked up and read on the paths that they denote, below the directory
/// that the store was made with. The file opened last is read on where the path is
/// the same, to the letter, and any other is opened.
pub proof fn law_store_serves_what_is_located(
    root: &str,
    store: VmbfsDirBacking,
    path: &str,
    resolved: Option<HostPath>,
    looked_up: Result<HostPath, FileError>,
    planned: Result<ReadPlan, FileError>,
)
    requires
        store.wf(),
    ensures
        call_ensures(VmbfsDirBacking::new, (root,), store) ==> store.root() == root@
            && store.opened() is None,
        call_ensures(VmbfsDirBacking::resolve, (&store, path), resolved) ==> match resolved {
            Some(p) => located(store.root(), path@) == Some(p@),
            None => located(store.root(), path@) is None,
        },
        call_ensures(VmbfsDirBacking::file_info, (&store, path), looked_up) ==> match looked_up {
            Ok(p) => located(store.root(), path@) == Some(p@),
            Err(e) => located(store.root(), path@) is None,
        },
        call_ensures(VmbfsDirBacking::read_file, (&store, path), planned) ==> match planned {
            Ok(ReadPlan::Reuse) => store.opened() == Some(path@) && located(
                store.root(),
                path@,
            ) is Some,
            Ok(ReadPlan::Open(p)) => store.opened() != Some(path@) && located(store.root(), path@)
                == Some(p@),
            Err(e) => located(store.root(), path@) is None,
        },
{
}

} // verus!
