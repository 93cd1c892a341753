//! Path resolution, metadata and directory listings.

use std::path::{Path, PathBuf};
use vsmb::backing::{
    admit_open, allocation_size, file_info_from_meta, file_info_from_windows, to_filetime, wstr_from_slice,
    Backing, FileInfo, HostPath, HostTime, IoErrorKind, Metadata, WindowsMetadata, ATTR_DIRECTORY,
    ATTR_REPARSE_POINT, FILETIME_UNIX_EPOCH_DIFF,
};
use vsmb::host::{map_io_error, FsOp, FsReply, FsRequest};
use vsmb::listing::{list_directory, Found};
use vsmb::smb2::status;
use vsmb::vmbfs::{FileError, ReadPlan, VmbfsDirBacking};

fn join(path: &HostPath) -> PathBuf {
    let mut out = PathBuf::from(&path.root);
    for part in &path.parts {
        out.push(part);
    }
    out
}

fn info(size: u64) -> FileInfo {
    FileInfo {
        size,
        allocation_size: allocation_size(size),
        attributes: 0x80,
        is_dir: false,
        creation_time: 1,
        last_access_time: 2,
        last_write_time: 3,
        change_time: 4,
        reparse_tag: 0,
    }
}

#[test]
fn resolve_rejects_traversal() {
    let b = Backing::new("C:\\layers");
    assert!(b.resolve("..\\secret").is_none());
    assert!(b.resolve("a\\..\\..\\b").is_none());
    assert!(b.resolve("ok\\sub\\file.txt").is_some());
}

#[test]
fn resolve_ignores_dot_and_empty() {
    let b = Backing::new("root");
    let p = join(&b.resolve(".\\a\\\\b\\.\\c").unwrap());
    assert!(p.ends_with(Path::new("a").join("b").join("c")));
}

#[test]
fn resolve_takes_both_separators_and_the_empty_path() {
    let b = Backing::new("root");
    let p = b.resolve("a/b\\c").unwrap();
    assert_eq!(p.root, "root");
    assert_eq!(p.parts, vec!["a", "b", "c"]);
    assert!(b.resolve("").unwrap().parts.is_empty());
    assert!(b.resolve("a/..").is_none());
    assert_eq!(b.resolve("a...b/..c").unwrap().parts, vec!["a...b", "..c"]);
}

#[test]
fn resolve_takes_colons_that_mark_no_drive() {
    let b = Backing::new("root");
    for rel in ["report:v2", ":x", "1:", "\u{e9}:", "dir/ab:c"] {
        let p = b.resolve(rel).unwrap();
        assert_eq!(p.parts.join("/"), rel);
        let q = b.resolve(&rel.replace('/', "\\")).unwrap();
        assert_eq!(p.parts, q.parts);
    }
}

#[test]
fn directories_are_not_opened_for_reading() {
    assert!(admit_open(false).is_ok());
    assert!(matches!(admit_open(true), Err(IoErrorKind::Other)));
}

#[test]
fn resolve_goes_by_the_verdict_on_each_piece() {
    let b = Backing::new("root");
    let p = b.resolve_with("a\\.\\b", &vec![true, false, true]).unwrap();
    assert_eq!(p.parts, vec!["a", "b"]);
    assert!(b.resolve_with("a\\b", &vec![true, false]).is_none());
    assert!(b.resolve_with("a\\..", &vec![true, true]).is_none());
}

#[test]
fn unresolvable_paths_are_answered_at_once() {
    let b = Backing::new("root");
    assert!(matches!(b.stat("../x"), Err(IoErrorKind::NotFound)));
    assert!(matches!(b.open("../x"), Err(IoErrorKind::NotFound)));
    assert!(matches!(b.read("../x", 0, 1), Err(IoErrorKind::NotFound)));
    assert!(matches!(b.read_reparse("../x"), Err(IoErrorKind::NotFound)));
    assert!(matches!(b.enumerate("../x"), Err(IoErrorKind::NotFound)));
    assert!(b.read_security("../x").is_none());
    assert!(b.list_streams("../x").is_none());
    assert_eq!(b.stat("x/y").unwrap().parts, vec!["x", "y"]);
}

#[test]
fn requests_are_located_below_their_root() {
    let request = FsRequest {
        root: "share".to_owned(),
        rel: "a\\b".to_owned(),
        op: FsOp::Stat,
    };
    let path = request.locate().unwrap();
    assert_eq!(path.root, "share");
    assert_eq!(path.parts, vec!["a", "b"]);
    assert!(request.accepts(&FsReply::Stat(Ok(info(1)))));
    assert!(!request.accepts(&FsReply::Security(None)));

    let request = FsRequest {
        root: "share".to_owned(),
        rel: "..".to_owned(),
        op: FsOp::ListStreams,
    };
    match request.locate() {
        Err(FsReply::Streams(streams)) => assert!(streams.is_empty()),
        _ => panic!("expected an immediate reply"),
    }
    assert!(request.accepts(&FsReply::Streams(vec![(":a:$DATA".to_owned(), 5)])));
    assert!(!request.accepts(&FsReply::Streams(vec![(":a:$DATA".to_owned(), -1)])));

    let request = FsRequest {
        root: "share".to_owned(),
        rel: "f".to_owned(),
        op: FsOp::Read { offset: 0, len: 2 },
    };
    assert!(request.accepts(&FsReply::Data(Ok(vec![1, 2]))));
    assert!(!request.accepts(&FsReply::Data(Ok(vec![1, 2, 3]))));
}

#[test]
fn reads_are_filled_until_the_file_ends() {
    let b = Backing::new("root");
    let mut pending = b.read("hello.txt", 6, 5).unwrap();
    assert_eq!(pending.source().1, 6);
    assert_eq!(pending.source().0.parts, vec!["hello.txt"]);
    assert_eq!(pending.remaining(), 5);
    assert!(pending.absorb(b"wo"));
    assert_eq!(pending.remaining(), 3);
    assert!(!pending.absorb(b"rld"));
    assert_eq!(pending.into_data(), b"world".to_vec());

    let mut short = b.read("hello.txt", 0, 5).unwrap();
    assert!(short.absorb(b"ab"));
    assert!(!short.absorb(b""));
    assert_eq!(short.into_data(), b"ab".to_vec());
}

#[test]
fn read_and_enumerate_tempdir() {
    let meta = Metadata {
        is_dir: false,
        len: 11,
        created: None,
        accessed: None,
        modified: Some(HostTime::SinceEpoch { secs: 1, nanos: 250 }),
    };
    let info = file_info_from_meta(&meta);
    assert_eq!(info.size, 11);
    assert!(!info.is_dir);
    assert_ne!(info.attributes, 0);
    assert_eq!(info.attributes & ATTR_DIRECTORY, 0);
    assert_eq!(info.attributes & ATTR_REPARSE_POINT, 0);
    assert_eq!(info.reparse_tag, 0);
    assert_eq!(info.allocation_size, 4096);
    assert_eq!(info.creation_time, 0);
    assert_eq!(info.last_write_time, 116_444_736_010_000_002);
    assert_eq!(info.change_time, info.last_write_time);

    let b = Backing::new("dir");
    let mut pending = b.read("hello.txt", 6, 5).unwrap();
    pending.absorb(&b"hello world"[6..]);
    assert_eq!(&pending.into_data(), b"world");

    let root = Metadata {
        is_dir: true,
        len: 4096,
        created: None,
        accessed: None,
        modified: None,
    };
    let entries = list_directory(
        file_info_from_meta(&root),
        &vec![Found {
            name: Some("hello.txt".to_owned()),
            info: Some(info),
        }],
    );
    assert_eq!(entries[0].name, ".");
    assert_eq!(entries[1].name, "..");
    assert_eq!(entries[0].info.attributes, ATTR_DIRECTORY);
    assert_eq!(entries[0].info.size, 0);
    assert!(entries.iter().any(|e| e.name == "hello.txt"));
}

#[test]
fn listings_are_sorted_without_regard_to_case() {
    let names = ["b", "A", "c", "B", "a", "\u{e9}", "AB"];
    let mut found: Vec<Found> = Vec::new();
    for (i, name) in names.iter().enumerate() {
        found.push(Found {
            name: Some((*name).to_owned()),
            info: Some(info(i as u64)),
        });
    }
    found.insert(
        1,
        Found {
            name: None,
            info: Some(info(100)),
        },
    );
    found.insert(
        2,
        Found {
            name: Some("gone".to_owned()),
            info: None,
        },
    );
    let listed = list_directory(info(7), &found);
    let names: Vec<&str> = listed.iter().map(|e| e.name.as_str()).collect();
    assert_eq!(
        names,
        vec![".", "..", "A", "a", "AB", "b", "B", "c", "\u{e9}"]
    );
    assert_eq!(listed[2].info.size, 1);
    assert_eq!(listed[3].info.size, 4);
}

#[test]
fn windows_metadata_keeps_attributes_and_tags() {
    let meta = WindowsMetadata {
        attributes: ATTR_DIRECTORY | ATTR_REPARSE_POINT,
        file_size: 77,
        creation_time: 1,
        last_access_time: 2,
        last_write_time: 3,
    };
    let link = file_info_from_windows(&meta, Some(0xA000_000C));
    assert_ne!(link.attributes & ATTR_REPARSE_POINT, 0);
    assert_eq!(link.reparse_tag, 0xA000_000C);
    assert!(link.is_dir);
    assert_eq!(link.size, 0);
    assert_eq!(link.change_time, 3);
    assert_eq!(file_info_from_windows(&meta, None).reparse_tag, 0);

    let meta = WindowsMetadata {
        attributes: 0x20,
        file_size: 4097,
        ..meta
    };
    let file = file_info_from_windows(&meta, Some(0xA000_000C));
    assert_eq!(file.reparse_tag, 0);
    assert_eq!(file.size, 4097);
    assert_eq!(file.allocation_size, 8192);
    assert!(!file.is_dir);
}

#[test]
fn sizes_are_rounded_up_to_clusters() {
    assert_eq!(allocation_size(0), 0);
    assert_eq!(allocation_size(1), 4096);
    assert_eq!(allocation_size(4096), 4096);
    assert_eq!(allocation_size(4097), 8192);
    assert_eq!(
        allocation_size(0xFFFF_FFFF_FFFF_F000),
        0xFFFF_FFFF_FFFF_F000
    );
}

#[test]
fn times_are_counted_from_1601() {
    assert_eq!(to_filetime(HostTime::BeforeEpoch), FILETIME_UNIX_EPOCH_DIFF);
    assert_eq!(
        to_filetime(HostTime::SinceEpoch { secs: 0, nanos: 99 }),
        FILETIME_UNIX_EPOCH_DIFF
    );
    assert_eq!(
        to_filetime(HostTime::SinceEpoch {
            secs: 1,
            nanos: 100
        }),
        116_444_736_010_000_001
    );
    assert_eq!(
        to_filetime(HostTime::SinceEpoch {
            secs: u64::MAX,
            nanos: 0
        }),
        u64::MAX
    );
}

#[test]
fn stream_names_end_at_the_first_nul() {
    let units: Vec<u16> = "::$DATA\0junk".encode_utf16().collect();
    assert_eq!(wstr_from_slice(&units), "::$DATA");
    let units: Vec<u16> = "a\u{1F600}".encode_utf16().collect();
    assert_eq!(wstr_from_slice(&units), "a\u{1F600}");
    assert_eq!(wstr_from_slice(&[0xD800, 0x41]), "\u{FFFD}A");
    assert_eq!(
        wstr_from_slice(&[0xDC00, 0xD83D, 0xD83D, 0xDE00, 0xD800]),
        "\u{FFFD}\u{FFFD}\u{1F600}\u{FFFD}"
    );
    assert_eq!(wstr_from_slice(&[]), "");
}

#[test]
fn io_failures_map_to_nt_statuses() {
    assert_eq!(
        map_io_error(IoErrorKind::NotFound),
        status::OBJECT_NAME_NOT_FOUND
    );
    assert_eq!(
        map_io_error(IoErrorKind::PermissionDenied),
        status::ACCESS_DENIED
    );
    assert_eq!(map_io_error(IoErrorKind::Other), status::INVALID_PARAMETER);
}

#[test]
fn serves_tree_by_path() {
    let mut b = VmbfsDirBacking::new("dir");

    let full = b.file_info("/EFI/Microsoft/Boot").unwrap();
    assert_eq!(full.root, "dir");
    assert_eq!(full.parts, vec!["EFI", "Microsoft", "Boot"]);

    let path = "/EFI/Microsoft/Boot/bootmgfw.efi";
    match b.read_file(path) {
        Ok(ReadPlan::Open(full)) => {
            assert!(join(&full).ends_with("EFI/Microsoft/Boot/bootmgfw.efi"))
        }
        _ => panic!("expected to open the file"),
    }
    b.note_opened(path);
    assert!(matches!(b.read_file(path), Ok(ReadPlan::Reuse)));
    assert!(matches!(b.read_file("/nope.efi"), Ok(ReadPlan::Open(_))));

    // Traversal is rejected.
    assert!(matches!(
        b.file_info("/../secret"),
        Err(FileError::NotFound)
    ));
    assert!(matches!(
        b.read_file("/../secret"),
        Err(FileError::NotFound)
    ));
}

#[test]
fn vmbfs_rejects_other_separators_and_drives() {
    let b = VmbfsDirBacking::new("dir");
    assert!(b.resolve("/a\\b").is_none());
    assert!(b.resolve("/C:/x").is_none());
    assert!(b.resolve("/a:stream").is_none());
    assert_eq!(b.resolve("//./a/").unwrap().parts, vec!["a"]);
    assert_eq!(b.resolve("/..a/...").unwrap().parts, vec!["..a", "..."]);
}
