//! Encodings of file, stream and directory information (MS-FSCC 2.4).

use crate::backing::{cluster_round, is_reparse_point, DirEntry, EntryState, FileInfo};
use crate::backing::{allocation_size, entry_views, has_reparse_tag};
use crate::smb2::file_info_class;
use crate::text::{encode_utf16_le, utf16_le};
use crate::wire::{
    le16, le32, le64, lemma_le32, lemma_le64, len_u32, low32, put_bytes, put_u16, put_u32, put_u64,
};
use vstd::prelude::*;
use vstd::slice::slice_subrange;

pub mod laws;

verus! {

/// `n` zero bytes.
pub open spec fn zeros(n: int) -> Seq<u8> {
    Seq::new(n as nat, |i: int| 0u8)
}

/// A length rounded up to a multiple of eight.
pub open spec fn aligned8(n: int) -> int {
    (n + 7) / 8 * 8
}

/// A byte run followed by zeros up to a multiple of eight bytes.
pub open spec fn pad8(s: Seq<u8>) -> Seq<u8> {
    s + zeros(aligned8(s.len() as int) - s.len())
}

/// Pads with zeros up to a multiple of eight bytes.
pub fn padded(bytes: Vec<u8>) -> (r: Vec<u8>)
    ensures
        r@ == pad8(bytes@),
        r@.len() == aligned8(bytes@.len() as int),
{
    let ghost s = bytes@;
    let mut out = bytes;
    assert(s + zeros(0) =~= s);
    while out.len() % 8 != 0
        invariant
            s.len() <= out@.len() <= aligned8(s.len() as int),
            out@ == s + zeros(out@.len() - s.len()),
        decreases aligned8(s.len() as int) - out@.len(),
    {
        let ghost k = out@.len() - s.len();
        out.push(0);
        assert(out@ =~= s + zeros(k + 1));
    }
    out
}

/// `FileBasicInformation` (MS-FSCC 2.4.7), 40 bytes: the four times, the
/// attributes, and a reserved field.
pub open spec fn basic_info(info: FileInfo) -> Seq<u8> {
    le64(info.creation_time) + le64(info.last_access_time) + le64(info.last_write_time) + le64(
        info.change_time,
    ) + le32(info.attributes) + le32(0)
}

/// Encodes `FileBasicInformation`.
pub fn encode_basic_info(info: &FileInfo) -> (r: Vec<u8>)
    ensures
        r@ == basic_info(*info),
{
    let mut out: Vec<u8> = Vec::new();
    put_u64(&mut out, info.creation_time);
    assert(out@ =~= le64(info.creation_time));
    put_u64(&mut out, info.last_access_time);
    put_u64(&mut out, info.last_write_time);
    put_u64(&mut out, info.change_time);
    put_u32(&mut out, info.attributes);
    put_u32(&mut out, 0);
    out
}

/// `FileStandardInformation` (MS-FSCC 2.4.41), 24 bytes: the allocation size,
/// the end of file, one link, no delete pending, whether it is a directory,
/// and a reserved field.
pub open spec fn standard_info(info: FileInfo) -> Seq<u8> {
    le64(info.allocation_size) + le64(info.size) + le32(1) + seq![
        0u8,
        if info.is_dir {
            1u8
        } else {
            0u8
        },
    ] + le16(0)
}

/// Encodes `FileStandardInformation`.
pub fn encode_standard_info(info: &FileInfo) -> (r: Vec<u8>)
    ensures
        r@ == standard_info(*info),
{
    let mut out: Vec<u8> = Vec::new();
    put_u64(&mut out, info.allocation_size);
    assert(out@ =~= le64(info.allocation_size));
    put_u64(&mut out, info.size);
    put_u32(&mut out, 1);
    let directory: u8 = if info.is_dir {
        1
    } else {
        0
    };
    put_bytes(&mut out, [0, directory].as_slice());
    assert([0, directory]@ =~= seq![0u8, directory]);
    put_u16(&mut out, 0);
    out
}

/// `FileNetworkOpenInformation` (MS-FSCC 2.4.29), 56 bytes: the four times,
/// the allocation size, the end of file, the attributes, and a reserved field.
pub open spec fn network_open_info(info: FileInfo) -> Seq<u8> {
    le64(info.creation_time) + le64(info.last_access_time) + le64(info.last_write_time) + le64(
        info.change_time,
    ) + le64(info.allocation_size) + le64(info.size) + le32(info.attributes) + le32(0)
}

/// Encodes `FileNetworkOpenInformation`.
pub fn encode_network_open_info(info: &FileInfo) -> (r: Vec<u8>)
    ensures
        r@ == network_open_info(*info),
{
    let mut out: Vec<u8> = Vec::new();
    put_u64(&mut out, info.creation_time);
    assert(out@ =~= le64(info.creation_time));
    put_u64(&mut out, info.last_access_time);
    put_u64(&mut out, info.last_write_time);
    put_u64(&mut out, info.change_time);
    put_u64(&mut out, info.allocation_size);
    put_u64(&mut out, info.size);
    put_u32(&mut out, info.attributes);
    put_u32(&mut out, 0);
    out
}

/// The reparse tag of a reparse point; 0 for anything else.
pub open spec fn effective_tag(info: FileInfo) -> u32 {
    if is_reparse_point(info.attributes) {
        info.reparse_tag
    } else {
        0
    }
}

fn tag_of(info: &FileInfo) -> (r: u32)
    ensures
        r == effective_tag(*info),
{
    if has_reparse_tag(info.attributes) {
        info.reparse_tag
    } else {
        0
    }
}

/// `FileAttributeTagInformation` (MS-FSCC 2.4.6), 8 bytes: the file attributes
/// and (for a reparse point) the reparse tag.
pub open spec fn attribute_tag_info(info: FileInfo) -> Seq<u8> {
    le32(info.attributes) + le32(effective_tag(info))
}

/// Encodes `FileAttributeTagInformation`.
pub fn encode_attribute_tag_info(info: &FileInfo) -> (r: Vec<u8>)
    ensures
        r@ == attribute_tag_info(*info),
{
    let mut out: Vec<u8> = Vec::new();
    put_u32(&mut out, info.attributes);
    assert(out@ =~= le32(info.attributes));
    put_u32(&mut out, tag_of(info));
    out
}

/// The bits of a signed 64-bit integer, as an unsigned one.
pub open spec fn bits_of(v: i64) -> u64 {
    if v >= 0 {
        v as u64
    } else {
        (v + 0x1_0000_0000_0000_0000) as u64
    }
}

/// A stream as a mathematical value: its name and size.
pub struct StreamState {
    /// The stream name, such as `::$DATA`.
    pub name: Seq<char>,
    /// The stream size, as the host reports it.
    pub size: i64,
}

/// The values of a list of streams.
pub open spec fn stream_views(streams: Seq<(String, i64)>) -> Seq<StreamState> {
    Seq::new(streams.len(), |i: int| StreamState { name: streams[i].0@, size: streams[i].1 })
}

/// Whether a stream's allocation size fits 64 bits.
pub open spec fn stream_fits(size: i64) -> bool {
    cluster_round(bits_of(size) as int) <= u64::MAX
}

/// A `FileStreamInformation` entry without its leading link: the name length,
/// the size, the allocation size and the name.
pub open spec fn stream_fields(stream: StreamState) -> Seq<u8> {
    le32(low32(utf16_le(stream.name).len() as int)) + le64(bits_of(stream.size)) + le64(
        cluster_round(bits_of(stream.size) as int) as u64,
    ) + utf16_le(stream.name)
}

/// A stream entry that links to the one after it: its link is its own padded
/// length.
pub open spec fn linked_stream(stream: StreamState) -> Seq<u8> {
    pad8(le32(low32(aligned8(4int + stream_fields(stream).len()))) + stream_fields(stream))
}

/// The last stream entry: its link is 0.
pub open spec fn last_stream(stream: StreamState) -> Seq<u8> {
    pad8(le32(0) + stream_fields(stream))
}

/// Linked stream entries, one after the other.
pub open spec fn stream_chain(streams: Seq<StreamState>) -> Seq<u8>
    decreases streams.len(),
{
    if streams.len() == 0 {
        Seq::empty()
    } else {
        stream_chain(streams.drop_last()) + linked_stream(streams.last())
    }
}

/// `FileStreamInformation` (MS-FSCC 2.4.40): a chain of entries, one per
/// stream, ended by the last.
pub open spec fn stream_info(streams: Seq<StreamState>) -> Seq<u8> {
    if streams.len() == 0 {
        Seq::empty()
    } else {
        stream_chain(streams.drop_last()) + last_stream(streams.last())
    }
}

/// An entry: its link field, then its other fields, padded.
fn linked_entry(fields: &Vec<u8>, linked: bool) -> (r: Vec<u8>)
    ensures
        r@ == (if linked {
            pad8(le32(low32(aligned8(4int + fields@.len()))) + fields@)
        } else {
            pad8(le32(0) + fields@)
        }),
        r@.len() == aligned8(4int + fields@.len()),
{
    let mut unlinked: Vec<u8> = Vec::new();
    put_u32(&mut unlinked, 0);
    put_bytes(&mut unlinked, fields.as_slice());
    proof {
        lemma_le32(0);
        assert(unlinked@ =~= le32(0) + fields@);
    }
    let last = padded(unlinked);
    if !linked {
        return last;
    }
    let link: u32 = len_u32(last.len());
    let mut out: Vec<u8> = Vec::new();
    put_u32(&mut out, link);
    put_bytes(&mut out, fields.as_slice());
    proof {
        lemma_le32(link);
        assert(out@ =~= le32(link) + fields@);
    }
    padded(out)
}

fn encode_stream_fields(name: &String, size: i64) -> (r: Vec<u8>)
    requires
        stream_fits(size),
    ensures
        r@ == stream_fields(StreamState { name: name@, size }),
{
    let name_utf16 = encode_utf16_le(name.as_str());
    let bits: u64 = size as u64;
    assert(bits == bits_of(size)) by {
        assert(size >= 0 ==> size as u64 == size) by (bit_vector);
        assert(size < 0 ==> size as u64 == size + 0x1_0000_0000_0000_0000) by (bit_vector);
    }
    let mut out: Vec<u8> = Vec::new();
    put_u32(&mut out, len_u32(name_utf16.len()));
    assert(out@ =~= le32(low32(name_utf16@.len() as int)));
    put_u64(&mut out, bits);
    put_u64(&mut out, allocation_size(bits));
    put_bytes(&mut out, name_utf16.as_slice());
    out
}

/// Encodes `FileStreamInformation`: one entry per stream (the default `::$DATA`
/// plus any alternate data streams).
pub fn encode_stream_info(streams: &Vec<(String, i64)>) -> (r: Vec<u8>)
    requires
        forall|i: int| 0 <= i < streams@.len() ==> stream_fits((#[trigger] streams@[i]).1),
    ensures
        r@ == stream_info(stream_views(streams@)),
{
    let ghost all = stream_views(streams@);
    let mut out: Vec<u8> = Vec::new();
    if streams.len() == 0 {
        return out;
    }
    let mut i: usize = 0;
    assert(all.take(0) =~= Seq::<StreamState>::empty());
    while i < streams.len() - 1
        invariant
            all == stream_views(streams@),
            forall|i: int| 0 <= i < streams@.len() ==> stream_fits((#[trigger] streams@[i]).1),
            i <= streams@.len() - 1,
            out@ == stream_chain(all.take(i as int)),
        decreases streams@.len() - i,
    {
        let fields = encode_stream_fields(&streams[i].0, streams[i].1);
        let entry = linked_entry(&fields, true);
        put_bytes(&mut out, entry.as_slice());
        assert(all.take(i + 1).drop_last() =~= all.take(i as int));
        assert(all.take(i + 1).last() == all[i as int]);
        i = i + 1;
    }
    let fields = encode_stream_fields(&streams[i].0, streams[i].1);
    let entry = linked_entry(&fields, false);
    put_bytes(&mut out, entry.as_slice());
    assert(all.take(i as int) =~= all.drop_last());
    assert(all.last() == all[i as int]);
    out
}

/// Whether a directory information class is served.
pub open spec fn is_dir_class(info_class: u8) -> bool {
    info_class == file_info_class::DIRECTORY || info_class == file_info_class::FULL_DIRECTORY
        || info_class == file_info_class::BOTH_DIRECTORY || info_class
        == file_info_class::ID_BOTH_DIRECTORY
}

/// The fields common to all directory information classes, from the file index
/// up through the name length: with the link before them, 64 bytes.
pub open spec fn common_dir_fields(info: FileInfo, name_len: int) -> Seq<u8> {
    le32(0) + le64(info.creation_time) + le64(info.last_access_time) + le64(info.last_write_time)
        + le64(info.change_time) + le64(info.size) + le64(info.allocation_size) + le32(
        info.attributes,
    ) + le32(low32(name_len))
}

/// The fields between the common ones and the name. Where there is an EA size
/// field, it carries the reparse tag for a reparse point; short name, its
/// length, and the file id are left zero.
pub open spec fn class_dir_fields(info_class: u8, info: FileInfo) -> Seq<u8> {
    if info_class == file_info_class::DIRECTORY {
        Seq::empty()
    } else if info_class == file_info_class::FULL_DIRECTORY {
        le32(effective_tag(info))
    } else if info_class == file_info_class::BOTH_DIRECTORY {
        le32(effective_tag(info)) + zeros(26)
    } else {
        le32(effective_tag(info)) + zeros(36)
    }
}

/// A directory entry without its leading link: the common fields, those of the
/// class, and the name.
pub open spec fn dir_fields(info_class: u8, entry: EntryState) -> Seq<u8> {
    common_dir_fields(entry.info, utf16_le(entry.name).len() as int) + class_dir_fields(
        info_class,
        entry.info,
    ) + utf16_le(entry.name)
}

/// A directory entry as it is encoded: its link, which is its padded length,
/// and its fields. The padding is not part of it.
pub open spec fn dir_entry(info_class: u8, entry: EntryState) -> Seq<u8> {
    le32(low32(dir_entry_len(info_class, entry))) + dir_fields(info_class, entry)
}

/// A directory entry in a page, linked to the one after it: padded, so that its
/// link leads there.
pub open spec fn linked_dir_entry(info_class: u8, entry: EntryState) -> Seq<u8> {
    pad8(dir_entry(info_class, entry))
}

/// The last directory entry: its link is 0.
pub open spec fn last_dir_entry(info_class: u8, entry: EntryState) -> Seq<u8> {
    pad8(le32(0) + dir_fields(info_class, entry))
}

/// The padded length of a directory entry.
pub open spec fn dir_entry_len(info_class: u8, entry: EntryState) -> int {
    aligned8(4int + dir_fields(info_class, entry).len())
}

/// Linked directory entries, one after the other.
pub open spec fn dir_chain(info_class: u8, entries: Seq<EntryState>) -> Seq<u8>
    decreases entries.len(),
{
    if entries.len() == 0 {
        Seq::empty()
    } else {
        dir_chain(info_class, entries.drop_last()) + linked_dir_entry(info_class, entries.last())
    }
}

/// A page of directory information: a chain of entries, ended by the last.
pub open spec fn dir_page(info_class: u8, entries: Seq<EntryState>) -> Seq<u8> {
    if entries.len() == 0 {
        Seq::empty()
    } else {
        dir_chain(info_class, entries.drop_last()) + last_dir_entry(info_class, entries.last())
    }
}

/// Pushes the fields common to all directory information classes up through
/// FileNameLength (64 bytes), leaving NextEntryOffset (the first 4 of them) as a
/// zero placeholder to be patched by the caller.
pub fn push_common_dir_fields(out: &mut Vec<u8>, info: &FileInfo, name_len: usize)
    ensures
        final(out)@ == old(out)@ + zeros(4) + common_dir_fields(*info, name_len as int),
        final(out)@.len() == old(out)@.len() + 64,
{
    let ghost before = out@;
    put_zeros(out, 4);
    put_u32(out, 0);
    put_u64(out, info.creation_time);
    put_u64(out, info.last_access_time);
    put_u64(out, info.last_write_time);
    put_u64(out, info.change_time);
    put_u64(out, info.size);
    put_u64(out, info.allocation_size);
    put_u32(out, info.attributes);
    put_u32(out, len_u32(name_len));
    proof {
        lemma_le32(0);
        lemma_le64(info.creation_time);
        lemma_le64(info.last_access_time);
        lemma_le64(info.last_write_time);
        lemma_le64(info.change_time);
        lemma_le64(info.size);
        lemma_le64(info.allocation_size);
        lemma_le32(info.attributes);
        lemma_le32(low32(name_len as int));
        assert(out@ =~= before + zeros(4) + common_dir_fields(*info, name_len as int));
    }
}

/// The low 32 bits of a length rounded up to a multiple of eight.
fn aligned_u32(len: usize) -> (r: u32)
    ensures
        r == low32(aligned8(len as int)),
{
    let rest: usize = len % 8;
    if rest == 0 {
        len_u32(len)
    } else {
        len_u32(len - rest).wrapping_add(8)
    }
}

fn put_zeros(out: &mut Vec<u8>, n: usize)
    ensures
        final(out)@ == old(out)@ + zeros(n as int),
{
    let ghost before = out@;
    let mut i: usize = 0;
    assert(out@ =~= before + zeros(0));
    while i < n
        invariant
            i <= n,
            out@ == before + zeros(i as int),
        decreases n - i,
    {
        out.push(0);
        assert(out@ =~= before + zeros(i + 1));
        i = i + 1;
    }
}

/// Encodes a single directory entry in the requested information class. Returns
/// `None` for unsupported classes. The `NextEntryOffset` field is set to the
/// aligned length of this entry; the caller pads it, and zeroes the field on the
/// last entry.
pub fn encode_dir_entry(info_class: u8, entry: &DirEntry) -> (r: Option<Vec<u8>>)
    ensures
        r is Some <==> is_dir_class(info_class),
        r matches Some(v) ==> v@ == le32(low32(dir_entry_len(info_class, entry@))) + dir_fields(
            info_class,
            entry@,
        ),
{
    if info_class != file_info_class::DIRECTORY && info_class != file_info_class::FULL_DIRECTORY
        && info_class != file_info_class::BOTH_DIRECTORY && info_class
        != file_info_class::ID_BOTH_DIRECTORY {
        return None;
    }
    let name_utf16 = encode_utf16_le(entry.name.as_str());
    let ghost common = common_dir_fields(entry.info, name_utf16@.len() as int);
    let ea_size: u32 = tag_of(&entry.info);
    let mut out: Vec<u8> = Vec::new();
    push_common_dir_fields(&mut out, &entry.info, name_utf16.len());
    assert(out@ =~= zeros(4) + common);
    if info_class != file_info_class::DIRECTORY {
        put_u32(&mut out, ea_size);
    }
    if info_class == file_info_class::BOTH_DIRECTORY {
        // Short name length, a reserved byte, and the short name.
        put_zeros(&mut out, 26);
    } else if info_class == file_info_class::ID_BOTH_DIRECTORY {
        // The same, a reserved field, and the file id.
        put_zeros(&mut out, 36);
    }
    assert(out@ =~= zeros(4) + (common + class_dir_fields(info_class, entry.info)));
    put_bytes(&mut out, name_utf16.as_slice());
    assert(out@ =~= zeros(4) + dir_fields(info_class, entry@));
    let link: u32 = aligned_u32(out.len());
    assert(out@.skip(4) =~= dir_fields(info_class, entry@));
    Some(with_link(&out, link))
}

/// An entry with its link field (its first four bytes) set.
fn with_link(entry: &Vec<u8>, link: u32) -> (r: Vec<u8>)
    requires
        entry@.len() >= 4,
    ensures
        r@ == le32(link) + entry@.skip(4),
        r@.len() == entry@.len(),
{
    let mut out: Vec<u8> = Vec::new();
    put_u32(&mut out, link);
    put_bytes(&mut out, slice_subrange(entry.as_slice(), 4, entry.len()));
    proof {
        lemma_le32(link);
        assert(entry@.subrange(4, entry@.len() as int) =~= entry@.skip(4));
        assert(out@ =~= le32(link) + entry@.skip(4));
    }
    out
}

/// Where a page that starts with `used` bytes and goes on with entry `i` ends:
/// it takes entries while they fit `max` bytes, at least one, and no more than
/// one where a single entry is asked for.
pub open spec fn page_end(
    info_class: u8,
    entries: Seq<EntryState>,
    i: int,
    used: int,
    max: int,
    single: bool,
) -> int
    decreases entries.len() - i,
{
    if i >= entries.len() || (used > 0 && used + dir_entry_len(info_class, entries[i]) > max) {
        i
    } else if single {
        i + 1
    } else {
        page_end(
            info_class,
            entries,
            i + 1,
            used + dir_entry_len(info_class, entries[i]),
            max,
            single,
        )
    }
}

/// A page ends within the listing, after at least one entry.
pub proof fn lemma_page_end(
    info_class: u8,
    entries: Seq<EntryState>,
    i: int,
    used: int,
    max: int,
    single: bool,
)
    requires
        0 <= i <= entries.len(),
    ensures
        i <= page_end(info_class, entries, i, used, max, single) <= entries.len(),
        i < entries.len() && used <= 0 ==> i < page_end(info_class, entries, i, used, max, single),
    decreases entries.len() - i,
{
    if i < entries.len() && !(used > 0 && used + dir_entry_len(info_class, entries[i]) > max)
        && !single {
        lemma_page_end(
            info_class,
            entries,
            i + 1,
            used + dir_entry_len(info_class, entries[i]),
            max,
            single,
        );
    }
}

/// Encodes the page of directory entries that starts at `cursor`, returning it
/// and where the next page starts.
pub fn encode_dir_page(
    info_class: u8,
    entries: &Vec<DirEntry>,
    cursor: usize,
    max_out: usize,
    single_entry: bool,
) -> (r: (Vec<u8>, usize))
    requires
        is_dir_class(info_class),
        cursor < entries@.len(),
    ensures
        r.1 == page_end(
            info_class,
            entry_views(entries@),
            cursor as int,
            0,
            max_out as int,
            single_entry,
        ),
        cursor < r.1 <= entries@.len(),
        r.0@ == dir_page(
            info_class,
            entry_views(entries@).subrange(cursor as int, r.1 as int),
        ),
{
    let ghost all = entry_views(entries@);
    let ghost target = page_end(
        info_class,
        all,
        cursor as int,
        0,
        max_out as int,
        single_entry,
    );
    proof {
        lemma_page_end(info_class, all, cursor as int, 0, max_out as int, single_entry);
    }
    let mut out: Vec<u8> = Vec::new();
    let mut last_start: usize = 0;
    let mut next: usize = cursor;
    let mut done = false;
    let ghost mut taken = all.subrange(cursor as int, cursor as int);
    assert(taken =~= Seq::<EntryState>::empty());
    while !done
        invariant
            is_dir_class(info_class),
            all == entry_views(entries@),
            cursor <= next <= entries@.len(),
            cursor < entries@.len(),
            taken == all.subrange(cursor as int, next as int),
            target == page_end(
                info_class,
                all,
                cursor as int,
                0,
                max_out as int,
                single_entry,
            ),
            cursor < target <= entries@.len(),
            out@ == dir_chain(info_class, taken),
            next > cursor ==> last_start <= out@.len() && out@.take(last_start as int)
                == dir_chain(info_class, taken.drop_last()),
            !done ==> target == page_end(
                info_class,
                all,
                next as int,
                out@.len() as int,
                max_out as int,
                single_entry,
            ),
            done ==> next == target,
        decreases entries@.len() - next, if done { 0int } else { 1int },
    {
        if next >= entries.len() {
            done = true;
        } else {
            let ghost entry = all[next as int];
            let encoded = match encode_dir_entry(info_class, &entries[next]) {
                Some(bytes) => padded(bytes),
                None => Vec::new(),
            };
            proof {
                lemma_le32(low32(dir_entry_len(info_class, entry)));
            }
            if out.len() > 0 && (out.len() > max_out || encoded.len() > max_out - out.len()) {
                done = true;
            } else {
                let ghost before = out@;
                last_start = out.len();
                put_bytes(&mut out, encoded.as_slice());
                proof {
                    let after = all.subrange(cursor as int, next + 1);
                    assert(after.drop_last() =~= taken);
                    assert(after.last() == entry);
                    taken = after;
                    assert(out@.take(last_start as int) =~= before);
                }
                next = next + 1;
                if single_entry {
                    done = true;
                }
            }
        }
    }
    // Zero the link of the last entry taken, to end the page.
    let last = match encode_dir_entry(info_class, &entries[next - 1]) {
        Some(bytes) => {
            proof {
                lemma_le32(low32(dir_entry_len(info_class, all[next - 1])));
                assert(bytes@.skip(4) =~= dir_fields(info_class, all[next - 1]));
            }
            padded(with_link(&bytes, 0))
        },
        None => Vec::new(),
    };
    assert(taken.last() == all[next - 1]);
    out.truncate(last_start);
    put_bytes(&mut out, last.as_slice());
    (out, next)
}

} // verus!
