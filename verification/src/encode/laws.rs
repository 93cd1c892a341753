//! What a client that walks the encoded chains finds in them.

use super::{
    aligned8, attribute_tag_info, basic_info, class_dir_fields, common_dir_fields, dir_chain,
    dir_entry, dir_entry_len, dir_fields, dir_page, encode_dir_entry, is_dir_class, lemma_page_end,
    network_open_info, pad8, page_end, standard_info, stream_chain, stream_fields, stream_info,
    zeros, StreamState,
};
use crate::backing::{law_allocation_covers_size, DirEntry, EntryState, FileInfo};
use crate::smb2::file_info_class;
use crate::text::{decode_utf16_le, law_utf16_round_trip, utf16_le};
use crate::wire::{
    le16, le32, le64, lemma_le16, lemma_le32, lemma_le64, lemma_u16_at, lemma_u32_at, lemma_u64_at,
    low32, u16_at, u32_at, u64_at,
};
use vstd::prelude::*;

verus! {

/// Linked entries with the given fields, one after the other.
spec fn field_chain(fields: Seq<Seq<u8>>) -> Seq<u8>
    decreases fields.len(),
{
    if fields.len() == 0 {
        Seq::empty()
    } else {
        field_chain(fields.drop_last()) + pad8(
            le32(low32(aligned8(4int + fields.last().len()))) + fields.last(),
        )
    }
}

spec fn field_page(fields: Seq<Seq<u8>>) -> Seq<u8> {
    if fields.len() == 0 {
        Seq::empty()
    } else {
        field_chain(fields.drop_last()) + pad8(le32(0) + fields.last())
    }
}

/// Where entry `i` of a chain of entries with the given field lengths starts.
spec fn field_offset(fields: Seq<Seq<u8>>, i: int) -> int
    decreases i,
{
    if i <= 0 {
        0
    } else {
        field_offset(fields, i - 1) + aligned8(4int + fields[i - 1].len())
    }
}

proof fn lemma_pad8(s: Seq<u8>)
    ensures
        pad8(s).len() == aligned8(s.len() as int),
        s.len() <= aligned8(s.len() as int) < s.len() + 8,
        aligned8(s.len() as int) % 8 == 0,
{
}

proof fn lemma_field_offset_prefix(a: Seq<Seq<u8>>, b: Seq<Seq<u8>>, i: int)
    requires
        0 <= i <= a.len(),
        i <= b.len(),
        a.take(i) == b.take(i),
    ensures
        field_offset(a, i) == field_offset(b, i),
    decreases i,
{
    if i > 0 {
        assert(a.take(i - 1) =~= a.take(i).take(i - 1));
        assert(b.take(i - 1) =~= b.take(i).take(i - 1));
        lemma_field_offset_prefix(a, b, i - 1);
        assert(a.take(i)[i - 1] == b.take(i)[i - 1]);
    }
}

proof fn lemma_field_offset_step(fields: Seq<Seq<u8>>, i: int, j: int)
    requires
        0 <= i <= j,
    ensures
        field_offset(fields, i) <= field_offset(fields, j),
        field_offset(fields, i) >= 0,
    decreases j,
{
    if i < j {
        lemma_field_offset_step(fields, i, j - 1);
    } else if i > 0 {
        lemma_field_offset_step(fields, i - 1, i - 1);
    }
}

proof fn lemma_field_chain(fields: Seq<Seq<u8>>, i: int)
    requires
        0 <= i < fields.len(),
    ensures
        field_chain(fields).len() == field_offset(fields, fields.len() as int),
        0 <= field_offset(fields, i) <= field_offset(fields, i + 1) <= field_chain(fields).len(),
        field_chain(fields).subrange(field_offset(fields, i), field_offset(fields, i + 1)) == pad8(
            le32(low32(aligned8(4int + fields[i].len()))) + fields[i],
        ),
    decreases fields.len(),
{
    let n = fields.len() as int;
    let front = fields.drop_last();
    let last = pad8(le32(low32(aligned8(4int + fields.last().len()))) + fields.last());
    lemma_le32(low32(aligned8(4int + fields.last().len())));
    lemma_pad8(le32(low32(aligned8(4int + fields.last().len()))) + fields.last());
    lemma_field_offset_step(fields, i, i + 1);
    lemma_field_offset_step(fields, i + 1, n);
    assert(front.take(n - 1) =~= fields.take(n - 1));
    lemma_field_offset_prefix(front, fields, n - 1);
    if n > 1 {
        lemma_field_chain(front, if i < n - 1 {
            i
        } else {
            0
        });
    }
    let whole = field_chain(fields);
    if i < n - 1 {
        assert(front.take(i) =~= fields.take(i));
        assert(front.take(i + 1) =~= fields.take(i + 1));
        lemma_field_offset_prefix(front, fields, i);
        lemma_field_offset_prefix(front, fields, i + 1);
        assert(whole.subrange(field_offset(fields, i), field_offset(fields, i + 1))
            =~= field_chain(front).subrange(field_offset(front, i), field_offset(front, i + 1)));
    } else {
        assert(whole.subrange(field_offset(fields, i), field_offset(fields, i + 1)) =~= last);
    }
}

/// What stands at entry `i` of a page: its link, then its fields.
proof fn lemma_field_page(fields: Seq<Seq<u8>>, i: int)
    requires
        0 <= i < fields.len(),
    ensures
        ({
            let page = field_page(fields);
            let at = field_offset(fields, i);
            let next = field_offset(fields, i + 1);
            &&& 0 <= at
            &&& at + 4 + fields[i].len() <= next <= page.len()
            &&& page.len() == field_offset(fields, fields.len() as int)
            &&& u32_at(page, at) == (if i == fields.len() - 1 {
                0
            } else {
                low32(next - at)
            })
            &&& page.subrange(at + 4, at + 4 + fields[i].len()) == fields[i]
            &&& next < at + 4 + fields[i].len() + 8
            &&& forall|k: int| at + 4 + fields[i].len() <= k < next ==> page[k] == 0
        }),
{
    let n = fields.len() as int;
    let page = field_page(fields);
    let front = fields.drop_last();
    let at = field_offset(fields, i);
    let next = field_offset(fields, i + 1);
    lemma_field_offset_step(fields, i, i + 1);
    lemma_field_offset_step(fields, i + 1, n);
    assert(front.take(n - 1) =~= fields.take(n - 1));
    lemma_field_offset_prefix(front, fields, n - 1);
    let last = le32(0) + fields.last();
    lemma_le32(0);
    lemma_pad8(last);
    if n > 1 {
        lemma_field_chain(front, if i < n - 1 {
            i
        } else {
            0
        });
    }
    let link = if i == n - 1 {
        0u32
    } else {
        low32(next - at)
    };
    let entry = le32(link) + fields[i];
    lemma_le32(link);
    lemma_pad8(entry);
    if i < n - 1 {
        assert(front.take(i) =~= fields.take(i));
        assert(front.take(i + 1) =~= fields.take(i + 1));
        lemma_field_offset_prefix(front, fields, i);
        lemma_field_offset_prefix(front, fields, i + 1);
        assert(page.subrange(at, next) =~= field_chain(front).subrange(at, next));
    } else {
        assert(page.subrange(at, next) =~= pad8(last));
    }
    assert(page.subrange(at, next) == pad8(entry));
    assert(page.subrange(at, at + 4) =~= page.subrange(at, next).subrange(0, 4));
    assert(pad8(entry).subrange(0, 4) =~= le32(link));
    lemma_u32_at(page, at, link);
    assert(page.subrange(at + 4, at + 4 + fields[i].len()) =~= page.subrange(at, next).subrange(
        4,
        (4 + fields[i].len()) as int,
    ));
    assert(pad8(entry).subrange(4, (4 + fields[i].len()) as int) =~= fields[i]);
    assert forall|k: int| at + 4 + fields[i].len() <= k < next implies page[k] == 0 by {
        assert(page[k] == page.subrange(at, next)[k - at]);
        assert(pad8(entry)[k - at] == 0);
    }
}

spec fn all_dir_fields(info_class: u8, entries: Seq<EntryState>) -> Seq<Seq<u8>> {
    Seq::new(entries.len(), |i: int| dir_fields(info_class, entries[i]))
}

proof fn lemma_dir_chain(info_class: u8, entries: Seq<EntryState>)
    ensures
        dir_chain(info_class, entries) == field_chain(all_dir_fields(info_class, entries)),
    decreases entries.len(),
{
    if entries.len() != 0 {
        lemma_dir_chain(info_class, entries.drop_last());
        assert(all_dir_fields(info_class, entries).drop_last() =~= all_dir_fields(
            info_class,
            entries.drop_last(),
        ));
    }
}

/// Where entry `i` of a page of directory information starts: after the
/// entries before it, each at a multiple of eight.
pub open spec fn dir_offset(info_class: u8, entries: Seq<EntryState>, i: int) -> int
    decreases i,
{
    if i <= 0 {
        0
    } else {
        dir_offset(info_class, entries, i - 1) + dir_entry_len(info_class, entries[i - 1])
    }
}

proof fn lemma_dir_offset(info_class: u8, entries: Seq<EntryState>, i: int)
    requires
        0 <= i <= entries.len(),
    ensures
        dir_offset(info_class, entries, i) == field_offset(all_dir_fields(info_class, entries), i),
    decreases i,
{
    if i > 0 {
        lemma_dir_offset(info_class, entries, i - 1);
    }
}

/// Where the name stands in a directory entry of a class.
pub open spec fn name_offset(info_class: u8) -> int {
    if info_class == file_info_class::DIRECTORY {
        64
    } else if info_class == file_info_class::FULL_DIRECTORY {
        68
    } else if info_class == file_info_class::BOTH_DIRECTORY {
        94
    } else {
        104
    }
}

proof fn lemma_common_dir_fields(info: FileInfo, name_len: int)
    ensures
        common_dir_fields(info, name_len).len() == 60,
        common_dir_fields(info, name_len).subrange(0, 4) == le32(0u32),
        common_dir_fields(info, name_len).subrange(4, 12) == le64(info.creation_time),
        common_dir_fields(info, name_len).subrange(12, 20) == le64(info.last_access_time),
        common_dir_fields(info, name_len).subrange(20, 28) == le64(info.last_write_time),
        common_dir_fields(info, name_len).subrange(28, 36) == le64(info.change_time),
        common_dir_fields(info, name_len).subrange(36, 44) == le64(info.size),
        common_dir_fields(info, name_len).subrange(44, 52) == le64(info.allocation_size),
        common_dir_fields(info, name_len).subrange(52, 56) == le32(info.attributes),
        common_dir_fields(info, name_len).subrange(56, 60) == le32(low32(name_len)),
{
    lemma_le32(0u32);
    lemma_le64(info.creation_time);
    lemma_le64(info.last_access_time);
    lemma_le64(info.last_write_time);
    lemma_le64(info.change_time);
    lemma_le64(info.size);
    lemma_le64(info.allocation_size);
    lemma_le32(info.attributes);
    lemma_le32(low32(name_len));
    let all = common_dir_fields(info, name_len);
    assert(all.subrange(0, 4) =~= le32(0u32));
    assert(all.subrange(4, 12) =~= le64(info.creation_time));
    assert(all.subrange(12, 20) =~= le64(info.last_access_time));
    assert(all.subrange(20, 28) =~= le64(info.last_write_time));
    assert(all.subrange(28, 36) =~= le64(info.change_time));
    assert(all.subrange(36, 44) =~= le64(info.size));
    assert(all.subrange(44, 52) =~= le64(info.allocation_size));
    assert(all.subrange(52, 56) =~= le32(info.attributes));
    assert(all.subrange(56, 60) =~= le32(low32(name_len)));
}

/// Whether the fields of a directory entry of a class stand in `s` after a link
/// at `at`: no file index, the times, the sizes, the attributes, the length of the
/// name, in every class but the first the reparse tag of a reparse point, zeros,
/// and the name.
pub open spec fn is_entry_at(s: Seq<u8>, at: int, info_class: u8, entry: EntryState) -> bool {
    let info = entry.info;
    let name = utf16_le(entry.name);
    let fixed = if info_class == 1 {
        64int
    } else if info_class == 2 {
        68
    } else if info_class == 3 {
        94
    } else {
        104
    };
    &&& at + fixed + name.len() <= s.len()
    &&& u32_at(s, at + 4) == 0
    &&& u64_at(s, at + 8) == info.creation_time
    &&& u64_at(s, at + 16) == info.last_access_time
    &&& u64_at(s, at + 24) == info.last_write_time
    &&& u64_at(s, at + 32) == info.change_time
    &&& u64_at(s, at + 40) == info.size
    &&& u64_at(s, at + 48) == info.allocation_size
    &&& u32_at(s, at + 56) == info.attributes
    &&& u32_at(s, at + 60) == name.len() % 0x1_0000_0000
    &&& info_class != 1 ==> u32_at(s, at + 64) == (if info.attributes & 0x400 != 0 {
        info.reparse_tag
    } else {
        0
    })
    &&& forall|k: int| at + 68 <= k < at + fixed ==> s[k] == 0
    &&& s.subrange(at + fixed, (at + fixed + name.len()) as int) == name
}

proof fn lemma_entry_at(s: Seq<u8>, at: int, info_class: u8, entry: EntryState)
    requires
        is_dir_class(info_class),
        0 <= at,
        at + 4 + dir_fields(info_class, entry).len() <= s.len(),
        s.subrange(at + 4, at + 4 + dir_fields(info_class, entry).len()) == dir_fields(
            info_class,
            entry,
        ),
    ensures
        is_entry_at(s, at, info_class, entry),
{
    let info = entry.info;
    let name = utf16_le(entry.name);
    let fixed = name_offset(info_class);
    let mine = dir_fields(info_class, entry);
    let common = common_dir_fields(info, name.len() as int);
    let special = class_dir_fields(info_class, info);
    lemma_common_dir_fields(info, name.len() as int);
    lemma_class_dir_fields(info_class, info);
    assert(mine.take(60) =~= common);
    assert(s.subrange(at + 4, at + 64) =~= mine.take(60));
    assert(s.subrange(at + 4, at + 8) =~= common.subrange(0, 4));
    lemma_u32_at(s, at + 4, 0u32);
    assert(s.subrange(at + 8, at + 16) =~= common.subrange(4, 12));
    lemma_u64_at(s, at + 8, info.creation_time);
    assert(s.subrange(at + 16, at + 24) =~= common.subrange(12, 20));
    lemma_u64_at(s, at + 16, info.last_access_time);
    assert(s.subrange(at + 24, at + 32) =~= common.subrange(20, 28));
    lemma_u64_at(s, at + 24, info.last_write_time);
    assert(s.subrange(at + 32, at + 40) =~= common.subrange(28, 36));
    lemma_u64_at(s, at + 32, info.change_time);
    assert(s.subrange(at + 40, at + 48) =~= common.subrange(36, 44));
    lemma_u64_at(s, at + 40, info.size);
    assert(s.subrange(at + 48, at + 56) =~= common.subrange(44, 52));
    lemma_u64_at(s, at + 48, info.allocation_size);
    assert(s.subrange(at + 56, at + 60) =~= common.subrange(52, 56));
    lemma_u32_at(s, at + 56, info.attributes);
    assert(s.subrange(at + 60, at + 64) =~= common.subrange(56, 60));
    lemma_u32_at(s, at + 60, low32(name.len() as int));
    assert(special =~= mine.subrange(60, fixed - 4));
    if info_class != file_info_class::DIRECTORY {
        let tag = super::effective_tag(info);
        lemma_le32(tag);
        assert(special.subrange(0, 4) =~= le32(tag));
        assert(s.subrange(at + 64, at + 68) =~= special.subrange(0, 4));
        lemma_u32_at(s, at + 64, tag);
        assert forall|k: int| at + 68 <= k < at + fixed implies s[k] == 0 by {
            assert(s[k] == mine[k - at - 4]);
            assert(special[k - at - 64] == 0);
        }
    }
    assert(mine.skip(fixed - 4) =~= name);
    assert(s.subrange(at + fixed, (at + fixed + name.len()) as int) =~= mine.skip(fixed - 4));
}

proof fn lemma_class_dir_fields(info_class: u8, info: FileInfo)
    requires
        is_dir_class(info_class),
    ensures
        64 + class_dir_fields(info_class, info).len() == name_offset(info_class),
{
    lemma_le32(super::effective_tag(info));
}

/// The layout of a single encoded entry: the fixed part of its class, the name,
/// and nothing after it. The link is the length rounded up to a multiple of
/// eight, the name length is at 60, and in every class but the first the reparse
/// tag of a reparse point (0 for anything else) is at 64, with zeros from there
/// to the name.
pub proof fn law_dir_entry_layout(info_class: u8, entry: EntryState)
    requires
        is_dir_class(info_class),
    ensures
        ({
            let v = dir_entry(info_class, entry);
            let name = utf16_le(entry.name);
            let fixed = name_offset(info_class);
            &&& v.len() == fixed + name.len()
            &&& v.skip(fixed) == name
            &&& u32_at(v, 0) == low32(aligned8(v.len() as int))
            &&& u32_at(v, 0) == (v.len() + 7) / 8 * 8 % 0x1_0000_0000
            &&& is_entry_at(v, 0, info_class, entry)
            &&& u32_at(v, 60) == low32(name.len() as int)
            &&& info_class != file_info_class::DIRECTORY ==> {
                &&& u32_at(v, 64) == super::effective_tag(entry.info)
                &&& v.subrange(68, fixed) == zeros(fixed - 68)
            }
        }),
{
    let v = dir_entry(info_class, entry);
    let name = utf16_le(entry.name);
    let fixed = name_offset(info_class);
    let link = low32(dir_entry_len(info_class, entry));
    let common = common_dir_fields(entry.info, name.len() as int);
    let special = class_dir_fields(info_class, entry.info);
    lemma_le32(link);
    lemma_common_dir_fields(entry.info, name.len() as int);
    lemma_class_dir_fields(info_class, entry.info);
    assert(v.skip(fixed) =~= name);
    assert(v.subrange(4, v.len() as int) =~= dir_fields(info_class, entry));
    lemma_entry_at(v, 0, info_class, entry);
    lemma_u32_at(v, 0, link);
    assert(v.subrange(0, 4) =~= le32(link));
    lemma_u32_at(v, 60, low32(name.len() as int));
    assert(v.subrange(60, 64) =~= common.subrange(56, 60));
    if info_class != file_info_class::DIRECTORY {
        let tag = super::effective_tag(entry.info);
        lemma_le32(tag);
        lemma_u32_at(v, 64, tag);
        assert(v.subrange(64, 68) =~= le32(tag));
        assert(v.subrange(68, fixed) =~= zeros(fixed - 68));
    }
}

/// A client that follows the links of a page of directory information finds
/// every entry: the link of each leads to the next, at the next multiple of eight
/// after zeros, the last one's is 0, and each carries its file's times, sizes,
/// attributes and name where its class puts them. (A link has 32 bits: it is
/// stated modulo that.)
pub proof fn law_dir_page_is_walkable(info_class: u8, entries: Seq<EntryState>, i: int)
    requires
        is_dir_class(info_class),
        0 <= i < entries.len(),
    ensures
        ({
            let page = dir_page(info_class, entries);
            let at = dir_offset(info_class, entries, i);
            let next = dir_offset(info_class, entries, i + 1);
            let name = utf16_le(entries[i].name);
            let name_at = at + name_offset(info_class);
            &&& 0 <= at
            &&& name_at + name.len() <= next <= page.len()
            &&& i == entries.len() - 1 ==> next == page.len()
            &&& i == 0 ==> at == 0
            &&& u32_at(page, at) == (if i == entries.len() - 1 {
                0
            } else {
                low32(next - at)
            })
            &&& i < entries.len() - 1 ==> u32_at(page, at) == (next - at) % 0x1_0000_0000
            &&& is_entry_at(page, at, info_class, entries[i])
            &&& next % 8 == 0
            &&& next < name_at + name.len() + 8
            &&& forall|k: int| name_at + name.len() <= k < next ==> page[k] == 0
            &&& u64_at(page, at + 40) == entries[i].info.size
            &&& u32_at(page, at + 56) == entries[i].info.attributes
            &&& u32_at(page, at + 60) == low32(name.len() as int)
            &&& page.subrange(name_at, (name_at + name.len()) as int) == name
            &&& decode_utf16_le(page.subrange(name_at, (name_at + name.len()) as int)) == Some(
                entries[i].name,
            )
        }),
{
    let page = dir_page(info_class, entries);
    let fields = all_dir_fields(info_class, entries);
    let at = dir_offset(info_class, entries, i);
    let entry = entries[i];
    let name = utf16_le(entry.name);
    lemma_dir_chain(info_class, entries.drop_last());
    assert(fields.drop_last() =~= all_dir_fields(info_class, entries.drop_last()));
    assert(page == field_page(fields));
    lemma_dir_offset(info_class, entries, i);
    lemma_dir_offset(info_class, entries, i + 1);
    lemma_field_page(fields, i);
    let mine = dir_fields(info_class, entry);
    assert(page.subrange(at + 4, at + 4 + mine.len()) == mine);
    lemma_entry_at(page, at, info_class, entry);
    lemma_offset_aligned(fields, i + 1);
    let common = common_dir_fields(entry.info, name.len() as int);
    let special = class_dir_fields(info_class, entry.info);
    lemma_common_dir_fields(entry.info, name.len() as int);
    lemma_class_dir_fields(info_class, entry.info);
    lemma_u32_at(page, at + 60, low32(name.len() as int));
    assert(page.subrange(at + 60, at + 64) =~= mine.subrange(56, 60));
    assert(mine.subrange(56, 60) =~= common.subrange(56, 60));
    lemma_u32_at(page, at + 56, entry.info.attributes);
    assert(page.subrange(at + 56, at + 60) =~= mine.subrange(52, 56));
    assert(mine.subrange(52, 56) =~= common.subrange(52, 56));
    lemma_u64_at(page, at + 40, entry.info.size);
    assert(page.subrange(at + 40, at + 48) =~= mine.subrange(36, 44));
    assert(mine.subrange(36, 44) =~= common.subrange(36, 44));
    let name_at = at + name_offset(info_class);
    let k = name_offset(info_class) - 4;
    assert(page.subrange(name_at, (name_at + name.len()) as int) =~= mine.subrange(
        k,
        (k + name.len()) as int,
    ));
    assert(mine.subrange(k, (k + name.len()) as int) =~= name);
    law_utf16_round_trip(entry.name);
}

/// The bytes of a page are its entries' and nothing else.
pub proof fn law_dir_page_length(info_class: u8, entries: Seq<EntryState>)
    ensures
        dir_page(info_class, entries).len() == dir_offset(
            info_class,
            entries,
            entries.len() as int,
        ),
        dir_page(info_class, entries).len() % 8 == 0,
{
    let fields = all_dir_fields(info_class, entries);
    lemma_dir_offset(info_class, entries, entries.len() as int);
    if entries.len() > 0 {
        lemma_dir_chain(info_class, entries.drop_last());
        assert(fields.drop_last() =~= all_dir_fields(info_class, entries.drop_last()));
        lemma_field_page(fields, 0);
    }
    lemma_offset_aligned(fields, entries.len() as int);
}

proof fn lemma_offset_aligned(fields: Seq<Seq<u8>>, i: int)
    ensures
        field_offset(fields, i) % 8 == 0,
    decreases i,
{
    if i > 0 {
        lemma_offset_aligned(fields, i - 1);
    }
}

/// Where a page ends: after at least one entry, after exactly one where a
/// single entry is asked for, and, if it has more than one, within the
/// client's buffer. Where more than one may be returned, it ends short of the
/// listing's end only where one entry more would not fit.
pub proof fn law_page_bounds(
    info_class: u8,
    entries: Seq<EntryState>,
    cursor: int,
    max: int,
    single: bool,
)
    requires
        0 <= cursor < entries.len(),
    ensures
        ({
            let end = page_end(info_class, entries, cursor, 0, max, single);
            &&& cursor < end <= entries.len()
            &&& single ==> end == cursor + 1
            &&& end > cursor + 1 ==> dir_page(info_class, entries.subrange(cursor, end)).len()
                <= max
            &&& !single && end < entries.len() ==> dir_page(
                info_class,
                entries.subrange(cursor, end + 1),
            ).len() > max
        }),
{
    let end = page_end(info_class, entries, cursor, 0, max, single);
    lemma_page_end(info_class, entries, cursor, 0, max, single);
    if !single {
        let first = dir_entry_len(info_class, entries[cursor]);
        let one = entries.subrange(cursor, cursor + 1);
        assert(one[0] == entries[cursor]);
        assert(dir_offset(info_class, one, 0) == 0);
        assert(dir_offset(info_class, one, 1) == first);
        lemma_page_fits(info_class, entries, cursor, cursor + 1, first, max);
        law_dir_page_length(info_class, entries.subrange(cursor, end));
        if end < entries.len() {
            law_dir_page_length(info_class, entries.subrange(cursor, end + 1));
        }
    }
}

/// What a page has taken so far fits, if it takes any more.
proof fn lemma_page_fits(
    info_class: u8,
    entries: Seq<EntryState>,
    cursor: int,
    i: int,
    used: int,
    max: int,
)
    requires
        0 <= cursor < i <= entries.len(),
        used == dir_offset(info_class, entries.subrange(cursor, i), i - cursor),
        used > 0,
    ensures
        ({
            let end = page_end(info_class, entries, i, used, max, false);
            &&& i <= end <= entries.len()
            &&& end > i ==> dir_offset(
                info_class,
                entries.subrange(cursor, end),
                end - cursor,
            ) <= max
            &&& end < entries.len() ==> dir_offset(
                info_class,
                entries.subrange(cursor, end + 1),
                end + 1 - cursor,
            ) > max
        }),
    decreases entries.len() - i,
{
    lemma_page_end(info_class, entries, i, used, max, false);
    if i < entries.len() {
        let more = used + dir_entry_len(info_class, entries[i]);
        let wider = entries.subrange(cursor, i + 1);
        assert(wider[i - cursor] == entries[i]);
        lemma_dir_offset_prefix(info_class, wider, entries.subrange(cursor, i), i - cursor);
        if more <= max {
            lemma_pad8(
                le32(low32(dir_entry_len(info_class, entries[i]))) + dir_fields(
                    info_class,
                    entries[i],
                ),
            );
            lemma_page_fits(info_class, entries, cursor, i + 1, more, max);
        }
    }
}

proof fn lemma_dir_offset_prefix(info_class: u8, a: Seq<EntryState>, b: Seq<EntryState>, i: int)
    requires
        0 <= i <= a.len(),
        i <= b.len(),
        forall|k: int| 0 <= k < i ==> a[k] == b[k],
    ensures
        dir_offset(info_class, a, i) == dir_offset(info_class, b, i),
    decreases i,
{
    if i > 0 {
        lemma_dir_offset_prefix(info_class, a, b, i - 1);
    }
}

/// One request for a page: the size of the client's buffer, and whether it
/// asks for a single entry.
pub struct PageRequest {
    /// The size of the client's buffer.
    pub max: int,
    /// Whether it asks for a single entry.
    pub single: bool,
}

/// The entries that successive pages return, from entry `cursor` on.
pub open spec fn paged(
    info_class: u8,
    entries: Seq<EntryState>,
    cursor: int,
    requests: Seq<PageRequest>,
) -> Seq<EntryState>
    decreases requests.len(),
{
    if requests.len() == 0 || cursor >= entries.len() {
        Seq::empty()
    } else {
        let end = page_end(
            info_class,
            entries,
            cursor,
            0,
            requests[0].max,
            requests[0].single,
        );
        entries.subrange(cursor, end) + paged(info_class, entries, end, requests.skip(1))
    }
}

/// Paging through a listing returns every entry exactly once and in order,
/// however large the client's buffers are, after at most as many pages as there
/// are entries.
pub proof fn law_paging_returns_everything_once(
    info_class: u8,
    entries: Seq<EntryState>,
    cursor: int,
    requests: Seq<PageRequest>,
)
    requires
        0 <= cursor <= entries.len(),
        requests.len() >= entries.len() - cursor,
    ensures
        paged(info_class, entries, cursor, requests) == entries.subrange(
            cursor,
            entries.len() as int,
        ),
    decreases requests.len(),
{
    if cursor < entries.len() {
        let end = page_end(
            info_class,
            entries,
            cursor,
            0,
            requests[0].max,
            requests[0].single,
        );
        lemma_page_end(info_class, entries, cursor, 0, requests[0].max, requests[0].single);
        law_paging_returns_everything_once(info_class, entries, end, requests.skip(1));
        assert(entries.subrange(cursor, end) + entries.subrange(end, entries.len() as int)
            =~= entries.subrange(cursor, entries.len() as int));
    } else {
        assert(entries.subrange(cursor, entries.len() as int) =~= Seq::<EntryState>::empty());
    }
}

spec fn all_stream_fields(streams: Seq<StreamState>) -> Seq<Seq<u8>> {
    Seq::new(streams.len(), |i: int| stream_fields(streams[i]))
}

proof fn lemma_stream_chain(streams: Seq<StreamState>)
    ensures
        stream_chain(streams) == field_chain(all_stream_fields(streams)),
    decreases streams.len(),
{
    if streams.len() != 0 {
        lemma_stream_chain(streams.drop_last());
        assert(all_stream_fields(streams).drop_last() =~= all_stream_fields(streams.drop_last()));
    }
}

/// Where entry `i` of the stream information starts.
pub open spec fn stream_offset(streams: Seq<StreamState>, i: int) -> int
    decreases i,
{
    if i <= 0 {
        0
    } else {
        stream_offset(streams, i - 1) + aligned8(4int + stream_fields(streams[i - 1]).len())
    }
}

proof fn lemma_stream_offset(streams: Seq<StreamState>, i: int)
    requires
        0 <= i <= streams.len(),
    ensures
        stream_offset(streams, i) == field_offset(all_stream_fields(streams), i),
    decreases i,
{
    if i > 0 {
        lemma_stream_offset(streams, i - 1);
    }
}

/// A client that follows the links of the stream information finds every
/// stream: the link of each leads to the next, at the next multiple of eight after
/// zeros, the last one's is 0, and each carries its stream's size, the size rounded
/// up to whole clusters, and its name.
pub proof fn law_stream_info_is_walkable(streams: Seq<StreamState>, i: int)
    requires
        0 <= i < streams.len(),
    ensures
        ({
            let info = stream_info(streams);
            let at = stream_offset(streams, i);
            let next = stream_offset(streams, i + 1);
            let name = utf16_le(streams[i].name);
            &&& 0 <= at
            &&& at + 24 + name.len() <= next <= info.len()
            &&& i == streams.len() - 1 ==> next == info.len()
            &&& i == 0 ==> at == 0
            &&& u32_at(info, at) == (if i == streams.len() - 1 {
                0
            } else {
                low32(next - at)
            })
            &&& u32_at(info, at + 4) == low32(name.len() as int)
            &&& u64_at(info, at + 8) == super::bits_of(streams[i].size)
            &&& i < streams.len() - 1 ==> u32_at(info, at) == (next - at) % 0x1_0000_0000
            &&& u32_at(info, at + 4) == name.len() % 0x1_0000_0000
            &&& u64_at(info, at + 8) == (if streams[i].size >= 0 {
                streams[i].size as int
            } else {
                streams[i].size + 0x1_0000_0000_0000_0000
            })
            &&& super::stream_fits(streams[i].size) ==> {
                let size = u64_at(info, at + 8);
                let allocated = u64_at(info, at + 16);
                &&& size <= allocated < size + 4096
                &&& allocated % 4096 == 0
            }
            &&& info.subrange(at + 24, (at + 24 + name.len()) as int) == name
            &&& next % 8 == 0
            &&& next < at + 24 + name.len() + 8
            &&& forall|k: int| at + 24 + name.len() <= k < next ==> info[k] == 0
            &&& decode_utf16_le(info.subrange(at + 24, (at + 24 + name.len()) as int)) == Some(
                streams[i].name,
            )
        }),
{
    let info = stream_info(streams);
    let fields = all_stream_fields(streams);
    let at = stream_offset(streams, i);
    let stream = streams[i];
    let name = utf16_le(stream.name);
    lemma_stream_chain(streams.drop_last());
    assert(fields.drop_last() =~= all_stream_fields(streams.drop_last()));
    assert(info == field_page(fields));
    lemma_stream_offset(streams, i);
    lemma_stream_offset(streams, i + 1);
    lemma_field_page(fields, i);
    let mine = stream_fields(stream);
    let rounded = crate::backing::cluster_round(super::bits_of(stream.size) as int) as u64;
    lemma_le32(low32(name.len() as int));
    lemma_le64(super::bits_of(stream.size));
    lemma_le64(rounded);
    assert(info.subrange(at + 4, at + 4 + mine.len()) == mine);
    lemma_u32_at(info, at + 4, low32(name.len() as int));
    assert(info.subrange(at + 4, at + 8) =~= mine.subrange(0, 4));
    assert(mine.subrange(0, 4) =~= le32(low32(name.len() as int)));
    lemma_u64_at(info, at + 8, super::bits_of(stream.size));
    assert(info.subrange(at + 8, at + 16) =~= mine.subrange(4, 12));
    assert(mine.subrange(4, 12) =~= le64(super::bits_of(stream.size)));
    lemma_u64_at(info, at + 16, rounded);
    assert(info.subrange(at + 16, at + 24) =~= mine.subrange(12, 20));
    assert(mine.subrange(12, 20) =~= le64(rounded));
    law_allocation_covers_size(super::bits_of(stream.size) as int);
    lemma_offset_aligned(fields, i + 1);
    assert(info.subrange(at + 24, (at + 24 + name.len()) as int) =~= mine.subrange(
        20,
        (20 + name.len()) as int,
    ));
    assert(mine.subrange(20, (20 + name.len()) as int) =~= name);
    law_utf16_round_trip(stream.name);
}

/// The fixed sizes of the file information classes.
pub proof fn law_info_sizes(info: FileInfo)
    ensures
        basic_info(info).len() == 40,
        standard_info(info).len() == 24,
        network_open_info(info).len() == 56,
        attribute_tag_info(info).len() == 8,
{
    lemma_le64(info.creation_time);
    lemma_le64(info.last_access_time);
    lemma_le64(info.last_write_time);
    lemma_le64(info.change_time);
    lemma_le64(info.allocation_size);
    lemma_le64(info.size);
    lemma_le32(info.attributes);
    lemma_le32(super::effective_tag(info));
    lemma_le32(0);
    lemma_le32(1);
    lemma_le16(0);
}

/// Where a client finds what in `FileBasicInformation`.
pub proof fn law_basic_info_fields(info: FileInfo)
    ensures
        ({
            let b = basic_info(info);
            &&& b.len() == 40
            &&& u64_at(b, 0) == info.creation_time
            &&& u64_at(b, 8) == info.last_access_time
            &&& u64_at(b, 16) == info.last_write_time
            &&& u64_at(b, 24) == info.change_time
            &&& u32_at(b, 32) == info.attributes
            &&& u32_at(b, 36) == 0
        }),
{
    let b = basic_info(info);
    lemma_le32(0);
    lemma_le32(info.attributes);
    lemma_le64(info.change_time);
    lemma_le64(info.creation_time);
    lemma_le64(info.last_access_time);
    lemma_le64(info.last_write_time);
    assert(b.subrange(0, 8) =~= le64(info.creation_time));
    lemma_u64_at(b, 0, info.creation_time);
    assert(b.subrange(8, 16) =~= le64(info.last_access_time));
    lemma_u64_at(b, 8, info.last_access_time);
    assert(b.subrange(16, 24) =~= le64(info.last_write_time));
    lemma_u64_at(b, 16, info.last_write_time);
    assert(b.subrange(24, 32) =~= le64(info.change_time));
    lemma_u64_at(b, 24, info.change_time);
    assert(b.subrange(32, 36) =~= le32(info.attributes));
    lemma_u32_at(b, 32, info.attributes);
    assert(b.subrange(36, 40) =~= le32(0));
    lemma_u32_at(b, 36, 0);
}

/// Where a client finds what in `FileStandardInformation`: one link, nothing
/// pending, and 1 in the directory field of a directory alone.
pub proof fn law_standard_info_fields(info: FileInfo)
    ensures
        ({
            let b = standard_info(info);
            &&& b.len() == 24
            &&& u64_at(b, 0) == info.allocation_size
            &&& u64_at(b, 8) == info.size
            &&& u32_at(b, 16) == 1
            &&& b[20] == 0
            &&& b[21] == (if info.is_dir { 1u8 } else { 0u8 })
            &&& u16_at(b, 22) == 0
        }),
{
    let b = standard_info(info);
    lemma_le16(0);
    lemma_le32(1);
    lemma_le64(info.allocation_size);
    lemma_le64(info.size);
    assert(b.subrange(0, 8) =~= le64(info.allocation_size));
    lemma_u64_at(b, 0, info.allocation_size);
    assert(b.subrange(8, 16) =~= le64(info.size));
    lemma_u64_at(b, 8, info.size);
    assert(b.subrange(16, 20) =~= le32(1));
    lemma_u32_at(b, 16, 1);
    assert(b.subrange(22, 24) =~= le16(0));
    lemma_u16_at(b, 22, 0);
}

/// Where a client finds what in `FileNetworkOpenInformation`.
pub proof fn law_network_open_info_fields(info: FileInfo)
    ensures
        ({
            let b = network_open_info(info);
            &&& b.len() == 56
            &&& u64_at(b, 0) == info.creation_time
            &&& u64_at(b, 8) == info.last_access_time
            &&& u64_at(b, 16) == info.last_write_time
            &&& u64_at(b, 24) == info.change_time
            &&& u64_at(b, 32) == info.allocation_size
            &&& u64_at(b, 40) == info.size
            &&& u32_at(b, 48) == info.attributes
            &&& u32_at(b, 52) == 0
        }),
{
    let b = network_open_info(info);
    lemma_le32(0);
    lemma_le32(info.attributes);
    lemma_le64(info.allocation_size);
    lemma_le64(info.change_time);
    lemma_le64(info.creation_time);
    lemma_le64(info.last_access_time);
    lemma_le64(info.last_write_time);
    lemma_le64(info.size);
    assert(b.subrange(0, 8) =~= le64(info.creation_time));
    lemma_u64_at(b, 0, info.creation_time);
    assert(b.subrange(8, 16) =~= le64(info.last_access_time));
    lemma_u64_at(b, 8, info.last_access_time);
    assert(b.subrange(16, 24) =~= le64(info.last_write_time));
    lemma_u64_at(b, 16, info.last_write_time);
    assert(b.subrange(24, 32) =~= le64(info.change_time));
    lemma_u64_at(b, 24, info.change_time);
    assert(b.subrange(32, 40) =~= le64(info.allocation_size));
    lemma_u64_at(b, 32, info.allocation_size);
    assert(b.subrange(40, 48) =~= le64(info.size));
    lemma_u64_at(b, 40, info.size);
    assert(b.subrange(48, 52) =~= le32(info.attributes));
    lemma_u32_at(b, 48, info.attributes);
    assert(b.subrange(52, 56) =~= le32(0));
    lemma_u32_at(b, 52, 0);
}

/// Where a client finds what in `FileAttributeTagInformation`: the reparse tag is
/// that of the file exactly where the reparse point attribute is set, else 0.
pub proof fn law_attribute_tag_info_fields(info: FileInfo)
    ensures
        ({
            let b = attribute_tag_info(info);
            &&& b.len() == 8
            &&& u32_at(b, 0) == info.attributes
            &&& u32_at(b, 4) == (if info.attributes & 0x400 != 0 {
                info.reparse_tag
            } else {
                0
            })
        }),
{
    let b = attribute_tag_info(info);
    let tag = super::effective_tag(info);
    lemma_le32(info.attributes);
    lemma_le32(tag);
    assert(b.subrange(0, 4) =~= le32(info.attributes));
    lemma_u32_at(b, 0, info.attributes);
    assert(b.subrange(4, 8) =~= le32(tag));
    lemma_u32_at(b, 4, tag);
}

/// No streams are no bytes, and neither are no entries.
pub proof fn law_nothing_is_no_bytes(info_class: u8)
    ensures
        stream_info(Seq::empty()).len() == 0,
        dir_page(info_class, Seq::empty()).len() == 0,
{
}

/// The directory information classes that are served, and no others are encoded.
pub proof fn law_directory_classes(info_class: u8, entry: DirEntry, r: Option<Vec<u8>>)
    requires
        call_ensures(encode_dir_entry, (info_class, &entry), r),
    ensures
        is_dir_class(info_class) <==> info_class == 1 || info_class == 2 || info_class == 3
            || info_class == 37,
        r is Some <==> is_dir_class(info_class),
        r matches Some(v) ==> v@ == dir_entry(info_class, entry@) && is_entry_at(
            v@,
            0,
            info_class,
            EntryState { name: entry.name@, info: entry.info },
        ),
{
    if is_dir_class(info_class) {
        law_dir_entry_layout(info_class, entry@);
    }
}

} // verus!
