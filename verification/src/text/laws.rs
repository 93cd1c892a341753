//! What names and paths come to, character by character.

use super::{
    decode_utf16_le, last_component_of, lossy_utf16, lowercase, split, unit_bytes, units_of, utf16,
    utf16_le,
};
use crate::wire::{le16, lemma_le16, lemma_u16_at, u16_at};
use vstd::prelude::*;

verus! {

/// What a character adds to a text in UTF-16: itself, or, beyond the basic plane,
/// a high and a low surrogate that share its number between them.
pub proof fn law_utf16_of_a_character(s: Seq<char>, c: char)
    ensures
        ({
            let before = utf16(s);
            let after = utf16(s.push(c));
            let n = before.len() as int;
            &&& utf16(Seq::<char>::empty()).len() == 0
            &&& after.take(n) == before
            &&& (c as u32) < 0x1_0000 ==> after.len() == n + 1 && after[n] == c as u32
            &&& (c as u32) >= 0x1_0000 ==> {
                &&& after.len() == n + 2
                &&& 0xD800 <= after[n] < 0xDC00
                &&& 0xDC00 <= after[n + 1] < 0xE000
                &&& 0x1_0000 + (after[n] - 0xD800) * 0x400 + (after[n + 1] - 0xDC00) == c as u32
            }
        }),
{
    assert(s.push(c).drop_last() =~= s);
    assert(utf16(s.push(c)).take(utf16(s).len() as int) =~= utf16(s));
}

proof fn lemma_units_of(bytes: Seq<u8>)
    requires
        bytes.len() % 2 == 0,
    ensures
        unit_bytes(units_of(bytes)) == bytes,
    decreases bytes.len(),
{
    let units = units_of(bytes);
    if bytes.len() == 0 {
        assert(unit_bytes(units) =~= bytes);
    } else {
        let front = bytes.take(bytes.len() - 2);
        assert(units.drop_last() =~= units_of(front)) by {
            assert forall|i: int| 0 <= i < units.len() - 1 implies units[i] == units_of(
                front,
            )[i] by {
                reveal(u16_at);
            }
        }
        lemma_units_of(front);
        let last = units.last();
        lemma_le16(last);
        lemma_u16_at(bytes, bytes.len() - 2, last);
        assert(bytes.subrange(bytes.len() - 2, bytes.len() as int) == le16(last));
        assert(unit_bytes(units) =~= bytes);
    }
}

/// The text that bytes hold is the one text whose wire form they are: there is
/// none where they are the wire form of no text.
pub proof fn law_decoding_inverts_encoding(bytes: Seq<u8>, s: Seq<char>)
    ensures
        decode_utf16_le(bytes) == Some(s) <==> bytes == utf16_le(s),
        decode_utf16_le(bytes) is None <==> forall|t: Seq<char>| bytes != #[trigger] utf16_le(t),
{
    super::law_utf16_round_trip(s);
    if bytes.len() % 2 == 0 {
        lemma_units_of(bytes);
        if decode_utf16_le(bytes) is Some {
            let t = decode_utf16_le(bytes)->0;
            assert(utf16(t) == units_of(bytes));
            assert(bytes == utf16_le(t));
        }
    }
    if decode_utf16_le(bytes) is None {
        assert forall|t: Seq<char>| bytes != #[trigger] utf16_le(t) by {
            super::law_utf16_round_trip(t);
        }
    }
}

/// On the wire each code unit of a text stands little-endian, one after the other.
pub proof fn law_code_units_on_the_wire(s: Seq<char>, i: int)
    requires
        0 <= i < utf16(s).len(),
    ensures
        utf16_le(s).len() == 2 * utf16(s).len(),
        utf16_le(s)[2 * i] == utf16(s)[i] % 0x100,
        utf16_le(s)[2 * i + 1] == utf16(s)[i] / 0x100,
{
    lemma_code_units(utf16(s), i);
}

proof fn lemma_code_units(units: Seq<u16>, i: int)
    requires
        0 <= i < units.len(),
    ensures
        unit_bytes(units).len() == 2 * units.len(),
        unit_bytes(units)[2 * i] == units[i] % 0x100,
        unit_bytes(units)[2 * i + 1] == units[i] / 0x100,
    decreases units.len(),
{
    let front = units.drop_last();
    lemma_le16(units.last());
    if front.len() > 0 {
        lemma_code_units(front, if i < front.len() {
            i
        } else {
            0
        });
    } else {
        assert(unit_bytes(front).len() == 0);
    }
    if i == units.len() - 1 {
        reveal(le16);
    }
}

/// Folding keeps the length and every character but the capital letters of ASCII,
/// each of which becomes its small letter; what is folded is folded for good.
pub proof fn law_lowercase(s: Seq<char>)
    ensures
        lowercase(s).len() == s.len(),
        forall|i: int|
            0 <= i < s.len() ==> {
                let c = s[i] as u32;
                #[trigger] lowercase(s)[i] as u32 == (if 0x41 <= c <= 0x5A {
                    c + 0x20
                } else {
                    c as int
                })
            },
        lowercase(lowercase(s)) == lowercase(s),
{
    assert forall|i: int| 0 <= i < s.len() implies ({
        let c = s[i] as u32;
        #[trigger] lowercase(s)[i] as u32 == (if 0x41 <= c <= 0x5A {
            c + 0x20
        } else {
            c as int
        })
    }) by {
        lemma_ascii_lower(s[i]);
    }
    assert(lowercase(lowercase(s)) =~= lowercase(s)) by {
        assert forall|i: int| 0 <= i < s.len() implies lowercase(lowercase(s))[i] == lowercase(
            s,
        )[i] by {
            lemma_ascii_lower(s[i]);
            lemma_ascii_lower(lowercase(s)[i]);
        }
    }
}

proof fn lemma_ascii_lower(c: char)
    ensures
        super::ascii_lower(c) as u32 == (if 0x41 <= c as u32 <= 0x5A {
            c as u32 + 0x20
        } else {
            c as u32 as int
        }),
{
}

/// The last component of a path holds no backslash, ends the path, and starts at
/// its start or behind a backslash.
pub proof fn law_last_component(path: Seq<char>)
    ensures
        ({
            let last = last_component_of(path);
            let at = path.len() - last.len();
            &&& 0 <= at
            &&& path.skip(at) == last
            &&& at > 0 ==> path[at - 1] == '\\'
            &&& forall|i: int| 0 <= i < last.len() ==> #[trigger] last[i] != '\\'
        }),
    decreases path.len(),
{
    if path.len() == 0 || path.last() == '\\' {
        assert(path.skip(path.len() as int) =~= Seq::<char>::empty());
    } else {
        let front = path.drop_last();
        law_last_component(front);
        let last = last_component_of(path);
        let at = path.len() - last.len();
        assert(path.skip(at) =~= front.skip(at).push(path.last()));
    }
}

/// Where piece `i` of a list of pieces with one character between them starts.
pub open spec fn piece_offset(pieces: Seq<Seq<char>>, i: int) -> int
    decreases i,
{
    if i <= 0 {
        0
    } else {
        piece_offset(pieces, i - 1) + pieces[i - 1].len() + 1
    }
}

proof fn lemma_piece_offset(a: Seq<Seq<char>>, b: Seq<Seq<char>>, i: int)
    requires
        0 <= i,
        forall|k: int| 0 <= k < i ==> a[k] == b[k],
    ensures
        piece_offset(a, i) == piece_offset(b, i),
        piece_offset(a, i) >= 0,
    decreases i,
{
    if i > 0 {
        lemma_piece_offset(a, b, i - 1);
    }
}

/// Splitting loses nothing: the pieces, with the separators between them, are the
/// text, and no piece holds a separator. `/` separates always, a backslash where it
/// is asked to, and nothing else does.
pub proof fn law_split(s: Seq<char>, backslash: bool, i: int)
    requires
        0 <= i < split(s, backslash).len(),
    ensures
        ({
            let pieces = split(s, backslash);
            let n = pieces.len() as int;
            let at = piece_offset(pieces, i);
            let end = at + pieces[i].len();
            &&& n >= 1
            &&& 0 <= at <= end <= s.len()
            &&& s.subrange(at, end) == pieces[i]
            &&& i < n - 1 ==> end < s.len() && (s[end] == '/' || backslash && s[end] == '\\')
            &&& i == n - 1 ==> end == s.len()
            &&& forall|k: int|
                at <= k < end ==> #[trigger] s[k] != '/' && !(backslash && s[k] == '\\')
        }),
    decreases s.len(),
{
    let pieces = split(s, backslash);
    let n = pieces.len() as int;
    super::lemma_split(s, backslash);
    if s.len() == 0 {
        assert(s.subrange(0, 0) =~= pieces[0]);
    } else {
        let front = split(s.drop_last(), backslash);
        super::lemma_split(s.drop_last(), backslash);
        let m = front.len() as int;
        let at = piece_offset(pieces, i);
        let end = at + pieces[i].len();
        if i < m {
            law_split(s.drop_last(), backslash, i);
            lemma_piece_offset(pieces, front, i);
            if super::is_separator(s.last(), backslash) || i < m - 1 {
                assert(pieces[i] == front[i]);
                assert(s.subrange(at, end) =~= s.drop_last().subrange(at, end));
            } else {
                assert(pieces[i] == front[i].push(s.last()));
                assert(s.subrange(at, end) =~= s.drop_last().subrange(at, end - 1).push(s.last()));
            }
        } else {
            law_split(s.drop_last(), backslash, m - 1);
            lemma_piece_offset(pieces, front, m - 1);
            assert(pieces[m - 1] == front[m - 1]);
            assert(s.subrange(at, end) =~= Seq::<char>::empty());
        }
        assert forall|k: int| at <= k < end implies #[trigger] s[k] != '/' && !(backslash && s[k]
            == '\\') by {
            assert(s[k] == s.subrange(at, end)[k - at]);
            assert(!super::is_separator(pieces[i][k - at], backslash));
        }
    }
}

/// What a lossy reading makes of code units: a pair of surrogates is the character
/// that they share, a unit that is no surrogate is its own character, and each
/// surrogate without its partner is U+FFFD.
pub proof fn law_lossy_utf16_of_units(units: Seq<u16>)
    requires
        units.len() > 0,
    ensures
        ({
            let text = lossy_utf16(units);
            let u = units[0];
            let paired = 0xD800 <= u < 0xDC00 && units.len() > 1 && 0xDC00 <= units[1] < 0xE000;
            &&& text.len() > 0
            &&& !(0xD800 <= u < 0xE000) ==> text[0] as u32 == u && text.skip(1) == lossy_utf16(
                units.skip(1),
            )
            &&& paired ==> text[0] as u32 == 0x1_0000 + (u - 0xD800) * 0x400 + (units[1] - 0xDC00)
                && text.skip(1) == lossy_utf16(units.skip(2))
            &&& 0xD800 <= u < 0xE000 && !paired ==> text[0] == '\u{FFFD}' && text.skip(1)
                == lossy_utf16(units.skip(1))
        }),
{
    let text = lossy_utf16(units);
    if 0xD800 <= units[0] < 0xDC00 && units.len() > 1 && 0xDC00 <= units[1] < 0xE000 {
        assert(text.skip(1) =~= lossy_utf16(units.skip(2)));
    } else {
        assert(text.skip(1) =~= lossy_utf16(units.skip(1)));
    }
}

} // verus!
