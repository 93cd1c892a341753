//! Names on the wire and in paths: UTF-16, ASCII case folding, and splitting
//! at separators.

use crate::wire::{get_u16, le16, lemma_le16, lemma_u16_at, put_u16, u16_at};
use vstd::prelude::*;
use vstd::string::*;

pub mod laws;

verus! {

/// The UTF-16 code units of one character: the character itself, or a
/// surrogate pair for one outside the basic plane.
pub open spec fn utf16_char(c: char) -> Seq<u16> {
    if (c as u32) < 0x1_0000 {
        seq![(c as u32) as u16]
    } else {
        seq![
            (0xD800 + (c as u32 - 0x1_0000) / 0x400) as u16,
            (0xDC00 + (c as u32 - 0x1_0000) % 0x400) as u16,
        ]
    }
}

/// The UTF-16 code units of a text.
pub open spec fn utf16(s: Seq<char>) -> Seq<u16>
    decreases s.len(),
{
    if s.len() == 0 {
        Seq::empty()
    } else {
        utf16(s.drop_last()) + utf16_char(s.last())
    }
}

/// The text that `units` encodes, if they are well-formed UTF-16.
pub open spec fn decode_utf16(units: Seq<u16>) -> Option<Seq<char>> {
    if exists|s: Seq<char>| utf16(s) == units {
        Some(choose|s: Seq<char>| utf16(s) == units)
    } else {
        None
    }
}

/// The little-endian bytes of a run of code units.
pub open spec fn unit_bytes(units: Seq<u16>) -> Seq<u8>
    decreases units.len(),
{
    if units.len() == 0 {
        Seq::empty()
    } else {
        unit_bytes(units.drop_last()) + le16(units.last())
    }
}

/// A text as it stands on the wire: UTF-16, little-endian.
pub open spec fn utf16_le(s: Seq<char>) -> Seq<u8> {
    unit_bytes(utf16(s))
}

/// The code units in an even number of bytes.
pub open spec fn units_of(bytes: Seq<u8>) -> Seq<u16> {
    Seq::new((bytes.len() / 2) as nat, |i: int| u16_at(bytes, 2 * i))
}

/// The text that a little-endian UTF-16 byte run holds. An odd number of bytes
/// holds none.
pub open spec fn decode_utf16_le(bytes: Seq<u8>) -> Option<Seq<char>> {
    if bytes.len() % 2 != 0 {
        None
    } else {
        decode_utf16(units_of(bytes))
    }
}

/// The code units of different characters differ, and the last unit tells how
/// many units the character has.
proof fn lemma_utf16_char(c: char)
    ensures
        utf16_char(c).len() == 1 || utf16_char(c).len() == 2,
        utf16_char(c).len() == 2 <==> 0xDC00 <= utf16_char(c).last() < 0xE000,
{
}

proof fn lemma_utf16_char_injective(c: char, d: char)
    requires
        utf16_char(c) == utf16_char(d),
    ensures
        c == d,
{
    lemma_utf16_char(c);
    lemma_utf16_char(d);
    if (c as u32) < 0x1_0000 {
        assert(utf16_char(c)[0] == utf16_char(d)[0]);
    } else {
        assert(utf16_char(c)[0] == utf16_char(d)[0]);
        assert(utf16_char(c)[1] == utf16_char(d)[1]);
        let m = c as u32 - 0x1_0000;
        let n = d as u32 - 0x1_0000;
        assert(m / 0x400 == n / 0x400 && m % 0x400 == n % 0x400);
    }
}

/// Different texts have different code units.
pub proof fn lemma_utf16_injective(a: Seq<char>, b: Seq<char>)
    requires
        utf16(a) == utf16(b),
    ensures
        a == b,
    decreases a.len(),
{
    if a.len() == 0 {
        if b.len() != 0 {
            lemma_utf16_char(b.last());
            assert(utf16(b).len() > 0);
        }
        assert(a =~= b);
    } else if b.len() == 0 {
        lemma_utf16_char(a.last());
        assert(utf16(a).len() > 0);
    } else {
        let u = utf16(a);
        let x = utf16_char(a.last());
        let y = utf16_char(b.last());
        lemma_utf16_char(a.last());
        lemma_utf16_char(b.last());
        assert(u.last() == x.last());
        assert(u.last() == y.last());
        assert(x.len() == y.len());
        let k = u.len() - x.len();
        assert(u.take(k) =~= utf16(a.drop_last()));
        assert(u.take(k) =~= utf16(b.drop_last()));
        assert(u.skip(k) =~= x);
        assert(u.skip(k) =~= y);
        lemma_utf16_char_injective(a.last(), b.last());
        lemma_utf16_injective(a.drop_last(), b.drop_last());
        assert(a =~= a.drop_last().push(a.last()));
        assert(b =~= b.drop_last().push(b.last()));
    }
}

/// Well-formed code units decode to the one text they encode.
pub proof fn lemma_decode_utf16(s: Seq<char>)
    ensures
        decode_utf16(utf16(s)) == Some(s),
{
    let t = choose|t: Seq<char>| utf16(t) == utf16(s);
    lemma_utf16_injective(s, t);
}

proof fn lemma_unit_bytes(units: Seq<u16>)
    ensures
        unit_bytes(units).len() == 2 * units.len(),
        units_of(unit_bytes(units)) == units,
    decreases units.len(),
{
    let bytes = unit_bytes(units);
    if units.len() != 0 {
        let front = units.drop_last();
        lemma_unit_bytes(front);
        lemma_le16(units.last());
        assert forall|i: int| 0 <= i < units.len() implies units_of(bytes)[i] == units[i] by {
            lemma_u16_at(bytes, 2 * i, units[i]);
            if i < front.len() {
                lemma_u16_at(unit_bytes(front), 2 * i, front[i]);
                assert(units_of(unit_bytes(front))[i] == front[i]);
                assert(bytes.subrange(2 * i, 2 * i + 2) =~= unit_bytes(front).subrange(
                    2 * i,
                    2 * i + 2,
                ));
            } else {
                assert(bytes.subrange(2 * i, 2 * i + 2) =~= le16(units.last()));
            }
        }
    }
    assert(units_of(bytes) =~= units);
}

/// A text written on the wire is read back unchanged, and takes an even number
/// of bytes.
pub proof fn law_utf16_round_trip(s: Seq<char>)
    ensures
        decode_utf16_le(utf16_le(s)) == Some(s),
        utf16_le(s).len() == 2 * utf16(s).len(),
{
    lemma_unit_bytes(utf16(s));
    lemma_decode_utf16(s);
}

/// Whether a code unit is the first half of a surrogate pair.
pub open spec fn is_high(unit: u16) -> bool {
    0xD800 <= unit < 0xDC00
}

/// Whether a code unit is the second half of a surrogate pair.
pub open spec fn is_low(unit: u16) -> bool {
    0xDC00 <= unit < 0xE000
}

/// The text of a run of code units, with U+FFFD for each unpaired surrogate.
pub open spec fn lossy_utf16(units: Seq<u16>) -> Seq<char>
    decreases units.len(),
{
    if units.len() == 0 {
        Seq::empty()
    } else if !is_high(units[0]) && !is_low(units[0]) {
        seq![units[0] as char] + lossy_utf16(units.skip(1))
    } else if is_high(units[0]) && units.len() >= 2 && is_low(units[1]) {
        seq![(0x1_0000 + (units[0] - 0xD800) * 0x400 + (units[1] - 0xDC00)) as char]
            + lossy_utf16(units.skip(2))
    } else {
        seq!['\u{FFFD}'] + lossy_utf16(units.skip(1))
    }
}

proof fn lemma_utf16_front(s: Seq<char>)
    requires
        s.len() > 0,
    ensures
        utf16(s) == utf16_char(s[0]) + utf16(s.skip(1)),
    decreases s.len(),
{
    if s.len() == 1 {
        assert(s.drop_last() =~= Seq::<char>::empty());
        assert(s.skip(1) =~= Seq::<char>::empty());
        assert(utf16(s) =~= utf16_char(s[0]) + utf16(s.skip(1)));
    } else {
        let front = s.drop_last();
        lemma_utf16_front(front);
        assert(front.skip(1) =~= s.skip(1).drop_last());
        assert(s.skip(1).last() == s.last());
        assert(utf16(s) =~= utf16_char(s[0]) + utf16(s.skip(1)));
    }
}

proof fn lemma_lossy_char(c: char, rest: Seq<u16>)
    ensures
        lossy_utf16(utf16_char(c) + rest) == seq![c] + lossy_utf16(rest),
{
    let units = utf16_char(c) + rest;
    if (c as u32) < 0x1_0000 {
        assert(units[0] == (c as u32) as u16);
        assert(units.skip(1) =~= rest);
        assert(units[0] as char == c);
    } else {
        let n = c as u32 - 0x1_0000;
        assert(0 <= n < 0x10_0000);
        assert(units[0] == (0xD800 + n / 0x400) as u16);
        assert(units[1] == (0xDC00 + n % 0x400) as u16);
        assert(units.skip(2) =~= rest);
        assert(0x1_0000 + (units[0] - 0xD800) * 0x400 + (units[1] - 0xDC00) == c as u32);
    }
}

/// Well-formed code units lose nothing: the text is the one they encode.
pub proof fn law_lossy_utf16_keeps_well_formed_text(s: Seq<char>)
    ensures
        lossy_utf16(utf16(s)) == s,
    decreases s.len(),
{
    if s.len() == 0 {
        assert(lossy_utf16(utf16(s)) =~= s);
    } else {
        lemma_utf16_front(s);
        lemma_lossy_char(s[0], utf16(s.skip(1)));
        law_lossy_utf16_keeps_well_formed_text(s.skip(1));
        assert(s =~= seq![s[0]] + s.skip(1));
    }
}

/// One ASCII capital letter folded to lower case; anything else unchanged.
pub open spec fn ascii_lower(c: char) -> char {
    if 'A' <= c && c <= 'Z' {
        (c as u32 + 32) as char
    } else {
        c
    }
}

/// A text with its ASCII capital letters folded to lower case.
pub open spec fn lowercase(s: Seq<char>) -> Seq<char> {
    Seq::new(s.len(), |i: int| ascii_lower(s[i]))
}

/// The longest suffix of `path` without a backslash.
pub open spec fn last_component_of(path: Seq<char>) -> Seq<char>
    decreases path.len(),
{
    if path.len() == 0 || path.last() == '\\' {
        Seq::empty()
    } else {
        last_component_of(path.drop_last()).push(path.last())
    }
}

/// Whether `c` separates path components: `/` always, `\` where the path
/// dialect uses it.
pub open spec fn is_separator(c: char, backslash: bool) -> bool {
    c == '/' || (backslash && c == '\\')
}

/// The pieces of `s` between separators: one more than there are separators.
pub open spec fn split(s: Seq<char>, backslash: bool) -> Seq<Seq<char>>
    decreases s.len(),
{
    if s.len() == 0 {
        seq![Seq::empty()]
    } else if is_separator(s.last(), backslash) {
        split(s.drop_last(), backslash).push(Seq::empty())
    } else {
        let front = split(s.drop_last(), backslash);
        front.drop_last().push(front.last().push(s.last()))
    }
}

/// No piece of a split text holds a separator.
pub proof fn lemma_split(s: Seq<char>, backslash: bool)
    ensures
        split(s, backslash).len() >= 1,
        forall|i: int, j: int|
            0 <= i < split(s, backslash).len() && 0 <= j < split(s, backslash)[i].len()
                ==> !is_separator(#[trigger] split(s, backslash)[i][j], backslash),
    decreases s.len(),
{
    if s.len() != 0 {
        lemma_split(s.drop_last(), backslash);
    }
}

/// `str::to_ascii_lowercase`: the text with the letters `A` to `Z` mapped to
/// `a` to `z` and every other character kept.
pub assume_specification[ str::to_ascii_lowercase ](s: &str) -> (r: String)
    ensures
        r@ == lowercase(s@),
;

/// `String::from_utf16`: the text whose UTF-16 encoding the code units are, or
/// `None` where they are the encoding of no text.
#[verifier::external_body]
fn string_from_utf16(units: &[u16]) -> (r: Option<String>)
    ensures
        match r {
            Some(s) => utf16(s@) == units@,
            None => forall|s: Seq<char>| utf16(s) != units@,
        },
{
    match String::from_utf16(units) {
        Ok(s) => Some(s),
        Err(_) => None,
    }
}

/// `String::from_utf16_lossy`: the text of the code units, with U+FFFD in place
/// of each surrogate that is not part of a pair.
#[verifier::external_body]
pub(crate) fn string_from_utf16_lossy(units: &[u16]) -> (r: String)
    ensures
        r@ == lossy_utf16(units@),
{
    String::from_utf16_lossy(units)
}

/// `String::from_iter` on a slice of characters: the text of those characters,
/// in order.
#[verifier::external_body]
fn string_from_chars(chars: &[char]) -> (r: String)
    ensures
        r@ == chars@,
{
    String::from_iter(chars)
}

/// The characters of a text.
pub fn chars_of(s: &str) -> (r: Vec<char>)
    ensures
        r@ == s@,
{
    let mut out: Vec<char> = Vec::new();
    for c in it: s.chars()
        invariant
            it.seq() == s@,
            out@ == s@.take(it.index() as int),
    {
        out.push(c);
    }
    assert(out@ =~= s@);
    out
}

/// Encodes a text as little-endian UTF-16.
pub fn encode_utf16_le(s: &str) -> (r: Vec<u8>)
    ensures
        r@ == utf16_le(s@),
{
    let chars = chars_of(s);
    let mut out: Vec<u8> = Vec::new();
    let mut i: usize = 0;
    assert(chars@.take(0) =~= Seq::<char>::empty());
    while i < chars.len()
        invariant
            0 <= i <= chars@.len(),
            out@ == unit_bytes(utf16(chars@.take(i as int))),
        decreases chars@.len() - i,
    {
        let c: char = chars[i];
        let code: u32 = c as u32;
        let ghost before = utf16(chars@.take(i as int));
        proof {
            assert(chars@.take(i + 1).drop_last() =~= chars@.take(i as int));
            assert(utf16(chars@.take(i + 1)) == before + utf16_char(c));
        }
        if code < 0x1_0000 {
            put_u16(&mut out, code as u16);
            proof {
                let after = before + utf16_char(c);
                assert(after.drop_last() =~= before);
                assert(after.last() == code as u16);
            }
        } else {
            let rest: u32 = code - 0x1_0000;
            let high: u16 = (0xD800 + rest / 0x400) as u16;
            let low: u16 = (0xDC00 + rest % 0x400) as u16;
            put_u16(&mut out, high);
            put_u16(&mut out, low);
            proof {
                let after = before + utf16_char(c);
                let middle = before + seq![high];
                assert(after.drop_last() =~= middle);
                assert(after.last() == low);
                assert(middle.drop_last() =~= before);
                assert(unit_bytes(middle) == unit_bytes(before) + le16(high));
            }
        }
        i = i + 1;
    }
    assert(chars@.take(i as int) =~= s@);
    out
}

/// Decodes a little-endian UTF-16 byte slice into a `String`.
pub fn utf16_to_string(bytes: &[u8]) -> (r: Option<String>)
    ensures
        match r {
            Some(s) => decode_utf16_le(bytes@) == Some(s@),
            None => decode_utf16_le(bytes@) is None,
        },
{
    if bytes.len() % 2 != 0 {
        return None;
    }
    let mut units: Vec<u16> = Vec::new();
    let count: usize = bytes.len() / 2;
    let mut i: usize = 0;
    while i < count
        invariant
            bytes@.len() == 2 * count,
            2 * count <= usize::MAX,
            0 <= i <= count,
            units@ =~= units_of(bytes@).take(i as int),
        decreases count - i,
    {
        units.push(get_u16(bytes, 2 * i));
        i = i + 1;
    }
    assert(units@ =~= units_of(bytes@));
    let r = string_from_utf16(units.as_slice());
    proof {
        if r is Some {
            lemma_decode_utf16(r->0@);
        }
    }
    r
}

/// The part of a path after its last backslash.
pub fn last_component(path: &str) -> (r: String)
    ensures
        r@ == last_component_of(path@),
{
    let chars = chars_of(path);
    let n: usize = chars.len();
    let mut k: usize = n;
    while k > 0 && chars[k - 1] != '\\'
        invariant
            n == chars@.len(),
            k <= n,
            forall|i: int| k <= i < n ==> chars@[i] != '\\',
        decreases k,
    {
        k = k - 1;
    }
    proof {
        lemma_last_component(chars@, k as int);
    }
    string_from_chars(vstd::slice::slice_subrange(chars.as_slice(), k, n))
}

proof fn lemma_last_component(path: Seq<char>, k: int)
    requires
        0 <= k <= path.len(),
        forall|i: int| k <= i < path.len() ==> path[i] != '\\',
        k == 0 || path[k - 1] == '\\',
    ensures
        last_component_of(path) == path.subrange(k, path.len() as int),
    decreases path.len(),
{
    if path.len() == k {
        assert(path.subrange(k, path.len() as int) =~= Seq::<char>::empty());
    } else {
        lemma_last_component(path.drop_last(), k);
        assert(path.subrange(k, path.len() as int) =~= path.drop_last().subrange(
            k,
            path.len() - 1,
        ).push(path.last()));
    }
}

/// The texts of a list of strings.
pub open spec fn views(parts: Seq<String>) -> Seq<Seq<char>> {
    Seq::new(parts.len(), |i: int| parts[i]@)
}

/// Splits a path at its separators.
pub fn split_path(path: &str, backslash: bool) -> (r: Vec<String>)
    ensures
        views(r@) == split(path@, backslash),
{
    let chars = chars_of(path);
    let mut parts: Vec<String> = Vec::new();
    let mut current: Vec<char> = Vec::new();
    let mut i: usize = 0;
    assert(chars@.take(0) =~= Seq::<char>::empty());
    assert(views(parts@).push(current@) =~= split(chars@.take(0), backslash));
    while i < chars.len()
        invariant
            0 <= i <= chars@.len(),
            views(parts@).push(current@) =~= split(chars@.take(i as int), backslash),
        decreases chars@.len() - i,
    {
        let c: char = chars[i];
        let ghost done = views(parts@);
        proof {
            assert(chars@.take(i + 1).drop_last() =~= chars@.take(i as int));
        }
        if c == '/' || (backslash && c == '\\') {
            let part = string_from_chars(current.as_slice());
            parts.push(part);
            assert(views(parts@) =~= done.push(part@));
            current = Vec::new();
            assert(current@ =~= Seq::<char>::empty());
        } else {
            current.push(c);
            assert(done.push(current@.drop_last()).drop_last() =~= done);
        }
        i = i + 1;
    }
    let part = string_from_chars(current.as_slice());
    let ghost done = views(parts@);
    parts.push(part);
    assert(views(parts@) =~= done.push(part@));
    assert(chars@.take(i as int) =~= path@);
    parts
}

} // verus!
