//! Fixed-layout little-endian records.
//!
//! Integer fields are moved in and out of byte buffers by `zerocopy`'s
//! little-endian integer types; everything above that (the order of the
//! fields, their offsets, the record sizes) is stated and proved here.

use vstd::prelude::*;
use vstd::slice::slice_subrange;
use zerocopy::little_endian::{U16, U32, U64};
use zerocopy::{FromBytes, IntoBytes};

verus! {

/// The two little-endian bytes of `v`.
#[verifier::opaque]
pub open spec fn le16(v: u16) -> Seq<u8> {
    seq![(v % 256) as u8, (v / 256) as u8]
}

/// The four little-endian bytes of `v`.
#[verifier::opaque]
pub open spec fn le32(v: u32) -> Seq<u8> {
    seq![
        (v % 256) as u8,
        (v / 256 % 256) as u8,
        (v / 65536 % 256) as u8,
        (v / 16777216) as u8,
    ]
}

/// The eight little-endian bytes of `v`.
pub open spec fn le64(v: u64) -> Seq<u8> {
    le32((v % 0x1_0000_0000) as u32) + le32((v / 0x1_0000_0000) as u32)
}

/// The little-endian `u16` whose first byte is `s[i]`.
#[verifier::opaque]
pub open spec fn u16_at(s: Seq<u8>, i: int) -> u16 {
    (s[i] + 256 * s[i + 1]) as u16
}

/// The little-endian `u32` whose first byte is `s[i]`.
#[verifier::opaque]
pub open spec fn u32_at(s: Seq<u8>, i: int) -> u32 {
    (s[i] + 256 * s[i + 1] + 65536 * s[i + 2] + 16777216 * s[i + 3]) as u32
}

/// The little-endian `u64` whose first byte is `s[i]`.
pub open spec fn u64_at(s: Seq<u8>, i: int) -> u64 {
    (u32_at(s, i) + 0x1_0000_0000 * u32_at(s, i + 4)) as u64
}

/// The low 32 bits of a length, as the wire's 32-bit length fields carry it.
pub open spec fn low32(n: int) -> u32 {
    (n % 0x1_0000_0000) as u32
}

pub proof fn lemma_le16(v: u16)
    ensures
        le16(v).len() == 2,
        u16_at(le16(v), 0) == v,
{
    reveal(le16);
    reveal(u16_at);
}

pub proof fn lemma_le32(v: u32)
    ensures
        le32(v).len() == 4,
        u32_at(le32(v), 0) == v,
{
    reveal(le32);
    reveal(u32_at);
}

pub proof fn lemma_le64(v: u64)
    ensures
        le64(v).len() == 8,
        u64_at(le64(v), 0) == v,
{
    let lo = (v % 0x1_0000_0000) as u32;
    let hi = (v / 0x1_0000_0000) as u32;
    lemma_le32(lo);
    lemma_le32(hi);
    lemma_u32_at_subrange(le64(v), 0);
    lemma_u32_at_subrange(le64(v), 4);
    assert(le64(v).subrange(0, 4) =~= le32(lo));
    assert(le64(v).subrange(4, 8) =~= le32(hi));
}

pub proof fn lemma_u32_at_subrange(s: Seq<u8>, i: int)
    requires
        0 <= i,
        i + 4 <= s.len(),
    ensures
        u32_at(s, i) == u32_at(s.subrange(i, i + 4), 0),
{
    reveal(u32_at);
}

/// Reading two bytes gives `v` exactly when they are the bytes of `v`.
pub proof fn lemma_u16_at(s: Seq<u8>, i: int, v: u16)
    requires
        0 <= i,
        i + 2 <= s.len(),
    ensures
        u16_at(s, i) == v <==> s.subrange(i, i + 2) == le16(v),
{
    reveal(le16);
    reveal(u16_at);
    if u16_at(s, i) == v {
        assert(s.subrange(i, i + 2) =~= le16(v));
    } else if s.subrange(i, i + 2) == le16(v) {
        assert(s[i] == s.subrange(i, i + 2)[0]);
        assert(s[i + 1] == s.subrange(i, i + 2)[1]);
    }
}

/// The base-256 digits of a four-byte number.
proof fn lemma_digits(a: int, b: int, c: int, d: int)
    requires
        0 <= a < 256,
        0 <= b < 256,
        0 <= c < 256,
        0 <= d < 256,
    ensures
        ({
            let n = a + 256 * b + 65536 * c + 16777216 * d;
            &&& n % 256 == a
            &&& n / 256 % 256 == b
            &&& n / 65536 % 256 == c
            &&& n / 16777216 == d
        }),
{
    let n = a + 256 * b + 65536 * c + 16777216 * d;
    assert(n / 256 == b + 256 * c + 65536 * d);
    assert(n / 65536 == c + 256 * d);
    assert(n / 16777216 == d);
}

/// A four-byte number is made of its base-256 digits.
proof fn lemma_from_digits(n: int)
    requires
        0 <= n < 0x1_0000_0000,
    ensures
        n == n % 256 + 256 * (n / 256 % 256) + 65536 * (n / 65536 % 256) + 16777216 * (n
            / 16777216),
{
    assert(n / 65536 == n / 256 / 256);
    assert(n / 16777216 == n / 65536 / 256);
}

/// Reading four bytes gives `v` exactly when they are the bytes of `v`.
pub proof fn lemma_u32_at(s: Seq<u8>, i: int, v: u32)
    requires
        0 <= i,
        i + 4 <= s.len(),
    ensures
        u32_at(s, i) == v <==> s.subrange(i, i + 4) == le32(v),
{
    reveal(le32);
    reveal(u32_at);
    let t = s.subrange(i, i + 4);
    let n = s[i] + 256 * s[i + 1] + 65536 * s[i + 2] + 16777216 * s[i + 3];
    assert(0 <= n < 0x1_0000_0000);
    assert(t[0] == s[i] && t[1] == s[i + 1] && t[2] == s[i + 2] && t[3] == s[i + 3]);
    if u32_at(s, i) == v {
        lemma_digits(s[i] as int, s[i + 1] as int, s[i + 2] as int, s[i + 3] as int);
        assert(t =~= le32(v));
    } else if t == le32(v) {
        lemma_from_digits(v as int);
        assert(n == v);
    }
}

/// Reading eight bytes gives `v` exactly when they are the bytes of `v`.
pub proof fn lemma_u64_at(s: Seq<u8>, i: int, v: u64)
    requires
        0 <= i,
        i + 8 <= s.len(),
    ensures
        u64_at(s, i) == v <==> s.subrange(i, i + 8) == le64(v),
{
    let lo = (v % 0x1_0000_0000) as u32;
    let hi = (v / 0x1_0000_0000) as u32;
    lemma_le32(lo);
    lemma_le32(hi);
    lemma_u32_at(s, i, lo);
    lemma_u32_at(s, i + 4, hi);
    if u64_at(s, i) == v {
        assert(s.subrange(i, i + 8) =~= s.subrange(i, i + 4) + s.subrange(i + 4, i + 8));
    } else if s.subrange(i, i + 8) == le64(v) {
        assert(s.subrange(i, i + 4) =~= s.subrange(i, i + 8).subrange(0, 4));
        assert(s.subrange(i + 4, i + 8) =~= s.subrange(i, i + 8).subrange(4, 8));
        assert(le64(v).subrange(0, 4) =~= le32(lo));
        assert(le64(v).subrange(4, 8) =~= le32(hi));
    }
}

/// `s` starts with `head + piece` exactly when it starts with `head` and goes
/// on with `piece`.
pub proof fn lemma_extend(s: Seq<u8>, head: Seq<u8>, piece: Seq<u8>)
    requires
        head.len() + piece.len() <= s.len(),
    ensures
        s.take((head.len() + piece.len()) as int) == head + piece <==> s.take(head.len() as int)
            == head && s.subrange(head.len() as int, (head.len() + piece.len()) as int) == piece,
{
    let n = head.len() as int;
    let m = (head.len() + piece.len()) as int;
    if s.take(m) == head + piece {
        assert(s.take(n) =~= s.take(m).take(n));
        assert((head + piece).take(n) =~= head);
        assert(s.subrange(n, m) =~= s.take(m).subrange(n, m));
        assert((head + piece).subrange(n, m) =~= piece);
    } else if s.take(n) == head && s.subrange(n, m) == piece {
        assert(s.take(m) =~= s.take(n) + s.subrange(n, m));
    }
}

/// One `u16` field of a record laid out after `head`.
pub proof fn lemma_field16(s: Seq<u8>, head: Seq<u8>, v: u16)
    requires
        head.len() + 2 <= s.len(),
    ensures
        (head + le16(v)).len() == head.len() + 2,
        s.take((head.len() + 2) as int) == head + le16(v) <==> s.take(head.len() as int) == head && u16_at(
            s,
            head.len() as int,
        ) == v,
{
    lemma_le16(v);
    lemma_u16_at(s, head.len() as int, v);
    lemma_extend(s, head, le16(v));
}

/// One `u32` field of a record laid out after `head`.
pub proof fn lemma_field32(s: Seq<u8>, head: Seq<u8>, v: u32)
    requires
        head.len() + 4 <= s.len(),
    ensures
        (head + le32(v)).len() == head.len() + 4,
        s.take((head.len() + 4) as int) == head + le32(v) <==> s.take(head.len() as int) == head && u32_at(
            s,
            head.len() as int,
        ) == v,
{
    lemma_le32(v);
    lemma_u32_at(s, head.len() as int, v);
    lemma_extend(s, head, le32(v));
}

/// One `u64` field of a record laid out after `head`.
pub proof fn lemma_field64(s: Seq<u8>, head: Seq<u8>, v: u64)
    requires
        head.len() + 8 <= s.len(),
    ensures
        (head + le64(v)).len() == head.len() + 8,
        s.take((head.len() + 8) as int) == head + le64(v) <==> s.take(head.len() as int) == head && u64_at(
            s,
            head.len() as int,
        ) == v,
{
    lemma_le64(v);
    lemma_u64_at(s, head.len() as int, v);
    lemma_extend(s, head, le64(v));
}

/// One single-byte field of a record laid out after `head`.
pub proof fn lemma_field8(s: Seq<u8>, head: Seq<u8>, v: u8)
    requires
        head.len() + 1 <= s.len(),
    ensures
        (head + seq![v]).len() == head.len() + 1,
        s.take((head.len() + 1) as int) == head + seq![v] <==> s.take(head.len() as int) == head
            && s[head.len() as int] == v,
{
    lemma_extend(s, head, seq![v]);
    if s[head.len() as int] == v {
        assert(s.subrange(head.len() as int, (head.len() + 1) as int) =~= seq![v]);
    } else if s.subrange(head.len() as int, (head.len() + 1) as int) == seq![v] {
        assert(s.subrange(head.len() as int, (head.len() + 1) as int)[0] == v);
    }
}

/// One byte-array field of a record laid out after `head`.
pub proof fn lemma_field_bytes(s: Seq<u8>, head: Seq<u8>, v: Seq<u8>)
    requires
        head.len() + v.len() <= s.len(),
    ensures
        (head + v).len() == head.len() + v.len(),
        s.take((head.len() + v.len()) as int) == head + v <==> s.take(head.len() as int) == head
            && s.subrange(head.len() as int, (head.len() + v.len()) as int) == v,
{
    lemma_extend(s, head, v);
}

/// Arrays with the same elements are the same array.
pub proof fn lemma_array16(a: [u8; 16], b: [u8; 16])
    requires
        a@ == b@,
    ensures
        a == b,
{
    assert forall|i: int| 0 <= i < 16 implies a[i] == b[i] by {
        assert(a@[i] == b@[i]);
    }
    assert(a =~= b);
}

/// Arrays with the same elements are the same array.
pub proof fn lemma_array4(a: [u8; 4], b: [u8; 4])
    requires
        a@ == b@,
    ensures
        a == b,
{
    assert forall|i: int| 0 <= i < 4 implies a[i] == b[i] by {
        assert(a@[i] == b@[i]);
    }
    assert(a =~= b);
}

/// The array of sixteen bytes.
pub open spec fn array16_of(s: Seq<u8>) -> [u8; 16] {
    [
        s[0],
        s[1],
        s[2],
        s[3],
        s[4],
        s[5],
        s[6],
        s[7],
        s[8],
        s[9],
        s[10],
        s[11],
        s[12],
        s[13],
        s[14],
        s[15],
    ]
}

pub proof fn lemma_array16_of(s: Seq<u8>)
    requires
        s.len() == 16,
    ensures
        array16_of(s)@ == s,
{
    assert(array16_of(s)@ =~= s);
}

/// The array of four bytes.
pub open spec fn array4_of(s: Seq<u8>) -> [u8; 4] {
    [s[0], s[1], s[2], s[3]]
}

pub proof fn lemma_array4_of(s: Seq<u8>)
    requires
        s.len() == 4,
    ensures
        array4_of(s)@ == s,
{
    assert(array4_of(s)@ =~= s);
}

/// A record with a fixed wire layout.
pub trait Wire: Sized {
    /// The size of the record on the wire, in bytes.
    spec fn wire_len() -> nat;

    /// The wire form of the record.
    spec fn wire_bytes(&self) -> Seq<u8>;

    /// Whether each field of the record is what `s` holds at that field's
    /// offset.
    spec fn is_at(&self, s: Seq<u8>) -> bool;

    /// The two descriptions of the layout agree: a buffer holds the fields at
    /// their offsets exactly when it starts with the wire form.
    proof fn lemma_layout(&self, s: Seq<u8>)
        requires
            s.len() >= Self::wire_len(),
        ensures
            self.wire_bytes().len() == Self::wire_len(),
            self.is_at(s) <==> s.take(Self::wire_len() as int) == self.wire_bytes(),
    ;

    /// A buffer holds at most one record.
    proof fn lemma_unique(&self, other: &Self, s: Seq<u8>)
        requires
            self.is_at(s),
            other.is_at(s),
        ensures
            *self == *other,
    ;

    /// A long enough buffer holds a record.
    proof fn lemma_readable(s: Seq<u8>)
        requires
            s.len() >= Self::wire_len(),
        ensures
            exists|v: Self| #[trigger] v.is_at(s),
    ;

    /// Reads a record from the front of `source`, returning it and what
    /// follows it, or `None` if `source` is too short.
    fn read_from_prefix(source: &[u8]) -> (r: Option<(Self, &[u8])>)
        ensures
            r is Some <==> source@.len() >= Self::wire_len(),
            r matches Some((v, rest)) ==> v.is_at(source@) && rest@ == source@.skip(
                Self::wire_len() as int,
            ),
    ;

    /// The wire form of the record.
    fn as_bytes(&self) -> (r: Vec<u8>)
        ensures
            r@ == self.wire_bytes(),
    ;
}

/// The record at the front of `s`.
pub open spec fn record_at<T: Wire>(s: Seq<u8>) -> T {
    choose|v: T| v.is_at(s)
}

/// The record at the front of `s` is the only one whose fields `s` holds.
pub proof fn lemma_record_at<T: Wire>(v: T, s: Seq<u8>)
    requires
        v.is_at(s),
    ensures
        record_at::<T>(s) == v,
{
    record_at::<T>(s).lemma_unique(&v, s);
}

/// Every long enough buffer starts with a record, whatever it holds.
pub proof fn law_every_buffer_is_readable<T: Wire>(s: Seq<u8>)
    requires
        s.len() >= T::wire_len(),
    ensures
        record_at::<T>(s).is_at(s),
        record_at::<T>(s).wire_bytes() == s.take(T::wire_len() as int),
{
    T::lemma_readable(s);
    record_at::<T>(s).lemma_layout(s);
}

/// What a record's wire form is read back as: a buffer that starts with the
/// wire form of `v` holds `v` and no other record.
pub proof fn law_write_then_read<T: Wire>(v: T, w: T, rest: Seq<u8>)
    ensures
        v.is_at(v.wire_bytes() + rest),
        w.is_at(v.wire_bytes() + rest) ==> w == v,
{
    v.lemma_layout(Seq::new(T::wire_len(), |i: int| 0u8));
    let s = v.wire_bytes() + rest;
    assert(s.take(T::wire_len() as int) =~= v.wire_bytes());
    v.lemma_layout(s);
    if w.is_at(s) {
        v.lemma_unique(&w, s);
    }
}

/// What a record that was read is written as: the bytes it was read from.
pub proof fn law_read_then_write<T: Wire>(v: T, s: Seq<u8>)
    requires
        s.len() >= T::wire_len(),
        v.is_at(s),
    ensures
        v.wire_bytes() == s.take(T::wire_len() as int),
{
    v.lemma_layout(s);
}

/// What little-endian means: the least significant byte first.
pub proof fn law_little_endian(s: Seq<u8>, i: int, v16: u16, v32: u32, v64: u64)
    requires
        0 <= i,
        i + 8 <= s.len(),
    ensures
        u16_at(s, i) == s[i] + 0x100 * s[i + 1],
        u32_at(s, i) == s[i] + 0x100 * s[i + 1] + 0x1_0000 * s[i + 2] + 0x100_0000 * s[i + 3],
        u64_at(s, i) == u32_at(s, i) + 0x1_0000_0000 * u32_at(s, i + 4),
        le16(v16).len() == 2 && le16(v16)[0] == v16 % 0x100 && le16(v16)[1] == v16 / 0x100,
        le32(v32).len() == 4 && le32(v32)[0] == v32 % 0x100 && le32(v32)[1] == v32 / 0x100 % 0x100,
        le32(v32)[2] == v32 / 0x1_0000 % 0x100 && le32(v32)[3] == v32 / 0x100_0000,
        le64(v64).len() == 8,
        le64(v64).take(4) == le32((v64 % 0x1_0000_0000) as u32),
        le64(v64).skip(4) == le32((v64 / 0x1_0000_0000) as u32),
{
    reveal(u16_at);
    reveal(u32_at);
    reveal(le16);
    reveal(le32);
    assert(le64(v64).take(4) =~= le32((v64 % 0x1_0000_0000) as u32));
    assert(le64(v64).skip(4) =~= le32((v64 / 0x1_0000_0000) as u32));
}

/// Reads a little-endian `u16` through `zerocopy`'s
/// `U16::<LittleEndian>::read_from_prefix` and `get`: the value of the first
/// two bytes, or `None` if there are fewer.
#[verifier::external_body]
fn read_u16(source: &[u8]) -> (r: Option<u16>)
    ensures
        r == (if source@.len() >= 2 {
            Some(u16_at(source@, 0))
        } else {
            None
        }),
{
    match U16::read_from_prefix(source) {
        Ok((v, _)) => Some(v.get()),
        Err(_) => None,
    }
}

/// Reads a little-endian `u32` through `zerocopy`'s
/// `U32::<LittleEndian>::read_from_prefix` and `get`: the value of the first
/// four bytes, or `None` if there are fewer.
#[verifier::external_body]
fn read_u32(source: &[u8]) -> (r: Option<u32>)
    ensures
        r == (if source@.len() >= 4 {
            Some(u32_at(source@, 0))
        } else {
            None
        }),
{
    match U32::read_from_prefix(source) {
        Ok((v, _)) => Some(v.get()),
        Err(_) => None,
    }
}

/// Reads a little-endian `u64` through `zerocopy`'s
/// `U64::<LittleEndian>::read_from_prefix` and `get`: the value of the first
/// eight bytes, or `None` if there are fewer.
#[verifier::external_body]
fn read_u64(source: &[u8]) -> (r: Option<u64>)
    ensures
        r == (if source@.len() >= 8 {
            Some(u64_at(source@, 0))
        } else {
            None
        }),
{
    match U64::read_from_prefix(source) {
        Ok((v, _)) => Some(v.get()),
        Err(_) => None,
    }
}

/// Copies sixteen bytes through `zerocopy`'s `<[u8; 16]>::read_from_prefix`:
/// the first sixteen bytes in order, or `None` if there are fewer.
#[verifier::external_body]
fn read_array16(source: &[u8]) -> (r: Option<[u8; 16]>)
    ensures
        r is Some <==> source@.len() >= 16,
        r matches Some(a) ==> a@ == source@.take(16),
{
    match <[u8; 16]>::read_from_prefix(source) {
        Ok((v, _)) => Some(v),
        Err(_) => None,
    }
}

/// Copies four bytes through `zerocopy`'s `<[u8; 4]>::read_from_prefix`: the
/// first four bytes in order, or `None` if there are fewer.
#[verifier::external_body]
fn read_array4(source: &[u8]) -> (r: Option<[u8; 4]>)
    ensures
        r is Some <==> source@.len() >= 4,
        r matches Some(a) ==> a@ == source@.take(4),
{
    match <[u8; 4]>::read_from_prefix(source) {
        Ok((v, _)) => Some(v),
        Err(_) => None,
    }
}

/// The bytes of `zerocopy`'s little-endian `U16::new(v)`, taken with
/// `IntoBytes::as_bytes`: least significant first.
#[verifier::external_body]
fn bytes_of_u16(v: u16) -> (r: Vec<u8>)
    ensures
        r@ == le16(v),
{
    U16::new(v).as_bytes().to_vec()
}

/// The bytes of `zerocopy`'s little-endian `U32::new(v)`, taken with
/// `IntoBytes::as_bytes`: least significant first.
#[verifier::external_body]
fn bytes_of_u32(v: u32) -> (r: Vec<u8>)
    ensures
        r@ == le32(v),
{
    U32::new(v).as_bytes().to_vec()
}

/// The bytes of `zerocopy`'s little-endian `U64::new(v)`, taken with
/// `IntoBytes::as_bytes`: least significant first.
#[verifier::external_body]
fn bytes_of_u64(v: u64) -> (r: Vec<u8>)
    ensures
        r@ == le64(v),
{
    U64::new(v).as_bytes().to_vec()
}

/// The `u16` field at `off`.
pub fn get_u16(s: &[u8], off: usize) -> (r: u16)
    requires
        off + 2 <= s@.len(),
    ensures
        r == u16_at(s@, off as int),
{
    let tail = slice_subrange(s, off, s.len());
    proof {
        reveal(u16_at);
    }
    match read_u16(tail) {
        Some(v) => v,
        None => 0,
    }
}

/// The `u32` field at `off`.
pub fn get_u32(s: &[u8], off: usize) -> (r: u32)
    requires
        off + 4 <= s@.len(),
    ensures
        r == u32_at(s@, off as int),
{
    let tail = slice_subrange(s, off, s.len());
    proof {
        reveal(u32_at);
    }
    match read_u32(tail) {
        Some(v) => v,
        None => 0,
    }
}

/// The `u64` field at `off`.
pub fn get_u64(s: &[u8], off: usize) -> (r: u64)
    requires
        off + 8 <= s@.len(),
    ensures
        r == u64_at(s@, off as int),
{
    let tail = slice_subrange(s, off, s.len());
    proof {
        reveal(u32_at);
    }
    match read_u64(tail) {
        Some(v) => v,
        None => 0,
    }
}

/// The sixteen-byte field at `off`.
pub fn get_array16(s: &[u8], off: usize) -> (r: [u8; 16])
    requires
        off + 16 <= s@.len(),
    ensures
        r@ == s@.subrange(off as int, off + 16),
{
    let tail = slice_subrange(s, off, s.len());
    proof {
        assert(tail@.take(16) =~= s@.subrange(off as int, off + 16));
    }
    match read_array16(tail) {
        Some(v) => v,
        None => [0;16],
    }
}

/// The four-byte field at `off`.
pub fn get_array4(s: &[u8], off: usize) -> (r: [u8; 4])
    requires
        off + 4 <= s@.len(),
    ensures
        r@ == s@.subrange(off as int, off + 4),
{
    let tail = slice_subrange(s, off, s.len());
    proof {
        assert(tail@.take(4) =~= s@.subrange(off as int, off + 4));
    }
    match read_array4(tail) {
        Some(v) => v,
        None => [0;4],
    }
}

/// Appends `bytes`.
pub fn put_bytes(out: &mut Vec<u8>, bytes: &[u8])
    ensures
        final(out)@ == old(out)@ + bytes@,
{
    out.extend_from_slice(bytes);
    assert(out@ =~= old(out)@ + bytes@);
}

/// Appends one byte.
pub fn put_u8(out: &mut Vec<u8>, v: u8)
    ensures
        final(out)@ == old(out)@ + seq![v],
{
    out.push(v);
    assert(out@ =~= old(out)@ + seq![v]);
}

/// Appends a little-endian `u16`.
pub fn put_u16(out: &mut Vec<u8>, v: u16)
    ensures
        final(out)@ == old(out)@ + le16(v),
{
    let bytes = bytes_of_u16(v);
    put_bytes(out, bytes.as_slice());
}

/// Appends a little-endian `u32`.
pub fn put_u32(out: &mut Vec<u8>, v: u32)
    ensures
        final(out)@ == old(out)@ + le32(v),
{
    let bytes = bytes_of_u32(v);
    put_bytes(out, bytes.as_slice());
}

/// Appends a little-endian `u64`.
pub fn put_u64(out: &mut Vec<u8>, v: u64)
    ensures
        final(out)@ == old(out)@ + le64(v),
{
    let bytes = bytes_of_u64(v);
    put_bytes(out, bytes.as_slice());
}

/// The low 32 bits of `n`.
pub fn len_u32(n: usize) -> (r: u32)
    ensures
        r == low32(n as int),
{
    let wide: u64 = n as u64;
    assert(wide as u32 == wide % 0x1_0000_0000) by (bit_vector);
    wide as u32
}

} // verus!
