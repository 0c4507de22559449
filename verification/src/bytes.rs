//! Little-endian integer encoding, the way `byteorder` lays out integers in
//! guest memory, and the lossy UTF-8 decoding of byte strings.
use vstd::prelude::*;
use byteorder::{ByteOrder, LittleEndian};

verus! {

/// The four little-endian bytes of `x`.
pub open spec fn le_u32(x: u32) -> Seq<u8> {
    seq![
        (x & 0xff) as u8,
        ((x >> 8) & 0xff) as u8,
        ((x >> 16) & 0xff) as u8,
        ((x >> 24) & 0xff) as u8,
    ]
}

/// The eight little-endian bytes of `x`.
pub open spec fn le_u64(x: u64) -> Seq<u8> {
    le_u32((x & 0xffff_ffff) as u32) + le_u32((x >> 32) as u32)
}

/// The little-endian `u32` held by the first four bytes of `b`.
pub open spec fn read_le_u32(b: Seq<u8>) -> u32 {
    (b[0] as u32) | ((b[1] as u32) << 8) | ((b[2] as u32) << 16) | ((b[3] as u32) << 24)
}

/// The little-endian `u64` held by the first eight bytes of `b`.
pub open spec fn read_le_u64(b: Seq<u8>) -> u64 {
    (read_le_u32(b) as u64) | ((read_le_u32(b.subrange(4, 8)) as u64) << 32)
}

/// The little-endian bytes of a sequence of `i32`s, one after the other.
pub open spec fn le_i32s(s: Seq<i32>) -> Seq<u8>
    decreases s.len(),
{
    if s.len() == 0 {
        Seq::empty()
    } else {
        le_i32s(s.drop_last()) + le_u32(s.last() as u32)
    }
}

/// What `String::from_utf8_lossy` makes of a byte string.
pub uninterp spec fn utf8_lossy(bytes: Seq<u8>) -> Seq<char>;

pub proof fn lemma_u32_roundtrip(x: u32)
    ensures
        read_le_u32(le_u32(x)) == x,
        le_u32(x).len() == 4,
{
    let b0 = (x & 0xff) as u8;
    let b1 = ((x >> 8) & 0xff) as u8;
    let b2 = ((x >> 16) & 0xff) as u8;
    let b3 = ((x >> 24) & 0xff) as u8;
    assert(((b0 as u32) | ((b1 as u32) << 8) | ((b2 as u32) << 16) | ((b3 as u32) << 24)) == x)
        by (bit_vector)
        requires
            b0 == (x & 0xff) as u8,
            b1 == ((x >> 8) & 0xff) as u8,
            b2 == ((x >> 16) & 0xff) as u8,
            b3 == ((x >> 24) & 0xff) as u8,
    ;
}

pub proof fn lemma_u64_roundtrip(x: u64)
    ensures
        read_le_u64(le_u64(x)) == x,
        le_u64(x).len() == 8,
{
    let lo = (x & 0xffff_ffff) as u32;
    let hi = (x >> 32) as u32;
    lemma_u32_roundtrip(lo);
    lemma_u32_roundtrip(hi);
    let b = le_u64(x);
    assert(b.subrange(4, 8) =~= le_u32(hi));
    assert(read_le_u32(b) == read_le_u32(le_u32(lo)));
    assert(((lo as u64) | ((hi as u64) << 32)) == x) by (bit_vector)
        requires
            lo == (x & 0xffff_ffff) as u32,
            hi == (x >> 32) as u32,
    ;
}

/// Reading only looks at the leading bytes.
pub proof fn lemma_read_le_u32_prefix(a: Seq<u8>, b: Seq<u8>)
    requires
        a.len() >= 4,
        b.len() >= 4,
        a.subrange(0, 4) == b.subrange(0, 4),
    ensures
        read_le_u32(a) == read_le_u32(b),
{
    assert(a[0] == a.subrange(0, 4)[0]);
    assert(a[1] == a.subrange(0, 4)[1]);
    assert(a[2] == a.subrange(0, 4)[2]);
    assert(a[3] == a.subrange(0, 4)[3]);
    assert(b[0] == b.subrange(0, 4)[0]);
    assert(b[1] == b.subrange(0, 4)[1]);
    assert(b[2] == b.subrange(0, 4)[2]);
    assert(b[3] == b.subrange(0, 4)[3]);
}

/// `LittleEndian::read_u32`: the little-endian value of the first four bytes.
#[verifier::external_body]
pub(crate) fn read_u32(buf: &[u8]) -> (r: u32)
    requires
        buf@.len() >= 4,
    ensures
        r == read_le_u32(buf@),
{
    LittleEndian::read_u32(buf)
}

/// `LittleEndian::read_i32`: the first four bytes read as a little-endian `i32`.
#[verifier::external_body]
pub(crate) fn read_i32(buf: &[u8]) -> (r: i32)
    requires
        buf@.len() >= 4,
    ensures
        r == read_le_u32(buf@) as i32,
{
    LittleEndian::read_i32(buf)
}

/// `LittleEndian::read_u64`: the little-endian value of the first eight bytes.
#[verifier::external_body]
pub(crate) fn read_u64(buf: &[u8]) -> (r: u64)
    requires
        buf@.len() >= 8,
    ensures
        r == read_le_u64(buf@),
{
    LittleEndian::read_u64(buf)
}

/// `LittleEndian::read_i64`: the first eight bytes read as a little-endian `i64`.
#[verifier::external_body]
pub(crate) fn read_i64(buf: &[u8]) -> (r: i64)
    requires
        buf@.len() >= 8,
    ensures
        r == read_le_u64(buf@) as i64,
{
    LittleEndian::read_i64(buf)
}

/// `LittleEndian::write_u32` into a fresh four-byte buffer.
#[verifier::external_body]
pub(crate) fn write_u32(n: u32) -> (r: Vec<u8>)
    ensures
        r@ == le_u32(n),
{
    let mut buf = vec![0u8; 4];
    LittleEndian::write_u32(&mut buf, n);
    buf
}

/// `LittleEndian::write_u64` into a fresh eight-byte buffer.
#[verifier::external_body]
pub(crate) fn write_u64(n: u64) -> (r: Vec<u8>)
    ensures
        r@ == le_u64(n),
{
    let mut buf = vec![0u8; 8];
    LittleEndian::write_u64(&mut buf, n);
    buf
}

/// `LittleEndian::write_i32_into`: the integers of `src` one after the other,
/// four little-endian bytes each, written over `dst`.
#[verifier::external_body]
pub(crate) fn write_i32_into(src: &[i32], dst: &mut [u8])
    requires
        old(dst)@.len() == src@.len() * 4,
    ensures
        final(dst)@ == le_i32s(src@),
{
    LittleEndian::write_i32_into(src, dst);
}

/// `String::from_utf8_lossy`: the bytes decoded as UTF-8, with invalid sequences
/// replaced. On valid UTF-8 the result is the plain decoding; what it gives on
/// invalid input is left to the name `utf8_lossy`.
#[verifier::external_body]
pub(crate) fn from_utf8_lossy(bytes: &[u8]) -> (s: String)
    ensures
        s@ == utf8_lossy(bytes@),
        vstd::utf8::valid_utf8(bytes@) ==> s@ == vstd::utf8::decode_utf8(bytes@),
{
    String::from_utf8_lossy(bytes).into_owned()
}

} // verus!
