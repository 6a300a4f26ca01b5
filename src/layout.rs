//! Little-endian fields at fixed byte offsets of a record.
//!
//! On-disk records are kept as plain byte sequences; every multi-byte field is
//! read and written one byte at a time, so no field ever needs to be aligned.
use vstd::prelude::*;

verus! {

/// The value of the little-endian `u16` stored at `off`.
pub open spec fn le16(s: Seq<u8>, off: int) -> int {
    s[off] as int + 256 * (s[off + 1] as int)
}

/// The value of the little-endian `u32` stored at `off`.
pub open spec fn le32(s: Seq<u8>, off: int) -> int {
    le16(s, off) + 65536 * le16(s, off + 2)
}

/// The value of the little-endian `u64` stored at `off`.
pub open spec fn le64(s: Seq<u8>, off: int) -> int {
    le32(s, off) + 4294967296 * le32(s, off + 4)
}

/// The four little-endian bytes of `v`.
pub open spec fn le32_bytes(v: u32) -> Seq<u8> {
    seq![
        (v % 256) as u8,
        ((v / 256) % 256) as u8,
        ((v / 65536) % 256) as u8,
        ((v / 16777216) % 256) as u8,
    ]
}

/// The two little-endian bytes of `v`.
pub open spec fn le16_bytes(v: u16) -> Seq<u8> {
    seq![(v % 256) as u8, ((v / 256) % 256) as u8]
}

/// `s` with the bytes from `off` on replaced by `b`.
pub open spec fn splice(s: Seq<u8>, off: int, b: Seq<u8>) -> Seq<u8> {
    s.subrange(0, off) + b + s.subrange(off + b.len(), s.len() as int)
}

pub proof fn lemma_le32_bytes(v: u32)
    ensures
        le32(le32_bytes(v), 0) == v,
{
    let b = le32_bytes(v);
    assert(b[0] as int == v % 256);
    assert(le32(b, 0) == v) by (nonlinear_arith)
        requires
            b[0] as int == v % 256,
            b[1] as int == (v / 256) % 256,
            b[2] as int == (v / 65536) % 256,
            b[3] as int == (v / 16777216) % 256,
            0 <= v < 4294967296,
            le32(b, 0) == b[0] as int + 256 * (b[1] as int) + 65536 * (b[2] as int + 256
                * (b[3] as int)),
    ;
}

pub proof fn lemma_le16_bytes(v: u16)
    ensures
        le16(le16_bytes(v), 0) == v,
{
    let b = le16_bytes(v);
    assert(le16(b, 0) == v) by (nonlinear_arith)
        requires
            b[0] as int == v % 256,
            b[1] as int == (v / 256) % 256,
            0 <= v < 65536,
            le16(b, 0) == b[0] as int + 256 * (b[1] as int),
    ;
}

/// Reads the little-endian `u16` at `off`.
pub fn read_u16_le(s: &[u8], off: usize) -> (r: u16)
    requires
        off + 2 <= s@.len(),
    ensures
        r == le16(s@, off as int),
{
    s[off] as u16 + 256 * (s[off + 1] as u16)
}

/// Reads the little-endian `u32` at `off`.
pub fn read_u32_le(s: &[u8], off: usize) -> (r: u32)
    requires
        off + 4 <= s@.len(),
    ensures
        r == le32(s@, off as int),
{
    let len: usize = s.len();
    assert(off + 4 <= len);
    read_u16_le(s, off) as u32 + 65536 * (read_u16_le(s, off + 2) as u32)
}

/// Reads the little-endian `u64` at `off`.
pub fn read_u64_le(s: &[u8], off: usize) -> (r: u64)
    requires
        off + 8 <= s@.len(),
    ensures
        r == le64(s@, off as int),
{
    let len: usize = s.len();
    assert(off + 8 <= len);
    read_u32_le(s, off) as u64 + 4294967296 * (read_u32_le(s, off + 4) as u64)
}

/// Writes `v` as a little-endian `u16` at `off`.
pub fn write_u16_le(s: &mut Vec<u8>, off: usize, v: u16)
    requires
        off + 2 <= old(s)@.len(),
    ensures
        final(s)@ == splice(old(s)@, off as int, le16_bytes(v)),
        le16(final(s)@, off as int) == v,
{
    let len: usize = s.len();
    assert(off + 2 <= len);
    s.set(off, (v % 256) as u8);
    s.set(off + 1, ((v / 256) % 256) as u8);
    proof {
        lemma_le16_bytes(v);
        assert(s@ =~= splice(old(s)@, off as int, le16_bytes(v)));
        assert(s@.subrange(off as int, off + 2) =~= le16_bytes(v));
    }
}

/// Writes `v` as a little-endian `u32` at `off`.
pub fn write_u32_le(s: &mut Vec<u8>, off: usize, v: u32)
    requires
        off + 4 <= old(s)@.len(),
    ensures
        final(s)@ == splice(old(s)@, off as int, le32_bytes(v)),
        le32(final(s)@, off as int) == v,
{
    let len: usize = s.len();
    assert(off + 4 <= len);
    s.set(off, (v % 256) as u8);
    s.set(off + 1, ((v / 256) % 256) as u8);
    s.set(off + 2, ((v / 65536) % 256) as u8);
    s.set(off + 3, ((v / 16777216) % 256) as u8);
    proof {
        lemma_le32_bytes(v);
        assert(s@ =~= splice(old(s)@, off as int, le32_bytes(v)));
        assert(s@.subrange(off as int, off + 4) =~= le32_bytes(v));
    }
}

} // verus!
