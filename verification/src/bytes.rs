//! Little-endian fields and byte patterns in a block of bytes.
use vstd::prelude::*;

verus! {

/// The 16-bit little-endian field at `off`, if the block reaches that far.
pub open spec fn le16(buf: Seq<u8>, off: int) -> Option<u16> {
    if 0 <= off && off + 2 <= buf.len() {
        Some((buf[off] + 256 * buf[off + 1]) as u16)
    } else {
        None
    }
}

/// The 32-bit little-endian field at `off`, if the block reaches that far.
pub open spec fn le32(buf: Seq<u8>, off: int) -> Option<u32> {
    if 0 <= off && off + 4 <= buf.len() {
        Some(
            (buf[off] + 256 * buf[off + 1] + 65536 * buf[off + 2] + 16777216 * buf[off
                + 3]) as u32,
        )
    } else {
        None
    }
}

/// Whether `pattern` stands in `buf` at `at`.
pub open spec fn stands_at(buf: Seq<u8>, at: int, pattern: Seq<u8>) -> bool {
    0 <= at && at + pattern.len() <= buf.len() && buf.subrange(at, at + pattern.len()) == pattern
}

/// The 16-bit little-endian field at `off`.
pub fn u16_le(buf: &[u8], off: usize) -> (r: Option<u16>)
    ensures
        r == le16(buf@, off as int),
{
    if off > buf.len() || buf.len() - off < 2 {
        return None;
    }
    Some(buf[off] as u16 + 256 * (buf[off + 1] as u16))
}

/// The 32-bit little-endian field at `off`.
pub fn u32_le(buf: &[u8], off: usize) -> (r: Option<u32>)
    ensures
        r == le32(buf@, off as int),
{
    if off > buf.len() || buf.len() - off < 4 {
        return None;
    }
    Some(
        buf[off] as u32 + 256 * (buf[off + 1] as u32) + 65536 * (buf[off + 2] as u32) + 16777216
            * (buf[off + 3] as u32),
    )
}

/// Whether `pattern` stands in `buf` at `at`.
pub fn has_at(buf: &[u8], at: usize, pattern: &[u8]) -> (r: bool)
    ensures
        r == stands_at(buf@, at as int, pattern@),
{
    if at > buf.len() || buf.len() - at < pattern.len() {
        return false;
    }
    for i in 0..pattern.len()
        invariant
            at + pattern.len() <= buf.len(),
            forall|j: int| 0 <= j < i ==> buf@[at + j] == pattern@[j],
    {
        if buf[at + i] != pattern[i] {
            assert(buf@.subrange(at as int, at + pattern@.len())[i as int] != pattern@[i as int]);
            return false;
        }
    }
    assert(buf@.subrange(at as int, at + pattern@.len()) == pattern@);
    true
}

// ---------------------------------------------------------------------
// Laws
// ---------------------------------------------------------------------

/// A field reads back the number whose bytes stand there, the lowest byte
/// first, whatever stands around it.
pub proof fn law_fields_read_back(head: Seq<u8>, value: u32, tail: Seq<u8>)
    ensures
        le32(
            head + seq![
                (value % 256) as u8,
                (value / 256 % 256) as u8,
                (value / 65536 % 256) as u8,
                (value / 16777216) as u8,
            ] + tail,
            head.len() as int,
        ) == Some(value),
        value < 65536 ==> le16(
            head + seq![(value % 256) as u8, (value / 256) as u8] + tail,
            head.len() as int,
        ) == Some(value as u16),
{
    let four = head + seq![
        (value % 256) as u8,
        (value / 256 % 256) as u8,
        (value / 65536 % 256) as u8,
        (value / 16777216) as u8,
    ] + tail;
    let n = head.len() as int;
    assert(four[n] == value % 256);
    assert(four[n + 1] == value / 256 % 256);
    assert(four[n + 2] == value / 65536 % 256);
    assert(four[n + 3] == value / 16777216);
    let two = head + seq![(value % 256) as u8, (value / 256) as u8] + tail;
    if value < 65536 {
        assert(two[n] == value % 256);
        assert(two[n + 1] == value / 256);
    }
}

/// A field that does not lie within the block has no value.
pub proof fn law_fields_lie_within_the_block(buf: Seq<u8>, off: int)
    ensures
        le16(buf, off) is Some <==> 0 <= off <= buf.len() - 2,
        le32(buf, off) is Some <==> 0 <= off <= buf.len() - 4,
{
}

/// A pattern stands where its bytes are, and nowhere else.
pub proof fn law_patterns_stand_where_their_bytes_are(buf: Seq<u8>, at: int, pattern: Seq<u8>)
    ensures
        stands_at(buf, at, pattern) <==> (0 <= at <= buf.len() - pattern.len() && forall|i: int|
            0 <= i < pattern.len() ==> buf[at + i] == #[trigger] pattern[i]),
{
    if 0 <= at <= buf.len() - pattern.len() {
        let part = buf.subrange(at, at + pattern.len());
        if forall|i: int| 0 <= i < pattern.len() ==> buf[at + i] == #[trigger] pattern[i] {
            assert(part == pattern);
        }
        if part == pattern {
            assert forall|i: int| 0 <= i < pattern.len() implies buf[at + i] == #[trigger] pattern[
                i] by {
                assert(part[i] == buf[at + i]);
            }
        }
    }
}

} // verus!
