//! Little-endian integers in byte buffers.

use vstd::prelude::*;

verus! {

/// Number of values that four bytes can take.
pub const WORD: u64 = 4294967296;

/// The four bytes at `at` as a little-endian number.
pub open spec fn le4(b: Seq<u8>, at: int) -> int {
    b[at] + 256 * b[at + 1] + 65536 * b[at + 2] + 16777216 * b[at + 3]
}

/// The eight bytes at `at` as a little-endian number.
pub open spec fn le8(b: Seq<u8>, at: int) -> int {
    le4(b, at) + 4294967296 * le4(b, at + 4)
}

/// A number below the word size in four little-endian bytes.
pub open spec fn le4_bytes(v: int) -> Seq<u8> {
    seq![
        (v % 256) as u8,
        ((v / 256) % 256) as u8,
        ((v / 65536) % 256) as u8,
        ((v / 16777216) % 256) as u8,
    ]
}

/// A number below the square of the word size in eight little-endian bytes.
pub open spec fn le8_bytes(v: int) -> Seq<u8> {
    le4_bytes(v % 4294967296) + le4_bytes(v / 4294967296)
}

/// The part of a buffer at `at` is `part`.
pub open spec fn holds_at(b: Seq<u8>, at: int, part: Seq<u8>) -> bool {
    &&& 0 <= at
    &&& at + part.len() <= b.len()
    &&& b.subrange(at, at + part.len()) == part
}

/// Reads four little-endian bytes.
pub fn read_u32(b: &[u8], at: usize) -> (v: u32)
    requires
        at + 4 <= b@.len(),
    ensures
        v == le4(b@, at as int),
{
    let total: usize = b.len();
    b[at] as u32 + 256 * (b[at + 1] as u32) + 65536 * (b[at + 2] as u32) + 16777216 * (b[at
        + 3] as u32)
}

/// Reads eight little-endian bytes.
pub fn read_u64(b: &[u8], at: usize) -> (v: u64)
    requires
        at + 8 <= b@.len(),
    ensures
        v == le8(b@, at as int),
{
    let total: usize = b.len();
    let lo: u32 = read_u32(b, at);
    let hi: u32 = read_u32(b, at + 4);
    lo as u64 + WORD * (hi as u64)
}

/// Appends four little-endian bytes.
pub fn push_u32(out: &mut Vec<u8>, v: u32)
    ensures
        final(out)@ == old(out)@ + le4_bytes(v as int),
{
    out.push((v % 256) as u8);
    out.push(((v / 256) % 256) as u8);
    out.push(((v / 65536) % 256) as u8);
    out.push(((v / 16777216) % 256) as u8);
    assert(out@ =~= old(out)@ + le4_bytes(v as int));
}

/// Appends eight little-endian bytes.
pub fn push_u64(out: &mut Vec<u8>, v: u64)
    ensures
        final(out)@ == old(out)@ + le8_bytes(v as int),
{
    push_u32(out, (v % WORD) as u32);
    push_u32(out, (v / WORD) as u32);
    assert(out@ =~= old(out)@ + le8_bytes(v as int));
}

/// Four bytes written are read back as the number.
pub proof fn law_read_u32_undoes_push(b: Seq<u8>, at: int, v: int)
    requires
        0 <= v < 4294967296,
        holds_at(b, at, le4_bytes(v)),
    ensures
        le4(b, at) == v,
{
    let part = b.subrange(at, at + 4);
    assert(part == le4_bytes(v));
    assert(part[0] == b[at] && part[1] == b[at + 1] && part[2] == b[at + 2] && part[3] == b[at
        + 3]);
    let q1 = v / 256;
    let q2 = v / 65536;
    let q3 = v / 16777216;
    assert(q2 == q1 / 256);
    assert(q3 == q2 / 256);
    assert(q3 < 256);
}

/// Eight bytes written are read back as the number.
pub proof fn law_read_u64_undoes_push(b: Seq<u8>, at: int, v: int)
    requires
        0 <= v < 18446744073709551616,
        holds_at(b, at, le8_bytes(v)),
    ensures
        le8(b, at) == v,
{
    let part = b.subrange(at, at + 8);
    assert(part == le8_bytes(v));
    assert(b.subrange(at, at + 4) =~= part.subrange(0, 4));
    assert(part.subrange(0, 4) =~= le4_bytes(v % 4294967296));
    assert(b.subrange(at + 4, at + 8) =~= part.subrange(4, 8));
    assert(part.subrange(4, 8) =~= le4_bytes(v / 4294967296));
    law_read_u32_undoes_push(b, at, v % 4294967296);
    law_read_u32_undoes_push(b, at + 4, v / 4294967296);
}

} // verus!
