//! Big-endian integer extraction from an in-memory byte sequence.
//!
//! All multi-byte integers of the file format are big-endian. Each reader
//! takes the byte sequence and a position and hands back the value with the
//! position moved past it; running out of bytes is the caller's error.

use vstd::prelude::*;

verus! {

/// The big-endian 16-bit value at `p`.
pub open spec fn be16(b: Seq<u8>, p: int) -> int {
    b[p] * 0x100 + b[p + 1]
}

/// The big-endian 32-bit value at `p`.
pub open spec fn be32(b: Seq<u8>, p: int) -> int {
    b[p] * 0x100_0000 + b[p + 1] * 0x1_0000 + b[p + 2] * 0x100 + b[p + 3]
}

/// The big-endian 64-bit value at `p`.
pub open spec fn be64(b: Seq<u8>, p: int) -> int {
    be32(b, p) * 0x1_0000_0000 + be32(b, p + 4)
}

/// Reads one byte.
pub fn read_u8(bytes: &[u8], pos: usize) -> (r: Option<(u8, usize)>)
    ensures
        match r {
            Some((v, p2)) => pos + 1 <= bytes@.len() && v == bytes@[pos as int] && p2 == pos + 1,
            None => pos + 1 > bytes@.len(),
        },
{
    if pos < bytes.len() {
        Some((bytes[pos], pos + 1))
    } else {
        None
    }
}

/// Reads a big-endian 16-bit integer.
pub fn read_u16(bytes: &[u8], pos: usize) -> (r: Option<(u16, usize)>)
    ensures
        match r {
            Some((v, p2)) => pos + 2 <= bytes@.len() && v == be16(bytes@, pos as int) && p2 == pos
                + 2,
            None => pos + 2 > bytes@.len(),
        },
{
    if pos < bytes.len() && bytes.len() - pos >= 2 {
        let v = (bytes[pos] as u16) * 0x100 + (bytes[pos + 1] as u16);
        Some((v, pos + 2))
    } else {
        None
    }
}

/// Reads a big-endian 32-bit integer.
pub fn read_u32(bytes: &[u8], pos: usize) -> (r: Option<(u32, usize)>)
    ensures
        match r {
            Some((v, p2)) => pos + 4 <= bytes@.len() && v == be32(bytes@, pos as int) && p2 == pos
                + 4,
            None => pos + 4 > bytes@.len(),
        },
{
    if pos < bytes.len() && bytes.len() - pos >= 4 {
        let v = (bytes[pos] as u32) * 0x100_0000 + (bytes[pos + 1] as u32) * 0x1_0000 + (bytes[pos
            + 2] as u32) * 0x100 + (bytes[pos + 3] as u32);
        Some((v, pos + 4))
    } else {
        None
    }
}

/// Reads a big-endian 64-bit integer.
pub fn read_u64(bytes: &[u8], pos: usize) -> (r: Option<(u64, usize)>)
    ensures
        match r {
            Some((v, p2)) => pos + 8 <= bytes@.len() && v == be64(bytes@, pos as int) && p2 == pos
                + 8,
            None => pos + 8 > bytes@.len(),
        },
{
    match read_u32(bytes, pos) {
        Some((hi, p1)) => match read_u32(bytes, p1) {
            Some((lo, p2)) => Some(((hi as u64) * 0x1_0000_0000 + (lo as u64), p2)),
            None => None,
        },
        None => None,
    }
}

/// Copies `count` bytes starting at `pos` into a fresh vector.
pub fn read_bytes(bytes: &[u8], pos: usize, count: usize) -> (r: Option<(Vec<u8>, usize)>)
    ensures
        match r {
            Some((v, p2)) => {
                &&& pos + count <= bytes@.len()
                &&& v@ == bytes@.subrange(pos as int, pos + count)
                &&& p2 == pos + count
            },
            None => pos + count > bytes@.len(),
        },
{
    let n = bytes.len();
    if pos <= n && n - pos >= count {
        let mut out: Vec<u8> = Vec::new();
        let mut i: usize = 0;
        while i < count
            invariant
                n == bytes@.len(),
                pos + count <= bytes@.len(),
                i <= count,
                out@.len() == i,
                forall|j: int| 0 <= j < i ==> #[trigger] out@[j] == bytes@[pos + j],
            decreases count - i,
        {
            out.push(bytes[pos + i]);
            i = i + 1;
        }
        proof {
            assert(out@ =~= bytes@.subrange(pos as int, pos + count));
        }
        Some((out, pos + count))
    } else {
        None
    }
}

} // verus!
