use vstd::prelude::*;

use crate::error::IpcError;
use crate::format::BufferDesc;

verus! {

// Decoding of the raw byte ranges that buffer descriptors declare.  Every
// read position is computed from the descriptor alone, against an in-memory
// batch body, so nothing here depends on an implicit reader cursor.

/// The 32-bit word assembled from the four body bytes at `pos`, in
/// little-endian or big-endian order.
pub open spec fn word_at(body: Seq<u8>, pos: int, little_endian: bool) -> u32 {
    let b0 = body[pos] as u32;
    let b1 = body[pos + 1] as u32;
    let b2 = body[pos + 2] as u32;
    let b3 = body[pos + 3] as u32;
    if little_endian {
        b0 | b1 << 8 | b2 << 16 | b3 << 24
    } else {
        b3 | b2 << 8 | b1 << 16 | b0 << 24
    }
}

/// The 32-bit signed value at `pos`: the word there, reinterpreted.
pub open spec fn i32_at(body: Seq<u8>, pos: int, little_endian: bool) -> i32 {
    word_at(body, pos, little_endian) as i32
}

/// The `rows` 32-bit signed values a buffer at `off` holds, four bytes each.
pub open spec fn i32s_at(body: Seq<u8>, off: int, rows: nat, little_endian: bool) -> Seq<i32> {
    Seq::new(rows, |i: int| i32_at(body, off + 4 * i, little_endian))
}

/// The `rows` 8-bit signed values a buffer at `off` holds, one byte each.
/// Single bytes have no endianness.
pub open spec fn i8s_at(body: Seq<u8>, off: int, rows: nat) -> Seq<i8> {
    Seq::new(rows, |i: int| body[off + i] as i8)
}

/// The raw `count` bytes a buffer at `off` holds.
pub open spec fn bytes_at(body: Seq<u8>, off: int, count: nat) -> Seq<u8> {
    body.subrange(off, off + count)
}

/// The byte that position `k` of an encoded 32-bit value holds, in
/// little-endian order: byte `k` is the value shifted right by `8 * k`.
pub open spec fn i32_le_byte(v: i32, k: int) -> u8 {
    (((v as u32) >> (8 * k) as u32) & 0xff) as u8
}

/// The encoding of 32-bit signed values as bytes, four per value, in
/// little-endian or big-endian order.
pub open spec fn i32_bytes(vs: Seq<i32>, little_endian: bool) -> Seq<u8> {
    Seq::new(
        4 * vs.len(),
        |k: int|
            if little_endian {
                i32_le_byte(vs[k / 4], k % 4)
            } else {
                i32_le_byte(vs[k / 4], 3 - k % 4)
            },
    )
}

/// The encoding of 8-bit signed values as bytes, one per value.
pub open spec fn i8_bytes(ts: Seq<i8>) -> Seq<u8> {
    Seq::new(ts.len(), |k: int| ts[k] as u8)
}

/// Reassembling one encoded 32-bit value from its four bytes yields the
/// value, under either endianness.
proof fn lemma_i32_byte_round_trip(v: i32)
    ensures
        ({
            let w = v as u32;
            (i32_le_byte(v, 0) as u32) | (i32_le_byte(v, 1) as u32) << 8 | (i32_le_byte(v, 2) as u32)
                << 16 | (i32_le_byte(v, 3) as u32) << 24 == w
        }),
        ((v as u32) as i32) == v,
{
    let w = v as u32;
    assert((((w >> 0u32) & 0xff) as u8 as u32) | (((w >> 8u32) & 0xff) as u8 as u32) << 8 | (((w
        >> 16u32) & 0xff) as u8 as u32) << 16 | (((w >> 24u32) & 0xff) as u8 as u32) << 24 == w)
        by (bit_vector);
    assert(((v as u32) as i32) == v) by (bit_vector);
}

/// Law: the values buffer contents a decode yields, re-encoded and placed
/// anywhere in a body, decode to the identical values — for any contents,
/// any surrounding bytes and either endianness.
pub proof fn lemma_i32_bytes_round_trip(
    vs: Seq<i32>,
    prefix: Seq<u8>,
    suffix: Seq<u8>,
    little_endian: bool,
)
    ensures
        i32s_at(
            prefix + i32_bytes(vs, little_endian) + suffix,
            prefix.len() as int,
            vs.len(),
            little_endian,
        ) == vs,
{
    let body = prefix + i32_bytes(vs, little_endian) + suffix;
    let off = prefix.len() as int;
    let dec = i32s_at(body, off, vs.len(), little_endian);
    assert forall|i: int| 0 <= i < vs.len() implies dec[i] == vs[i] by {
        lemma_i32_byte_round_trip(vs[i]);
        assert forall|k: int| 0 <= k < 4 implies #[trigger] body[off + 4 * i + k] == (
        if little_endian {
            i32_le_byte(vs[i], k)
        } else {
            i32_le_byte(vs[i], 3 - k)
        }) by {
            assert(0 <= 4 * i + k < 4 * vs.len());
            assert(body[off + 4 * i + k] == i32_bytes(vs, little_endian)[4 * i + k]);
            assert((4 * i + k) / 4 == i);
            assert((4 * i + k) % 4 == k);
        }
        assert(word_at(body, off + 4 * i, little_endian) == vs[i] as u32);
    }
    assert(dec =~= vs);
}

/// Law: the types buffer contents a decode yields, re-encoded and placed
/// anywhere in a body, decode to the identical tags — for any contents and
/// any surrounding bytes.
pub proof fn lemma_i8_bytes_round_trip(ts: Seq<i8>, prefix: Seq<u8>, suffix: Seq<u8>)
    ensures
        i8s_at(prefix + i8_bytes(ts) + suffix, prefix.len() as int, ts.len()) == ts,
{
    let body = prefix + i8_bytes(ts) + suffix;
    let off = prefix.len() as int;
    let dec = i8s_at(body, off, ts.len());
    assert forall|i: int| 0 <= i < ts.len() implies dec[i] == ts[i] by {
        assert(body[off + i] == i8_bytes(ts)[i]);
        let t = ts[i];
        assert(((t as u8) as i8) == t) by (bit_vector);
    }
    assert(dec =~= ts);
}

/// Whether a descriptor yields `needed` bytes: it must declare at least that
/// many, and they must lie within the body.
pub open spec fn desc_covers(desc: BufferDesc, needed: nat, body_len: nat) -> bool {
    &&& desc.length >= needed
    &&& desc.offset + needed <= body_len
}

/// Checks that a descriptor yields `needed` bytes of the body, without
/// overflowing any machine count.
fn check_covers(desc: &BufferDesc, needed: usize, body_len: usize) -> (r: bool)
    ensures
        r == desc_covers(*desc, needed as nat, body_len as nat),
{
    desc.length >= needed && desc.offset <= body_len && needed <= body_len - desc.offset
}

/// Decodes the `rows` 32-bit signed values of the buffer a descriptor
/// declares, or reports the descriptor out of bounds.
pub fn decode_i32s(desc: &BufferDesc, rows: usize, body: &[u8], little_endian: bool) -> (r: Result<
    Vec<i32>,
    IpcError,
>)
    ensures
        match r {
            Ok(v) => desc_covers(*desc, 4 * rows as nat, body@.len()) && v@ == i32s_at(
                body@,
                desc.offset as int,
                rows as nat,
                little_endian,
            ),
            Err(e) => e == IpcError::BufferOutOfBounds && !desc_covers(
                *desc,
                4 * rows as nat,
                body@.len(),
            ),
        },
{
    if rows > usize::MAX / 4 {
        assert(4 * rows as nat > usize::MAX >= desc.length);
        return Err(IpcError::BufferOutOfBounds);
    }
    let needed: usize = 4 * rows;
    if !check_covers(desc, needed, body.len()) {
        return Err(IpcError::BufferOutOfBounds);
    }
    let mut out: Vec<i32> = Vec::new();
    let mut i: usize = 0;
    while i < rows
        invariant
            i <= rows,
            body@.len() <= usize::MAX,
            desc_covers(*desc, 4 * rows as nat, body@.len()),
            out@ == i32s_at(body@, desc.offset as int, i as nat, little_endian),
        decreases rows - i,
    {
        let p: usize = desc.offset + 4 * i;
        let b0 = body[p];
        let b1 = body[p + 1];
        let b2 = body[p + 2];
        let b3 = body[p + 3];
        let w: u32 = if little_endian {
            (b0 as u32) | (b1 as u32) << 8u32 | (b2 as u32) << 16u32 | (b3 as u32) << 24u32
        } else {
            (b3 as u32) | (b2 as u32) << 8u32 | (b1 as u32) << 16u32 | (b0 as u32) << 24u32
        };
        out.push(#[verifier::truncate] (w as i32));
        i = i + 1;
        proof {
            assert(out@ =~= i32s_at(body@, desc.offset as int, i as nat, little_endian));
        }
    }
    Ok(out)
}

/// Decodes the `rows` 8-bit signed values of the buffer a descriptor
/// declares, or reports the descriptor out of bounds.
pub fn decode_i8s(desc: &BufferDesc, rows: usize, body: &[u8]) -> (r: Result<Vec<i8>, IpcError>)
    ensures
        match r {
            Ok(v) => desc_covers(*desc, rows as nat, body@.len()) && v@ == i8s_at(
                body@,
                desc.offset as int,
                rows as nat,
            ),
            Err(e) => e == IpcError::BufferOutOfBounds && !desc_covers(
                *desc,
                rows as nat,
                body@.len(),
            ),
        },
{
    if !check_covers(desc, rows, body.len()) {
        return Err(IpcError::BufferOutOfBounds);
    }
    let mut out: Vec<i8> = Vec::new();
    let mut i: usize = 0;
    while i < rows
        invariant
            i <= rows,
            body@.len() <= usize::MAX,
            desc_covers(*desc, rows as nat, body@.len()),
            out@ == i8s_at(body@, desc.offset as int, i as nat),
        decreases rows - i,
    {
        let b = body[desc.offset + i];
        out.push(#[verifier::truncate] (b as i8));
        i = i + 1;
        proof {
            assert(out@ =~= i8s_at(body@, desc.offset as int, i as nat));
        }
    }
    Ok(out)
}

/// Copies the raw `count` bytes of the buffer a descriptor declares, or
/// reports the descriptor out of bounds.
pub fn decode_bytes(desc: &BufferDesc, count: usize, body: &[u8]) -> (r: Result<Vec<u8>, IpcError>)
    ensures
        match r {
            Ok(v) => desc_covers(*desc, count as nat, body@.len()) && v@ == bytes_at(
                body@,
                desc.offset as int,
                count as nat,
            ),
            Err(e) => e == IpcError::BufferOutOfBounds && !desc_covers(
                *desc,
                count as nat,
                body@.len(),
            ),
        },
{
    if !check_covers(desc, count, body.len()) {
        return Err(IpcError::BufferOutOfBounds);
    }
    let mut out: Vec<u8> = Vec::new();
    let mut i: usize = 0;
    while i < count
        invariant
            i <= count,
            body@.len() <= usize::MAX,
            desc_covers(*desc, count as nat, body@.len()),
            out@ == bytes_at(body@, desc.offset as int, i as nat),
        decreases count - i,
    {
        let b = body[desc.offset + i];
        out.push(b);
        i = i + 1;
        proof {
            assert(out@ =~= bytes_at(body@, desc.offset as int, i as nat));
        }
    }
    Ok(out)
}

} // verus!
