//! Little-endian integers and byte runs at explicit offsets of a byte window.
//! Every access is bounds-checked and reports `FatError::Bounds` instead of
//! reading or writing past the window's end.

use crate::error::FatError;
use byteorder::{ByteOrder, LittleEndian};
use itertools::Itertools;
use vstd::prelude::*;
use vstd::slice::slice_subrange;

verus! {

/// The number that the two bytes of `bytes` from `offset` on spell in
/// little-endian order.
pub open spec fn le_u16(bytes: Seq<u8>, offset: int) -> int {
    bytes[offset] as int + 256 * (bytes[offset + 1] as int)
}

/// The number that the four bytes of `bytes` from `offset` on spell in
/// little-endian order.
pub open spec fn le_u32(bytes: Seq<u8>, offset: int) -> int {
    bytes[offset] as int + 256 * (bytes[offset + 1] as int) + 65536 * (bytes[offset + 2] as int)
        + 16777216 * (bytes[offset + 3] as int)
}

/// The two bytes that spell `value` in little-endian order.
pub open spec fn u16_le_bytes(value: u16) -> Seq<u8> {
    seq![(value % 256) as u8, (value / 256) as u8]
}

/// The four bytes that spell `value` in little-endian order.
pub open spec fn u32_le_bytes(value: u32) -> Seq<u8> {
    seq![
        (value % 256) as u8,
        (value / 256 % 256) as u8,
        (value / 65536 % 256) as u8,
        (value / 16777216) as u8,
    ]
}

/// `window` with the bytes from `offset` on replaced by `run`.
pub open spec fn overwrite(window: Seq<u8>, offset: int, run: Seq<u8>) -> Seq<u8> {
    window.subrange(0, offset) + run + window.subrange(offset + run.len(), window.len() as int)
}

/// The number of runs that `len` bytes split into, where every run but the
/// last has `size` bytes and the last has what is left.
pub open spec fn chunk_count(len: int, size: int) -> int {
    (len + size - 1) / size
}

/// Run `i` of `data` split into runs of `size` bytes.
pub open spec fn chunk(data: Seq<u8>, size: int, i: int) -> Seq<u8> {
    data.subrange(
        i * size,
        if (i + 1) * size <= data.len() {
            (i + 1) * size
        } else {
            data.len() as int
        },
    )
}

/// Trusted: `Itertools::chunks` of itertools, which panics on a size of zero
/// and otherwise hands out the items in runs of `size`, in order, the last
/// run shorter where the items do not fill it; no items, no run.
#[verifier::external_body]
pub(crate) fn split_chunks(data: &[u8], size: usize) -> (chunks: Vec<Vec<u8>>)
    requires
        size > 0,
    ensures
        chunks@.len() == chunk_count(data@.len() as int, size as int),
        forall|i: int|
            0 <= i < chunks@.len() ==> (#[trigger] chunks@[i])@ == chunk(data@, size as int, i),
{
    let runs = data.iter().copied().chunks(size);
    let mut chunks: Vec<Vec<u8>> = Vec::new();
    for run in &runs {
        chunks.push(run.collect());
    }
    chunks
}

/// Trusted: `byteorder::LittleEndian::read_u16`, which panics on fewer than
/// two bytes and otherwise decodes the first two as a little-endian integer.
#[verifier::external_body]
fn le_read_u16(buf: &[u8]) -> (value: u16)
    requires
        buf@.len() >= 2,
    ensures
        value as int == le_u16(buf@, 0),
{
    LittleEndian::read_u16(buf)
}

/// Trusted: `byteorder::LittleEndian::read_u32`, which panics on fewer than
/// four bytes and otherwise decodes the first four as a little-endian integer.
#[verifier::external_body]
fn le_read_u32(buf: &[u8]) -> (value: u32)
    requires
        buf@.len() >= 4,
    ensures
        value as int == le_u32(buf@, 0),
{
    LittleEndian::read_u32(buf)
}

/// The little-endian 16-bit integer that starts at `offset`, inside the
/// window.
pub(crate) fn get_u16(buf: &[u8], offset: usize) -> (value: u16)
    requires
        offset + 2 <= buf@.len(),
    ensures
        value as int == le_u16(buf@, offset as int),
{
    assert(buf@.len() == buf.len());
    le_read_u16(slice_subrange(buf, offset, offset + 2))
}

/// The little-endian 32-bit integer that starts at `offset`, inside the
/// window.
pub(crate) fn get_u32(buf: &[u8], offset: usize) -> (value: u32)
    requires
        offset + 4 <= buf@.len(),
    ensures
        value as int == le_u32(buf@, offset as int),
{
    assert(buf@.len() == buf.len());
    le_read_u32(slice_subrange(buf, offset, offset + 4))
}

/// Reads the byte at `offset`.
pub fn read_u8(buf: &[u8], offset: usize) -> (r: Result<u8, FatError>)
    ensures
        offset < buf@.len() ==> r == Ok::<u8, FatError>(buf@[offset as int]),
        offset >= buf@.len() ==> r == Err::<u8, FatError>(FatError::Bounds),
{
    if offset < buf.len() {
        Ok(buf[offset])
    } else {
        Err(FatError::Bounds)
    }
}

/// Reads the little-endian 16-bit integer that starts at `offset`.
pub fn read_u16(buf: &[u8], offset: usize) -> (r: Result<u16, FatError>)
    ensures
        offset + 2 <= buf@.len() ==> r is Ok && r->Ok_0 as int == le_u16(buf@, offset as int),
        offset + 2 > buf@.len() ==> r == Err::<u16, FatError>(FatError::Bounds),
{
    if buf.len() < 2 || offset > buf.len() - 2 {
        return Err(FatError::Bounds);
    }
    Ok(get_u16(buf, offset))
}

/// Reads the little-endian 32-bit integer that starts at `offset`.
pub fn read_u32(buf: &[u8], offset: usize) -> (r: Result<u32, FatError>)
    ensures
        offset + 4 <= buf@.len() ==> r is Ok && r->Ok_0 as int == le_u32(buf@, offset as int),
        offset + 4 > buf@.len() ==> r == Err::<u32, FatError>(FatError::Bounds),
{
    if buf.len() < 4 || offset > buf.len() - 4 {
        return Err(FatError::Bounds);
    }
    Ok(get_u32(buf, offset))
}

/// Copies the `len` bytes that start at `offset` out of the window.
pub fn read_bytes(buf: &[u8], offset: usize, len: usize) -> (r: Result<Vec<u8>, FatError>)
    ensures
        offset + len <= buf@.len() ==> r is Ok && r->Ok_0@ == buf@.subrange(
            offset as int,
            offset + len,
        ),
        offset + len > buf@.len() ==> r == Err::<Vec<u8>, FatError>(FatError::Bounds),
{
    if len > buf.len() || offset > buf.len() - len {
        return Err(FatError::Bounds);
    }
    let mut out: Vec<u8> = Vec::new();
    let mut i: usize = 0;
    while i < len
        invariant
            i <= len,
            offset + len <= buf@.len() <= usize::MAX,
            out@ == buf@.subrange(offset as int, offset + i),
        decreases len - i,
    {
        out.push(buf[offset + i]);
        i += 1;
    }
    Ok(out)
}

/// Appends the `src` bytes to `out`.
pub fn append_bytes(out: &mut Vec<u8>, src: &[u8])
    ensures
        final(out)@ == old(out)@ + src@,
{
    let mut i: usize = 0;
    while i < src.len()
        invariant
            i <= src@.len(),
            out@ == old(out)@ + src@.subrange(0, i as int),
        decreases src@.len() - i,
    {
        out.push(src[i]);
        i += 1;
    }
    assert(src@.subrange(0, i as int) == src@);
}

/// Appends `value` to `out` as a little-endian 16-bit integer.
pub fn append_u16(out: &mut Vec<u8>, value: u16)
    ensures
        final(out)@ == old(out)@ + u16_le_bytes(value),
{
    out.push((value % 256) as u8);
    out.push((value / 256) as u8);
}

/// Appends `value` to `out` as a little-endian 32-bit integer.
pub fn append_u32(out: &mut Vec<u8>, value: u32)
    ensures
        final(out)@ == old(out)@ + u32_le_bytes(value),
{
    out.push((value % 256) as u8);
    out.push((value / 256 % 256) as u8);
    out.push((value / 65536 % 256) as u8);
    out.push((value / 16777216) as u8);
}

/// Stores `value` at `offset`.
pub fn write_u8(buf: &mut Vec<u8>, offset: usize, value: u8) -> (r: Result<(), FatError>)
    ensures
        offset < old(buf)@.len() ==> r is Ok && final(buf)@ == old(buf)@.update(
            offset as int,
            value,
        ),
        offset >= old(buf)@.len() ==> r == Err::<(), FatError>(FatError::Bounds) && final(buf)@
            == old(buf)@,
{
    if offset < buf.len() {
        buf.set(offset, value);
        Ok(())
    } else {
        Err(FatError::Bounds)
    }
}

/// Stores the `src` bytes into the window from `offset` on.
pub fn write_bytes(buf: &mut Vec<u8>, offset: usize, src: &[u8]) -> (r: Result<(), FatError>)
    ensures
        offset + src@.len() <= old(buf)@.len() ==> r is Ok && final(buf)@ == overwrite(
            old(buf)@,
            offset as int,
            src@,
        ),
        offset + src@.len() > old(buf)@.len() ==> r == Err::<(), FatError>(FatError::Bounds)
            && final(buf)@ == old(buf)@,
{
    let n = src.len();
    if n > buf.len() || offset > buf.len() - n {
        return Err(FatError::Bounds);
    }
    let mut i: usize = 0;
    while i < n
        invariant
            i <= n,
            n == src@.len(),
            offset + n <= buf@.len() <= usize::MAX,
            buf@.len() == old(buf)@.len(),
            buf@ == overwrite(old(buf)@, offset as int, src@.subrange(0, i as int)),
        decreases n - i,
    {
        buf[offset + i] = src[i];
        i += 1;
    }
    assert(src@.subrange(0, n as int) == src@);
    Ok(())
}

/// Stores `value` as a little-endian 16-bit integer from `offset` on.
pub fn write_u16(buf: &mut Vec<u8>, offset: usize, value: u16) -> (r: Result<(), FatError>)
    ensures
        offset + 2 <= old(buf)@.len() ==> r is Ok && final(buf)@ == overwrite(
            old(buf)@,
            offset as int,
            u16_le_bytes(value),
        ),
        offset + 2 > old(buf)@.len() ==> r == Err::<(), FatError>(FatError::Bounds) && final(buf)@
            == old(buf)@,
{
    if buf.len() < 2 || offset > buf.len() - 2 {
        return Err(FatError::Bounds);
    }
    buf.set(offset, (value % 256) as u8);
    buf.set(offset + 1, (value / 256) as u8);
    Ok(())
}

/// Stores `value` as a little-endian 32-bit integer from `offset` on.
pub fn write_u32(buf: &mut Vec<u8>, offset: usize, value: u32) -> (r: Result<(), FatError>)
    ensures
        offset + 4 <= old(buf)@.len() ==> r is Ok && final(buf)@ == overwrite(
            old(buf)@,
            offset as int,
            u32_le_bytes(value),
        ),
        offset + 4 > old(buf)@.len() ==> r == Err::<(), FatError>(FatError::Bounds) && final(buf)@
            == old(buf)@,
{
    if buf.len() < 4 || offset > buf.len() - 4 {
        return Err(FatError::Bounds);
    }
    buf.set(offset, (value % 256) as u8);
    buf.set(offset + 1, (value / 256 % 256) as u8);
    buf.set(offset + 2, (value / 65536 % 256) as u8);
    buf.set(offset + 3, (value / 16777216) as u8);
    Ok(())
}

/// Decoding what was encoded gives the value back.
pub proof fn lemma_u16_round_trip(value: u16)
    ensures
        le_u16(u16_le_bytes(value), 0) == value,
{
}

/// Decoding what was encoded gives the value back.
pub proof fn lemma_u32_round_trip(value: u32)
    ensures
        le_u32(u32_le_bytes(value), 0) == value,
{
    let v = value as int;
    assert(v == v % 256 + 256 * (v / 256));
    assert(v / 256 == v / 256 % 256 + 256 * (v / 256 / 256));
    assert(v / 256 / 256 == v / 65536);
    assert(v / 65536 == v / 65536 % 256 + 256 * (v / 65536 / 256));
    assert(v / 65536 / 256 == v / 16777216);
}

/// Every run of a split starts inside the data and has at least one byte and
/// at most `size` bytes.
pub proof fn lemma_chunk_len(data: Seq<u8>, size: int, i: int)
    requires
        0 < size,
        0 <= i < chunk_count(data.len() as int, size),
    ensures
        0 <= i * size < data.len(),
        0 < chunk(data, size, i).len() <= size,
{
    let count = chunk_count(data.len() as int, size);
    assert(count * size <= data.len() + size - 1) by (nonlinear_arith)
        requires
            count == (data.len() + size - 1) / size,
            0 < size,
    ;
    assert((i + 1) * size <= count * size) by (nonlinear_arith)
        requires
            i + 1 <= count,
            0 < size,
    ;
    assert((i + 1) * size == i * size + size) by (nonlinear_arith);
    assert(0 <= i * size) by (nonlinear_arith)
        requires
            0 <= i,
            0 < size,
    ;
}

/// Data of at least one byte split into at least one run.
pub proof fn lemma_chunk_count_positive(len: int, size: int)
    requires
        0 < len,
        0 < size,
    ensures
        1 <= chunk_count(len, size),
{
    assert(1 <= (len + size - 1) / size) by (nonlinear_arith)
        requires
            0 < len,
            0 < size,
    ;
}

/// `n` zero bytes.
pub open spec fn zeros(n: int) -> Seq<u8> {
    Seq::new(n as nat, |i: int| 0u8)
}

} // verus!
