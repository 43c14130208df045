//! How a file is cut into chunks, and the state each chunk is in.

use vstd::prelude::*;

verus! {

/// Bytes in a chunk: 256 KiB.
pub const CHUNK_SIZE: u64 = 256 * 1024;

/// Where a chunk stands on its way into the file.
#[derive(Debug, Clone, Copy, PartialEq, Eq, Structural)]
pub enum ChunkState {
    Pending,
    Downloaded,
    Verified,
    Failed,
}

impl Default for ChunkState {
    fn default() -> (out: ChunkState)
        ensures
            out == ChunkState::Pending,
    {
        ChunkState::Pending
    }
}

/// How many chunks a file of `file_size` bytes takes.
pub open spec fn chunks_needed(file_size: int) -> int {
    (file_size + CHUNK_SIZE - 1) / (CHUNK_SIZE as int)
}

/// Where the chunk at position `i` starts.
pub open spec fn chunk_offset(i: int) -> int {
    i * CHUNK_SIZE
}

/// How many bytes of a file of `file_size` bytes the chunk at position `i` holds: a whole chunk, or
/// what is left of the file, or nothing.
pub open spec fn chunk_len(i: int, file_size: int) -> int {
    let left = file_size - chunk_offset(i);
    if left <= 0 {
        0
    } else if left < CHUNK_SIZE {
        left
    } else {
        CHUNK_SIZE as int
    }
}

/// The file sizes to which the bytes of one more chunk can be added within a `u64`.
pub open spec fn countable(file_size: u64) -> bool {
    file_size + CHUNK_SIZE <= u64::MAX
}

/// The number of chunks for a file, counted in a `u32`: beyond 2^32 chunks the count wraps.
pub open spec fn chunk_count(file_size: u64) -> int {
    chunks_needed(file_size as int) % 0x1_0000_0000
}

/// The file sizes whose chunks can be counted in a `u32`.
pub open spec fn fits_u32_chunks(file_size: u64) -> bool {
    file_size <= 0xffff_ffff * CHUNK_SIZE
}

/// Counts the chunks of a file.
pub(crate) fn count_chunks(file_size: u64) -> (out: u32)
    requires
        countable(file_size),
    ensures
        out == chunk_count(file_size),
{
    let n: u64 = (file_size + CHUNK_SIZE - 1) / CHUNK_SIZE;
    assert(n as u32 == n % 0x1_0000_0000) by (bit_vector);
    #[verifier::truncate]
    (n as u32)
}

/// Where the chunk at position `idx` starts.
pub(crate) fn offset_of(idx: u32) -> (out: u64)
    ensures
        out == chunk_offset(idx as int),
{
    idx as u64 * CHUNK_SIZE
}

/// How many bytes of the file the chunk at position `idx` holds.
pub(crate) fn size_of(idx: u32, file_size: u64) -> (out: u32)
    ensures
        out == chunk_len(idx as int, file_size as int),
{
    let start: u64 = offset_of(idx);
    let left: u64 = if file_size >= start {
        file_size - start
    } else {
        0
    };
    let size: u64 = if left < CHUNK_SIZE {
        left
    } else {
        CHUNK_SIZE
    };
    size as u32
}

/// Within the limit on file sizes, the count of chunks does not wrap.
pub proof fn lemma_count_exact(file_size: u64)
    requires
        fits_u32_chunks(file_size),
    ensures
        chunk_count(file_size) == chunks_needed(file_size as int),
        0 <= chunks_needed(file_size as int) <= 0xffff_ffff,
{
}

/// The bytes in the first `n` chunks of a file.
pub open spec fn bytes_before(n: int, file_size: int) -> int
    decreases n,
{
    if n <= 0 {
        0
    } else {
        bytes_before(n - 1, file_size) + chunk_len(n - 1, file_size)
    }
}

/// The chunks lie end to end from the start of the file: the first `n` of them hold the first
/// `n * CHUNK_SIZE` bytes, or the whole file where it is shorter.
pub proof fn lemma_bytes_before(n: int, file_size: int)
    requires
        0 <= n,
        0 <= file_size,
    ensures
        bytes_before(n, file_size) == if chunk_offset(n) <= file_size {
            chunk_offset(n)
        } else {
            file_size
        },
    decreases n,
{
    if n > 0 {
        lemma_bytes_before(n - 1, file_size);
    }
}

/// The chunks that a file needs hold every byte of it, and each of them holds at least one: each
/// starts within the file and ends where the next one starts, the last one at the end of the file.
pub proof fn lemma_chunks_cover_file(file_size: int)
    requires
        0 <= file_size,
    ensures
        bytes_before(chunks_needed(file_size), file_size) == file_size,
        forall|i: int|
            0 <= i < chunks_needed(file_size) ==> 0 < #[trigger] chunk_len(i, file_size)
                <= CHUNK_SIZE,
        forall|i: int|
            0 <= i < chunks_needed(file_size) ==> chunk_offset(i) + #[trigger] chunk_len(
                i,
                file_size,
            ) == if i == chunks_needed(file_size) - 1 {
                file_size
            } else {
                chunk_offset(i + 1)
            },
{
    lemma_bytes_before(chunks_needed(file_size), file_size);
}

/// A chunk of which nothing is known is pending.
pub proof fn law_chunk_starts_pending(out: ChunkState)
    requires
        call_ensures(<ChunkState as Default>::default, (), out),
    ensures
        out is Pending,
{
}

} // verus!
