//! Page arithmetic: how a byte range of the device splits into chunks that
//! never cross a page boundary.

use vstd::prelude::*;

verus! {

/// Bytes in one page of the device.
pub const PAGE_SIZE: usize = 32;

/// Index of the page that holds the byte at `cursor`.
pub open spec fn page_of(cursor: nat) -> nat {
    cursor / (PAGE_SIZE as nat)
}

/// Offset of the byte at `cursor` within its page.
pub open spec fn page_offset(cursor: nat) -> nat {
    cursor % (PAGE_SIZE as nat)
}

/// Bytes from `cursor` up to the end of the page that holds it.
pub open spec fn page_room(cursor: nat) -> nat {
    (PAGE_SIZE - page_offset(cursor)) as nat
}

/// Length of the chunk that starts at `cursor` when `remaining` bytes are
/// still to be moved: the rest of the page, or less if less remains.
pub open spec fn chunk_len(cursor: nat, remaining: nat) -> nat {
    if remaining <= page_room(cursor) {
        remaining
    } else {
        page_room(cursor)
    }
}

/// Number of chunks of the range `[address, address + len)`: the number of
/// pages that hold a byte of it.
pub open spec fn chunk_count(address: nat, len: nat) -> nat {
    if len == 0 {
        0
    } else {
        (page_of((address + len - 1) as nat) - page_of(address) + 1) as nat
    }
}

/// Offset into the caller's data at which chunk `k` starts.
pub open spec fn chunk_start(address: nat, k: nat) -> nat {
    if k == 0 {
        0
    } else {
        (k * PAGE_SIZE - page_offset(address)) as nat
    }
}

/// Offset into the caller's data at which chunk `k` ends.
pub open spec fn chunk_end(address: nat, len: nat, k: nat) -> nat {
    if chunk_start(address, k + 1) <= len {
        chunk_start(address, k + 1)
    } else {
        len
    }
}

/// Length of the chunk at `cursor` with `remaining` bytes to go.
pub fn next_chunk_len(cursor: usize, remaining: usize) -> (n: usize)
    ensures
        n == chunk_len(cursor as nat, remaining as nat),
{
    let room: usize = PAGE_SIZE - cursor % PAGE_SIZE;
    if remaining <= room {
        remaining
    } else {
        room
    }
}

/// Chunk `k` of a range starts inside the range, and stepping from its start
/// by `chunk_len` lands on its end.
pub proof fn lemma_chunk_step(address: nat, len: nat, k: nat)
    requires
        k < chunk_count(address, len),
    ensures
        chunk_start(address, k) < len,
        chunk_start(address, k) + chunk_len(
            address + chunk_start(address, k),
            (len - chunk_start(address, k)) as nat,
        ) == chunk_end(address, len, k),
        chunk_end(address, len, k) == len <==> k + 1 == chunk_count(address, len),
{
}

/// The chunks tile the caller's data: the first starts at offset 0, each
/// later one starts where the one before it ends, none is empty, and the
/// last ends at `len`.
pub proof fn law_chunks_tile(address: nat, len: nat, k: nat)
    requires
        k < chunk_count(address, len),
    ensures
        chunk_start(address, 0) == 0,
        chunk_start(address, k) < chunk_end(address, len, k) <= len,
        k + 1 < chunk_count(address, len) ==> chunk_end(address, len, k) == chunk_start(
            address,
            k + 1,
        ),
        k + 1 == chunk_count(address, len) ==> chunk_end(address, len, k) == len,
{
}

/// The first chunk fills what is left of the page that holds `address`, or
/// holds all of the data if that is less; every chunk between the first and
/// the last is a full page; no chunk is longer than a page.
pub proof fn law_chunk_lengths(address: nat, len: nat, k: nat)
    requires
        k < chunk_count(address, len),
    ensures
        k == 0 ==> chunk_end(address, len, k) - chunk_start(address, k) == chunk_len(address, len),
        0 < k && k + 1 < chunk_count(address, len) ==> chunk_end(address, len, k) - chunk_start(
            address,
            k,
        ) == PAGE_SIZE,
        1 <= chunk_end(address, len, k) - chunk_start(address, k) <= PAGE_SIZE,
{
}

/// Chunk `k` lies within one page of the device, the `k`-th after the page
/// that holds `address`, and every chunk but the first starts on a page
/// boundary.
pub proof fn law_chunk_within_page(address: nat, len: nat, k: nat)
    requires
        k < chunk_count(address, len),
    ensures
        page_of(address + chunk_start(address, k)) == page_of(address) + k,
        page_of((address + chunk_end(address, len, k) - 1) as nat) == page_of(address) + k,
        k > 0 ==> page_offset(address + chunk_start(address, k)) == 0,
{
}

/// An empty range has no chunk. Any other range has one chunk more than it
/// crosses page boundaries, which is the number of pages, rounded up, that
/// the range would fill if it were moved to the start of its first page.
pub proof fn law_chunk_count(address: nat, len: nat)
    ensures
        len == 0 <==> chunk_count(address, len) == 0,
        len > 0 ==> chunk_count(address, len) == page_of((address + len - 1) as nat) - page_of(
            address,
        ) + 1,
        len > 0 ==> chunk_count(address, len) == (page_offset(address) + len + PAGE_SIZE - 1) / (
        PAGE_SIZE as int),
        len > 0 ==> len <= chunk_count(address, len) * PAGE_SIZE < len + 2 * PAGE_SIZE,
{
}

} // verus!
