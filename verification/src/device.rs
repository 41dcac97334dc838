//! A model of the memory array of the device, and the proof that what a
//! write of the driver stores there is what a read of the driver gets back.
//!
//! The model holds what the data sheet says of the two transactions that the
//! driver uses. Of the address in the header the device takes the low 13
//! bits. During a page write its address counter steps within the page and
//! rolls over at the end of it. During a read the counter steps through the
//! whole array and rolls over at the end of the array.

use crate::frame::{header, law_header_big_endian, write_frame, HEADER_LEN};
use crate::page::{
    chunk_count, chunk_end, chunk_start, law_chunk_lengths, law_chunk_within_page,
    law_chunks_tile, page_offset, page_room, PAGE_SIZE,
};
use crate::trace::chunk_frame;
use vstd::arithmetic::div_mod::{
    lemma_add_mod_noop_right, lemma_fundamental_div_mod, lemma_mod_mod,
    lemma_mod_sub_multiples_vanish, lemma_small_mod,
};
use vstd::prelude::*;

verus! {

/// Bytes in the memory array.
pub const CAPACITY: usize = 8192;

/// The cell that a frame addresses.
pub open spec fn cell(frame: Seq<u8>) -> nat {
    ((frame[0] * 256 + frame[1]) % (CAPACITY as int)) as nat
}

/// The cell that the address counter moves to from `at` during a page
/// write.
pub open spec fn next_in_page(at: nat) -> nat {
    (at - page_offset(at) + page_offset(at + 1)) as nat
}

/// The cell that the address counter moves to from `at` during a read.
pub open spec fn next_in_array(at: nat) -> nat {
    (at + 1) % (CAPACITY as nat)
}

/// The memory after the device has stored `payload` byte by byte, starting
/// at cell `at`.
pub open spec fn program(memory: Seq<u8>, at: nat, payload: Seq<u8>) -> Seq<u8>
    decreases payload.len(),
{
    if payload.len() == 0 {
        memory
    } else {
        program(memory.update(at as int, payload[0]), next_in_page(at), payload.drop_first())
    }
}

/// The bytes that the device sends when it is read `n` bytes from cell `at`
/// on.
pub open spec fn fetch(memory: Seq<u8>, at: nat, n: nat) -> Seq<u8>
    decreases n,
{
    if n == 0 {
        Seq::empty()
    } else {
        seq![memory[at as int]] + fetch(memory, next_in_array(at), (n - 1) as nat)
    }
}

/// The memory after the device has taken the frame of a page write.
pub open spec fn page_write(memory: Seq<u8>, frame: Seq<u8>) -> Seq<u8> {
    program(memory, cell(frame), frame.subrange(HEADER_LEN as int, frame.len() as int))
}

/// The bytes that the device sends in a transaction that opens with `frame`
/// and then reads `n` bytes.
pub open spec fn sequential_read(memory: Seq<u8>, frame: Seq<u8>, n: nat) -> Seq<u8> {
    fetch(memory, cell(frame), n)
}

/// The memory after the device has taken the frames of the first `k` chunks
/// of a write of `data` to `address`.
pub open spec fn written(memory: Seq<u8>, address: nat, data: Seq<u8>, k: nat) -> Seq<u8>
    decreases k,
{
    if k == 0 {
        memory
    } else {
        page_write(
            written(memory, address, data, (k - 1) as nat),
            chunk_frame(address, data, (k - 1) as nat),
        )
    }
}

/// The chunk that holds the byte at offset `j` of the data moved to or from
/// `address`.
pub open spec fn chunk_of(address: nat, j: nat) -> nat {
    (page_offset(address) + j) / (PAGE_SIZE as nat)
}

/// The buffer after a read of `len` bytes from `address` whose transactions
/// the device has all answered: each chunk lies where its step said to put
/// it.
pub open spec fn read_back(memory: Seq<u8>, address: nat, len: nat) -> Seq<u8> {
    Seq::new(
        len,
        |j: int|
            {
                let k = chunk_of(address, j as nat);
                let start = chunk_start(address, k);
                sequential_read(
                    memory,
                    header(address + start),
                    (chunk_end(address, len, k) - start) as nat,
                )[j - start]
            },
    )
}

/// A payload that fits into the rest of its page lands in consecutive cells
/// and leaves the others as they were.
proof fn lemma_program_in_page(memory: Seq<u8>, at: nat, payload: Seq<u8>)
    requires
        memory.len() == CAPACITY,
        payload.len() > 0 ==> at < CAPACITY && page_offset(at) + payload.len() <= PAGE_SIZE,
    ensures
        program(memory, at, payload).len() == CAPACITY,
        forall|c: int|
            0 <= c < CAPACITY ==> #[trigger] program(memory, at, payload)[c] == (if at <= c < at
                + payload.len() {
                payload[c - at]
            } else {
                memory[c]
            }),
    decreases payload.len(),
{
    if payload.len() > 0 {
        let rest = payload.drop_first();
        let stored = memory.update(at as int, payload[0]);
        if rest.len() > 0 {
            assert(next_in_page(at) == at + 1);
        }
        lemma_program_in_page(stored, next_in_page(at), rest);
        assert forall|c: int| 0 <= c < CAPACITY implies #[trigger] program(memory, at, payload)[c]
            == (if at <= c < at + payload.len() {
            payload[c - at]
        } else {
            memory[c]
        }) by {
            if rest.len() > 0 && at + 1 <= c < at + 1 + rest.len() {
                assert(rest[c - (at + 1)] == payload[c - at]);
            }
        }
    }
}

/// A read gets the cells from `at` on, around the end of the array.
proof fn lemma_fetch(memory: Seq<u8>, at: nat, n: nat)
    requires
        at < CAPACITY,
    ensures
        fetch(memory, at, n).len() == n,
        forall|i: int|
            0 <= i < n ==> #[trigger] fetch(memory, at, n)[i] == memory[(at + i) % (
            CAPACITY as int)],
    decreases n,
{
    if n > 0 {
        lemma_fetch(memory, next_in_array(at), (n - 1) as nat);
        assert forall|i: int| 0 <= i < n implies #[trigger] fetch(memory, at, n)[i] == memory[(at
            + i) % (CAPACITY as int)] by {
            if i > 0 {
                assert(fetch(memory, at, n)[i] == fetch(
                    memory,
                    next_in_array(at),
                    (n - 1) as nat,
                )[i - 1]);
                assert((next_in_array(at) + (i - 1)) % (CAPACITY as int) == (at + i) % (
                CAPACITY as int));
            }
        }
    }
}

/// The data fits the array: no two of its bytes that share a cell differ.
///
/// Bytes that are the array's size apart share a cell, and of two such bytes
/// only the later one is in the memory after a write.
pub open spec fn fits_array(data: Seq<u8>) -> bool {
    forall|i: int, j: int|
        0 <= i && i + CAPACITY == j && j < data.len() ==> #[trigger] data[i] == #[trigger] data[j]
}

/// Data that is no longer than the array fits it.
pub proof fn law_short_data_fits(data: Seq<u8>)
    requires
        data.len() <= CAPACITY,
    ensures
        fits_array(data),
{
}

/// The cell in which byte `j` of data stored at `address` lies.
pub open spec fn home(address: nat, j: int) -> int {
    (address + j) % (CAPACITY as int)
}

/// The header of an address leads to the cell of that address, also at the
/// front of a longer frame.
proof fn lemma_cell(address: nat, payload: Seq<u8>)
    ensures
        cell(header(address) + payload) == home(address, 0),
        cell(header(address)) == home(address, 0),
        0 <= home(address, 0) < CAPACITY,
        page_offset(home(address, 0) as nat) == page_offset(address),
{
    law_header_big_endian(address);
    let frame = header(address) + payload;
    assert(frame[0] == header(address)[0]);
    assert(frame[1] == header(address)[1]);
    assert((address % 65536) % (CAPACITY as nat) == address % (CAPACITY as nat)) by {
        lemma_mod_mod(address as int, CAPACITY as int, 8);
    }
    assert((address % (CAPACITY as nat)) % (PAGE_SIZE as nat) == address % (PAGE_SIZE as nat)) by {
        lemma_mod_mod(address as int, PAGE_SIZE as int, 256);
    }
}

/// Bytes that share a page lie in consecutive cells.
proof fn lemma_home_in_page(address: nat, i: int)
    requires
        0 <= i,
        page_offset(address) + i < PAGE_SIZE,
    ensures
        home(address, i) == home(address, 0) + i,
{
    let at = home(address, 0);
    assert(at % (PAGE_SIZE as int) == address % (PAGE_SIZE as nat)) by {
        lemma_mod_mod(address as int, PAGE_SIZE as int, 256);
    }
    assert(at + i < CAPACITY) by {
        lemma_fundamental_div_mod(at, PAGE_SIZE as int);
    }
    assert((at + i) % (CAPACITY as int) == at + i) by {
        lemma_small_mod((at + i) as nat, CAPACITY as nat);
    }
    lemma_home_step(address, i);
}

/// Stepping on from the cell of an address, around the end of the array,
/// leads to the cell of the address stepped on.
proof fn lemma_home_step(address: nat, i: int)
    requires
        0 <= i,
    ensures
        (home(address, 0) + i) % (CAPACITY as int) == home(address, i),
{
    lemma_add_mod_noop_right(i, address as int, CAPACITY as int);
}

/// Two bytes that lie in one cell are a multiple of the array's size apart.
proof fn lemma_home_shared(address: nat, i: int, j: int)
    requires
        0 <= i < j,
        home(address, i) == home(address, j),
    ensures
        i + CAPACITY <= j,
        home(address, j - CAPACITY) == home(address, j),
{
    let c = CAPACITY as int;
    lemma_mod_sub_multiples_vanish(address + j, c);
    if j < i + c {
        lemma_fundamental_div_mod(address + i, c);
        lemma_fundamental_div_mod(address + j, c);
        let p = (address + i) / c;
        let q = (address + j) / c;
        assert(c * q - c * p == j - i);
        assert(c * (q - p) == j - i);
        assert(q - p >= 1);
    }
}

/// Where no two bytes that share a cell differ, two bytes in one cell are
/// equal.
proof fn lemma_same_cell_same_byte(address: nat, data: Seq<u8>, i: int, j: int)
    requires
        fits_array(data),
        0 <= i <= j < data.len(),
        home(address, i) == home(address, j),
    ensures
        data[i] == data[j],
    decreases j - i,
{
    if i < j {
        lemma_home_shared(address, i, j);
        assert(data[j - CAPACITY] == data[j]);
        lemma_same_cell_same_byte(address, data, i, j - CAPACITY);
    }
}

/// Moving the address and the offset against each other keeps the cell.
proof fn lemma_home_shift(address: nat, start: nat, i: int)
    requires
        0 <= i,
    ensures
        home(address + start, i) == home(address, start + i),
{
}

/// A raw write that ends within the page that holds its address stores its
/// bytes, in order, in the cells from the cell of the address on, and leaves
/// every other cell as it was.
pub proof fn law_raw_write_stored(memory: Seq<u8>, address: nat, bytes: Seq<u8>)
    requires
        memory.len() == CAPACITY,
        bytes.len() <= page_room(address),
    ensures
        page_write(memory, write_frame(address, bytes)).len() == CAPACITY,
        forall|i: int|
            0 <= i < bytes.len() ==> page_write(memory, write_frame(address, bytes))[
            #[trigger] home(address, i)] == bytes[i],
        forall|c: int|
            0 <= c < CAPACITY && !(home(address, 0) <= c < home(address, 0) + bytes.len())
                ==> #[trigger] page_write(memory, write_frame(address, bytes))[c] == memory[c],
{
    let frame = write_frame(address, bytes);
    lemma_cell(address, bytes);
    assert(frame.subrange(HEADER_LEN as int, frame.len() as int) =~= bytes);
    lemma_program_in_page(memory, cell(frame), bytes);
    assert forall|i: int| 0 <= i < bytes.len() implies page_write(memory, frame)[
    #[trigger] home(address, i)] == bytes[i] by {
        lemma_home_in_page(address, i);
    }
}

/// Taking the frame of chunk `k` puts the bytes of that chunk into their
/// cells, and the cells of the chunks before it still hold their bytes.
proof fn lemma_chunk_stored(earlier: Seq<u8>, address: nat, data: Seq<u8>, k: nat)
    requires
        earlier.len() == CAPACITY,
        fits_array(data),
        k < chunk_count(address, data.len()),
        forall|j: int|
            0 <= j < chunk_start(address, k) ==> earlier[#[trigger] home(address, j)] == data[j],
    ensures
        page_write(earlier, chunk_frame(address, data, k)).len() == CAPACITY,
        forall|j: int|
            0 <= j < chunk_end(address, data.len(), k) ==> page_write(
                earlier,
                chunk_frame(address, data, k),
            )[#[trigger] home(address, j)] == data[j],
{
    let len = data.len();
    let start = chunk_start(address, k);
    let end = chunk_end(address, len, k);
    let frame = chunk_frame(address, data, k);
    let payload = data.subrange(start as int, end as int);
    let at = cell(frame);
    let later = page_write(earlier, frame);
    law_chunks_tile(address, len, k);
    law_chunk_lengths(address, len, k);
    law_chunk_within_page(address, len, k);
    lemma_cell(address + start, payload);
    assert(frame.subrange(HEADER_LEN as int, frame.len() as int) =~= payload);
    assert(page_offset(address + start) + payload.len() <= PAGE_SIZE) by {
        if k > 0 {
            assert(page_offset(address + start) == 0);
        } else {
            assert(start == 0);
        }
    }
    lemma_program_in_page(earlier, at, payload);
    assert forall|j: int| 0 <= j < end implies later[#[trigger] home(address, j)] == data[j] by {
        let c = home(address, j);
        if at <= c < at + payload.len() {
            let i = c - at;
            lemma_home_in_page(address + start, i);
            lemma_home_shift(address, start, i);
            assert(payload[i] == data[start + i]);
            if j <= start + i {
                lemma_same_cell_same_byte(address, data, j, start + i);
            } else {
                lemma_same_cell_same_byte(address, data, start + i, j);
            }
        } else {
            if j >= start {
                lemma_home_in_page(address + start, j - start);
                lemma_home_shift(address, start, j - start);
            }
        }
    }
}

/// The offset up to which the first `k` chunks of a write cover the data.
spec fn covered(address: nat, len: nat, k: nat) -> nat {
    if k >= chunk_count(address, len) {
        len
    } else {
        chunk_start(address, k)
    }
}

/// After the first `k` chunks of a write, the bytes that they cover lie in
/// their cells.
proof fn lemma_written(memory: Seq<u8>, address: nat, data: Seq<u8>, k: nat)
    requires
        memory.len() == CAPACITY,
        fits_array(data),
        k <= chunk_count(address, data.len()),
    ensures
        written(memory, address, data, k).len() == CAPACITY,
        forall|j: int|
            0 <= j < covered(address, data.len(), k) ==> written(memory, address, data, k)[
            #[trigger] home(address, j)] == data[j],
    decreases k,
{
    if k > 0 {
        let len = data.len();
        let before = (k - 1) as nat;
        let earlier = written(memory, address, data, before);
        lemma_written(memory, address, data, before);
        law_chunks_tile(address, len, before);
        assert(covered(address, len, before) == chunk_start(address, before));
        assert(covered(address, len, k) == chunk_end(address, len, before));
        lemma_chunk_stored(earlier, address, data, before);
    }
}

/// After a whole write, reading chunk `k` gets the part of the data that
/// chunk `k` of the write held.
proof fn lemma_chunk_read(memory: Seq<u8>, address: nat, data: Seq<u8>, k: nat)
    requires
        memory.len() == CAPACITY,
        fits_array(data),
        k < chunk_count(address, data.len()),
    ensures
        sequential_read(
            written(memory, address, data, chunk_count(address, data.len())),
            header(address + chunk_start(address, k)),
            (chunk_end(address, data.len(), k) - chunk_start(address, k)) as nat,
        ) == data.subrange(
            chunk_start(address, k) as int,
            chunk_end(address, data.len(), k) as int,
        ),
{
    let len = data.len();
    let count = chunk_count(address, len);
    let stored = written(memory, address, data, count);
    let start = chunk_start(address, k);
    let end = chunk_end(address, len, k);
    let at = cell(header(address + start));
    let got = sequential_read(stored, header(address + start), (end - start) as nat);
    lemma_written(memory, address, data, count);
    law_chunks_tile(address, len, k);
    lemma_cell(address + start, Seq::empty());
    lemma_fetch(stored, at, (end - start) as nat);
    assert forall|i: int| 0 <= i < end - start implies #[trigger] got[i] == data[start + i] by {
        lemma_home_step(address + start, i);
        lemma_home_shift(address, start, i);
        assert(stored[home(address, start + i)] == data[start + i]);
    }
    assert(got =~= data.subrange(start as int, end as int));
}

/// What a write of the driver stores, a read of the driver gets back.
///
/// Let the device take every frame of a write of `data` to `address`, and
/// then answer every transaction of a read of as many bytes from the same
/// address. Then each chunk of the read is the part of `data` at the offsets
/// where the step put it, and the buffer as a whole is `data`. This holds
/// for every address and for all data that fits the array.
pub proof fn law_round_trip(memory: Seq<u8>, address: nat, data: Seq<u8>)
    requires
        memory.len() == CAPACITY,
        fits_array(data),
    ensures
        forall|k: nat|
            k < chunk_count(address, data.len()) ==> #[trigger] sequential_read(
                written(memory, address, data, chunk_count(address, data.len())),
                header(address + chunk_start(address, k)),
                (chunk_end(address, data.len(), k) - chunk_start(address, k)) as nat,
            ) == data.subrange(
                chunk_start(address, k) as int,
                chunk_end(address, data.len(), k) as int,
            ),
        read_back(
            written(memory, address, data, chunk_count(address, data.len())),
            address,
            data.len(),
        ) == data,
{
    let len = data.len();
    let count = chunk_count(address, len);
    let stored = written(memory, address, data, count);
    assert forall|k: nat| k < count implies #[trigger] sequential_read(
        stored,
        header(address + chunk_start(address, k)),
        (chunk_end(address, len, k) - chunk_start(address, k)) as nat,
    ) == data.subrange(chunk_start(address, k) as int, chunk_end(address, len, k) as int) by {
        lemma_chunk_read(memory, address, data, k);
    }
    assert forall|j: int| 0 <= j < len implies #[trigger] read_back(stored, address, len)[j]
        == data[j] by {
        let k = chunk_of(address, j as nat);
        lemma_chunk_of(address, len, j as nat);
        lemma_chunk_read(memory, address, data, k);
    }
    assert(read_back(stored, address, len) =~= data);
}

/// The chunk of the byte at offset `j` is one of the chunks of the range,
/// and holds `j`.
proof fn lemma_chunk_of(address: nat, len: nat, j: nat)
    requires
        j < len,
    ensures
        chunk_of(address, j) < chunk_count(address, len),
        chunk_start(address, chunk_of(address, j)) <= j < chunk_end(
            address,
            len,
            chunk_of(address, j),
        ),
{
}

} // verus!
