//! Whole operations: what the driver puts on the bus from the start of a
//! write or a read to its end.

use crate::driver::{
    first_read_step, first_write_step, write_step, Phase, ReadStep, State, WriteStep, MAX_RETRIES,
    RETRY_DELAY_MS,
};
use crate::frame::{header, law_loaded_front, write_frame, HEADER_LEN};
use crate::page::{
    chunk_count, chunk_end, chunk_start, law_chunk_lengths, law_chunk_within_page,
    lemma_chunk_step, page_of, page_room, PAGE_SIZE,
};
use vstd::prelude::*;

verus! {

/// The frame that carries chunk `k` of a write of `data` to `address`.
pub open spec fn chunk_frame(address: nat, data: Seq<u8>, k: nat) -> Seq<u8> {
    write_frame(
        address + chunk_start(address, k),
        data.subrange(chunk_start(address, k) as int, chunk_end(address, data.len(), k) as int),
    )
}

/// The state after a write of `data` to `address` has started in state
/// `from` and the device has taken `k` frames without refusing any.
pub open spec fn write_run(from: State, address: nat, data: Seq<u8>, k: nat) -> State
    decreases k,
{
    if k == 0 {
        from.write_started(address, data)
    } else {
        write_run(from, address, data, (k - 1) as nat).write_acked(data)
    }
}

/// The state after the device has refused the pending frame `times` times in
/// a row, starting in state `from`.
pub open spec fn refused(from: State, times: nat) -> State
    decreases times,
{
    if times == 0 {
        from
    } else {
        refused(from, (times - 1) as nat).write_nacked()
    }
}

/// The state after a write of `data` to `address` has started in state
/// `from` and the device has taken one frame for each entry of `refusals`,
/// after refusing it as many times as the entry says.
pub open spec fn patient_run(from: State, address: nat, data: Seq<u8>, refusals: Seq<nat>) -> State
    decreases refusals.len(),
{
    if refusals.len() == 0 {
        from.write_started(address, data)
    } else {
        refused(
            patient_run(from, address, data, refusals.drop_last()),
            refusals.last(),
        ).write_acked(data)
    }
}

/// The state after a read of `len` bytes from `address` has started in state
/// `from` and `k` of its transactions have gone through.
pub open spec fn read_run(from: State, address: nat, len: nat, k: nat) -> State
    decreases k,
{
    if k == 0 {
        from.read_started(address, len)
    } else {
        read_run(from, address, len, (k - 1) as nat).read_acked()
    }
}

/// A write that the device never refuses sends one frame for each page that
/// the data touches and then ends with success.
///
/// As long as `k` is less than the number of chunks, chunk `k` is on its way
/// after `k` frames: the pending frame is the frame of chunk `k`, which
/// holds at most one page of data, all of it for one page of the device, and
/// the step is to transmit it. After as
/// many frames as there are chunks the write is done. A write of no data is
/// done before anything is sent.
pub proof fn law_write_run<E>(from: State, address: nat, data: Seq<u8>, k: nat)
    requires
        k <= chunk_count(address, data.len()),
    ensures
        write_run(from, address, data, k).hardware_address == from.hardware_address,
        k < chunk_count(address, data.len()) ==> {
            &&& write_run(from, address, data, k).phase == (Phase::Writing {
                address,
                len: data.len(),
                start: chunk_start(address, k),
                end: chunk_end(address, data.len(), k),
                failures: 0,
            })
            &&& write_run(from, address, data, k).frame() == chunk_frame(address, data, k)
            &&& chunk_frame(address, data, k).len() <= HEADER_LEN + PAGE_SIZE
            &&& page_of(address + chunk_start(address, k)) == page_of(
                (address + chunk_end(address, data.len(), k) - 1) as nat,
            )
            &&& first_write_step::<E>(write_run(from, address, data, k)) == (WriteStep::<
                E,
            >::Transmit { device: from.device() })
        },
        k == chunk_count(address, data.len()) ==> {
            &&& write_run(from, address, data, k).phase is Idle
            &&& first_write_step::<E>(write_run(from, address, data, k)) == WriteStep::<E>::Done(
                Ok(()),
            )
        },
        data.len() == 0 ==> write_run(from, address, data, 0) == from.idle(),
    decreases k,
{
    let count = chunk_count(address, data.len());
    if k > 0 {
        let before = (k - 1) as nat;
        law_write_run::<E>(from, address, data, before);
        lemma_chunk_step(address, data.len(), before);
    }
    if k < count {
        lemma_chunk_step(address, data.len(), k);
        law_chunk_lengths(address, data.len(), k);
        law_chunk_within_page(address, data.len(), k);
        let earlier = if k == 0 {
            from
        } else {
            write_run(from, address, data, (k - 1) as nat)
        };
        law_loaded_front(earlier.scratch, chunk_frame(address, data, k));
    }
}

/// One frame of a write gets eleven attempts with ten pauses between them.
///
/// Starting from the first attempt at a frame, each of the first
/// `MAX_RETRIES` refusals changes nothing but the count of refusals and is
/// answered by a retry of the same frame after a pause of `RETRY_DELAY_MS`
/// milliseconds. The refusal after that ends the write with the error handed
/// in with it. A success after at most `MAX_RETRIES` refusals has the effect
/// of a success at the first attempt.
pub proof fn law_retry_budget<E>(from: State, data: Seq<u8>, times: nat, error: E)
    requires
        from.phase matches Phase::Writing { failures, .. } && failures == 0,
        times <= MAX_RETRIES + 1,
    ensures
        times <= MAX_RETRIES ==> {
            &&& refused(from, times) == (State {
                phase: Phase::Writing {
                    address: from.phase->Writing_address,
                    len: from.phase->Writing_len,
                    start: from.phase->Writing_start,
                    end: from.phase->Writing_end,
                    failures: times,
                },
                ..from
            })
            &&& refused(from, times).frame() == from.frame()
            &&& refused(from, times).write_acked(data) == from.write_acked(data)
        },
        1 <= times <= MAX_RETRIES ==> write_step(refused(from, times), Err::<(), E>(error)) == (
        WriteStep::<E>::Retry { device: from.device(), delay_ms: RETRY_DELAY_MS }),
        times == MAX_RETRIES + 1 ==> {
            &&& refused(from, times) == from.idle()
            &&& write_step(refused(from, times), Err::<(), E>(error)) == WriteStep::<E>::Done(
                Err(error),
            )
        },
    decreases times,
{
    if times > 0 {
        law_retry_budget::<E>(from, data, (times - 1) as nat, error);
    }
}

/// A raw write sends its one frame up to eleven times and then is over.
///
/// The frame is the header of `address` and all of `bytes`. If the device
/// takes it at attempt `times + 1`, after `times` refusals and as many
/// pauses, `times` being `MAX_RETRIES` at most, the raw write ends with
/// success and none of the errors of the refusals comes out. If the device
/// refuses it `MAX_RETRIES + 1` times, the raw write ends after `MAX_RETRIES`
/// pauses with the error of the last refusal.
pub proof fn law_raw_write<E>(from: State, address: nat, bytes: Seq<u8>, times: nat, error: E)
    requires
        times <= MAX_RETRIES + 1,
    ensures
        from.raw_write_started(address, bytes).frame() == write_frame(address, bytes),
        times <= MAX_RETRIES ==> {
            &&& refused(from.raw_write_started(address, bytes), times).frame() == write_frame(
                address,
                bytes,
            )
            &&& refused(from.raw_write_started(address, bytes), times).awaits_write(bytes.len())
            &&& refused(from.raw_write_started(address, bytes), times).write_acked(bytes)
                == from.raw_write_started(address, bytes).idle()
            &&& write_step(
                refused(from.raw_write_started(address, bytes), times).write_acked(bytes),
                Ok::<(), E>(()),
            ) == WriteStep::<E>::Done(Ok(()))
        },
        1 <= times <= MAX_RETRIES ==> write_step(
            refused(from.raw_write_started(address, bytes), times),
            Err::<(), E>(error),
        ) == (WriteStep::<E>::Retry { device: from.device(), delay_ms: RETRY_DELAY_MS }),
        times == MAX_RETRIES + 1 ==> {
            &&& refused(from.raw_write_started(address, bytes), times) == from.raw_write_started(
                address,
                bytes,
            ).idle()
            &&& write_step(
                refused(from.raw_write_started(address, bytes), times),
                Err::<(), E>(error),
            ) == WriteStep::<E>::Done(Err(error))
        },
{
    let started = from.raw_write_started(address, bytes);
    law_retry_budget::<E>(started, bytes, times, error);
    law_loaded_front(from.scratch, write_frame(address, bytes));
    assert(bytes.subrange(0, bytes.len() as int) =~= bytes);
}

/// A write of data that ends within the page that holds its address is one
/// raw write.
pub proof fn law_write_within_page(from: State, address: nat, data: Seq<u8>)
    requires
        0 < data.len() <= page_room(address),
    ensures
        from.write_started(address, data) == from.raw_write_started(address, data),
        chunk_count(address, data.len()) == 1,
{
}

/// Refusals within the retry budget change nothing about the frames of a
/// write: once the device has taken a frame, the write is where it would be
/// had the device taken every frame at the first attempt.
pub proof fn law_patient_run(from: State, address: nat, data: Seq<u8>, refusals: Seq<nat>)
    requires
        refusals.len() <= chunk_count(address, data.len()),
        forall|i: int| 0 <= i < refusals.len() ==> #[trigger] refusals[i] <= MAX_RETRIES,
    ensures
        patient_run(from, address, data, refusals) == write_run(
            from,
            address,
            data,
            refusals.len(),
        ),
    decreases refusals.len(),
{
    if refusals.len() > 0 {
        let before = (refusals.len() - 1) as nat;
        law_patient_run(from, address, data, refusals.drop_last());
        law_write_run::<()>(from, address, data, before);
        law_retry_budget::<()>(write_run(from, address, data, before), data, refusals.last(), ());
    }
}

/// A read whose transactions all go through asks for one chunk for each page
/// that the range touches and then ends with success.
///
/// As long as `k` is less than the number of chunks, chunk `k` is asked for
/// after `k` transactions: the pending frame is the header of the address of
/// chunk `k`, and the step is to send it and to receive that chunk into its
/// place in the buffer. After as many transactions as there are chunks the
/// read is done. A read of no bytes is done before anything is sent.
pub proof fn law_read_run<E>(from: State, address: nat, len: nat, k: nat)
    requires
        k <= chunk_count(address, len),
        address + len <= usize::MAX,
    ensures
        read_run(from, address, len, k).hardware_address == from.hardware_address,
        k < chunk_count(address, len) ==> {
            &&& read_run(from, address, len, k).phase == (Phase::Reading {
                address,
                len,
                start: chunk_start(address, k),
                end: chunk_end(address, len, k),
            })
            &&& read_run(from, address, len, k).frame() == header(
                address + chunk_start(address, k),
            )
            &&& first_read_step::<E>(read_run(from, address, len, k)) == (ReadStep::<E>::Receive {
                device: from.device(),
                start: chunk_start(address, k) as usize,
                end: chunk_end(address, len, k) as usize,
            })
            &&& chunk_start(address, k) as usize == chunk_start(address, k)
            &&& chunk_end(address, len, k) as usize == chunk_end(address, len, k)
        },
        k == chunk_count(address, len) ==> {
            &&& read_run(from, address, len, k).phase is Idle
            &&& first_read_step::<E>(read_run(from, address, len, k)) == ReadStep::<E>::Done(Ok(()))
        },
        len == 0 ==> read_run(from, address, len, 0) == from.idle(),
    decreases k,
{
    let count = chunk_count(address, len);
    if k > 0 {
        let before = (k - 1) as nat;
        law_read_run::<E>(from, address, len, before);
        lemma_chunk_step(address, len, before);
    }
    if k < count {
        lemma_chunk_step(address, len, k);
        let earlier = if k == 0 {
            from
        } else {
            read_run(from, address, len, (k - 1) as nat)
        };
        law_loaded_front(earlier.scratch, header(address + chunk_start(address, k)));
    }
}

} // verus!
