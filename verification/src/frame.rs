//! Wire format: the bus address of the device and the frames sent to it.

use crate::page::PAGE_SIZE;
use vstd::prelude::*;

verus! {

/// Bus address of a device whose three address pins are tied low.
pub const BASE_DEVICE_ADDRESS: u8 = 0x50;

/// Bytes of the memory address that opens every transaction.
pub const HEADER_LEN: usize = 2;

/// Longest frame: the header and one whole page.
pub const FRAME_CAPACITY: usize = HEADER_LEN + PAGE_SIZE;

/// Bus address of the device whose address pins read `e_addr`.
pub open spec fn device_address(e_addr: u8) -> u8 {
    e_addr | BASE_DEVICE_ADDRESS
}

/// The memory address as it goes over the wire: its low 16 bits, high byte
/// first.
pub open spec fn header(address: nat) -> Seq<u8> {
    seq![((address / 256) % 256) as u8, (address % 256) as u8]
}

/// The frame of a page write: the header, then the bytes to store.
pub open spec fn write_frame(address: nat, payload: Seq<u8>) -> Seq<u8> {
    header(address) + payload
}

/// The buffer after `frame` has been built at its front: the frame, then
/// what the buffer held behind it.
pub open spec fn loaded(scratch: Seq<u8>, frame: Seq<u8>) -> Seq<u8> {
    frame + scratch.subrange(frame.len() as int, scratch.len() as int)
}

/// Computes the bus address of the device whose address pins read `e_addr`.
pub fn bus_address(e_addr: u8) -> (device: u8)
    ensures
        device == device_address(e_addr),
{
    e_addr | BASE_DEVICE_ADDRESS
}

/// Computes the two header bytes of `address`.
pub fn header_bytes(address: usize) -> (bytes: [u8; 2])
    ensures
        bytes@ == header(address as nat),
{
    let high: u8 = ((address / 256) % 256) as u8;
    let low: u8 = (address % 256) as u8;
    let bytes: [u8; 2] = [high, low];
    assert(bytes@ =~= header(address as nat));
    bytes
}

/// A frame built at the front of the buffer is what lies there afterwards.
pub proof fn law_loaded_front(scratch: Seq<u8>, frame: Seq<u8>)
    ensures
        loaded(scratch, frame).subrange(0, frame.len() as int) == frame,
{
    assert(loaded(scratch, frame).subrange(0, frame.len() as int) =~= frame);
}

/// Building a frame changes the front of the buffer and nothing behind it:
/// the buffer keeps its length, and every byte behind the frame is the byte
/// that was there.
pub proof fn law_loaded_rest(scratch: Seq<u8>, frame: Seq<u8>)
    requires
        frame.len() <= scratch.len(),
    ensures
        loaded(scratch, frame).len() == scratch.len(),
        forall|i: int|
            frame.len() <= i < scratch.len() ==> #[trigger] loaded(scratch, frame)[i] == scratch[i],
{
}

/// With the address pins in their range the bus address is the base address
/// plus the pins' value.
pub proof fn law_device_address(e_addr: u8)
    requires
        e_addr <= 7,
    ensures
        device_address(e_addr) == BASE_DEVICE_ADDRESS + e_addr,
{
    assert(e_addr <= 7 ==> e_addr | 0x50u8 == 0x50u8 + e_addr) by (bit_vector);
}

/// The header holds the address modulo 65536, most significant byte first.
pub proof fn law_header_big_endian(address: nat)
    ensures
        header(address).len() == HEADER_LEN,
        header(address)[0] * 256 + header(address)[1] == address % 65536,
{
}

} // verus!
