use grapple_m24c64::device::CAPACITY;
use grapple_m24c64::driver::{MAX_RETRIES, RETRY_DELAY_MS};
use grapple_m24c64::frame::{
    bus_address, header_bytes, BASE_DEVICE_ADDRESS, FRAME_CAPACITY, HEADER_LEN,
};
use grapple_m24c64::page::{next_chunk_len, PAGE_SIZE};

#[test]
fn constants_are_those_of_the_device() {
    assert_eq!(PAGE_SIZE, 32);
    assert_eq!(HEADER_LEN, 2);
    assert_eq!(FRAME_CAPACITY, PAGE_SIZE + HEADER_LEN);
    assert_eq!(BASE_DEVICE_ADDRESS, 0x50);
    assert_eq!(CAPACITY, 8192);
    assert_eq!(MAX_RETRIES, 10);
    assert_eq!(RETRY_DELAY_MS, 1);
}

#[test]
fn chunk_is_the_rest_of_the_page_or_what_remains() {
    assert_eq!(next_chunk_len(30, 5), 2);
    assert_eq!(next_chunk_len(32, 3), 3);
    assert_eq!(next_chunk_len(0, 32), 32);
    assert_eq!(next_chunk_len(0, 33), 32);
    assert_eq!(next_chunk_len(16, 40), 16);
    assert_eq!(next_chunk_len(32, 24), 24);
    assert_eq!(next_chunk_len(31, 1), 1);
    assert_eq!(next_chunk_len(31, 100), 1);
    assert_eq!(next_chunk_len(5, 0), 0);
    assert_eq!(next_chunk_len(usize::MAX, usize::MAX), 32 - usize::MAX % 32);
    for cursor in 0..200usize {
        for remaining in 0..70usize {
            assert_eq!(next_chunk_len(cursor, remaining), (32 - cursor % 32).min(remaining));
        }
    }
}

#[test]
fn header_is_big_endian() {
    assert_eq!(header_bytes(0), [0, 0]);
    assert_eq!(header_bytes(30), [0, 30]);
    assert_eq!(header_bytes(255), [0, 255]);
    assert_eq!(header_bytes(256), [1, 0]);
    assert_eq!(header_bytes(0x1fff), [0x1f, 0xff]);
    assert_eq!(header_bytes(0xabcd), [0xab, 0xcd]);
    assert_eq!(header_bytes(0x1_0000), [0, 0]);
    assert_eq!(header_bytes(0x7_abcd), [0xab, 0xcd]);
    for address in (0..70_000usize).step_by(37) {
        assert_eq!(header_bytes(address), [(address >> 8) as u8, (address & 0xff) as u8]);
    }
}

#[test]
fn bus_address_is_the_base_with_the_pins_set() {
    assert_eq!(bus_address(0), 0x50);
    assert_eq!(bus_address(1), 0x51);
    assert_eq!(bus_address(7), 0x57);
    assert_eq!(bus_address(0x0f), 0x5f);
    assert_eq!(bus_address(0x80), 0xd0);
    for pins in 0..=255u8 {
        assert_eq!(bus_address(pins), pins | 0x50);
    }
}
