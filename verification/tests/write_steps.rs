use grapple_m24c64::driver::{MAX_RETRIES, RETRY_DELAY_MS};
use grapple_m24c64::{WriteStep, M24C64};

#[derive(Debug, PartialEq, Eq, Clone, Copy)]
struct Nack(u32);

struct Wire;

fn pending(driver: &mut M24C64<Wire>) -> Vec<u8> {
    let (_, frame) = driver.bus();
    frame.to_vec()
}

fn payload(len: usize) -> Vec<u8> {
    (0..len).map(|i| (i * 7 + 3) as u8).collect()
}

/// Runs a write that the device never refuses and collects its frames.
fn frames_of(address: usize, data: &[u8]) -> Vec<Vec<u8>> {
    let mut driver = M24C64::new(Wire, 0);
    let mut frames = Vec::new();
    let mut step: WriteStep<Nack> = driver.write(address, data);
    loop {
        match step {
            WriteStep::Transmit { device } => {
                assert_eq!(device, 0x50);
                frames.push(pending(&mut driver));
                step = driver.after_write(data, Ok(()));
            }
            WriteStep::Retry { .. } => panic!("nothing was refused"),
            WriteStep::Done(result) => {
                assert_eq!(result, Ok(()));
                return frames;
            }
        }
    }
}

#[test]
fn write_across_a_page_boundary_takes_two_chunks() {
    let data = [0xa0, 0xa1, 0xa2, 0xa3, 0xa4];
    let mut driver = M24C64::new(Wire, 0);
    let step: WriteStep<Nack> = driver.write(30, &data);
    assert_eq!(step, WriteStep::Transmit { device: 0x50 });
    assert_eq!(pending(&mut driver), vec![0x00, 30, 0xa0, 0xa1]);
    let step: WriteStep<Nack> = driver.after_write(&data, Ok(()));
    assert_eq!(step, WriteStep::Transmit { device: 0x50 });
    assert_eq!(pending(&mut driver), vec![0x00, 32, 0xa2, 0xa3, 0xa4]);
    let step: WriteStep<Nack> = driver.after_write(&data, Ok(()));
    assert_eq!(step, WriteStep::Done(Ok(())));
}

#[test]
fn write_of_one_aligned_page_takes_one_chunk() {
    let data = payload(32);
    let frames = frames_of(0, &data);
    assert_eq!(frames.len(), 1);
    assert_eq!(frames[0].len(), 34);
    assert_eq!(&frames[0][..2], &[0, 0]);
    assert_eq!(&frames[0][2..], &data[..]);
}

#[test]
fn write_of_nothing_sends_nothing() {
    let mut driver = M24C64::new(Wire, 0);
    let step: WriteStep<Nack> = driver.write(32, &[]);
    assert_eq!(step, WriteStep::Done(Ok(())));
    assert!(!driver.awaits_write(0));
    assert_eq!(pending(&mut driver), Vec::<u8>::new());
    for address in [0usize, 1, 31, 33, 8191, usize::MAX] {
        assert_eq!(frames_of(address, &[]).len(), 0);
    }
}

#[test]
fn write_sends_one_frame_for_each_page_touched() {
    for address in [0usize, 1, 5, 30, 31, 32, 33, 63, 64, 100, 8160, 8191] {
        for len in [1usize, 2, 3, 31, 32, 33, 34, 63, 64, 65, 96, 97, 200] {
            let data = payload(len);
            let frames = frames_of(address, &data);
            let pages = (address + len - 1) / 32 - address / 32 + 1;
            assert_eq!(frames.len(), pages, "address {address}, length {len}");
            assert_eq!(frames.len(), (address % 32 + len + 31) / 32);
            for frame in &frames {
                assert!(frame.len() >= 3 && frame.len() <= 34);
            }
        }
    }
}

#[test]
fn write_chunks_have_the_lengths_of_the_pages_they_fill() {
    for address in [0usize, 7, 30, 31, 32, 45, 8191] {
        for len in [1usize, 2, 25, 26, 32, 33, 64, 70, 130] {
            let data = payload(len);
            let frames = frames_of(address, &data);
            let first = (32 - address % 32).min(len);
            assert_eq!(frames[0].len() - 2, first);
            for (k, frame) in frames.iter().enumerate() {
                if k > 0 && k + 1 < frames.len() {
                    assert_eq!(frame.len() - 2, 32);
                }
            }
            let total: usize = frames.iter().map(|frame| frame.len() - 2).sum();
            assert_eq!(total, len);
        }
    }
}

#[test]
fn write_chunks_carry_the_data_in_order_at_rising_addresses() {
    let address = 0x1234 + 27;
    let data = payload(100);
    let frames = frames_of(address, &data);
    let mut offset = 0;
    for frame in &frames {
        let at = address + offset;
        assert_eq!(frame[0], (at >> 8) as u8);
        assert_eq!(frame[1], (at & 0xff) as u8);
        let n = frame.len() - 2;
        assert_eq!(&frame[2..], &data[offset..offset + n]);
        assert_eq!(at / 32, (at + n - 1) / 32, "a chunk stays within one page");
        offset += n;
    }
    assert_eq!(offset, data.len());
}

#[test]
fn header_holds_the_low_sixteen_bits_high_byte_first() {
    assert_eq!(frames_of(0x1234, &[9])[0], vec![0x12, 0x34, 9]);
    assert_eq!(frames_of(0x00ff, &[9])[0], vec![0x00, 0xff, 9]);
    assert_eq!(frames_of(0x0100, &[9])[0], vec![0x01, 0x00, 9]);
    assert_eq!(frames_of(0x1_2345, &[9])[0], vec![0x23, 0x45, 9]);
}

#[test]
fn refused_eleven_times_a_write_fails_with_the_last_error() {
    let data = payload(5);
    let mut driver = M24C64::new(Wire, 0);
    let step: WriteStep<Nack> = driver.write(0, &data);
    assert_eq!(step, WriteStep::Transmit { device: 0x50 });
    let frame = pending(&mut driver);
    let mut pauses = 0;
    for attempt in 1..=10u32 {
        let step = driver.after_write(&data, Err(Nack(attempt)));
        assert_eq!(step, WriteStep::Retry { device: 0x50, delay_ms: 1 });
        assert_eq!(pending(&mut driver), frame);
        pauses += 1;
    }
    let step = driver.after_write(&data, Err(Nack(11)));
    assert_eq!(step, WriteStep::Done(Err(Nack(11))));
    assert_eq!(pauses, 10);
    assert!(!driver.awaits_write(data.len()));
}

#[test]
fn accepted_at_the_kth_attempt_a_write_pauses_k_minus_one_times() {
    let data = payload(3);
    for k in 1..=11u32 {
        let mut driver = M24C64::new(Wire, 0);
        let mut step: WriteStep<Nack> = driver.write(64, &data);
        let mut attempts = 0;
        let mut pauses = 0;
        let result = loop {
            match step {
                WriteStep::Transmit { .. } => attempts += 1,
                WriteStep::Retry { delay_ms, .. } => {
                    assert_eq!(delay_ms, RETRY_DELAY_MS);
                    pauses += 1;
                    attempts += 1;
                }
                WriteStep::Done(result) => break result,
            }
            let outcome = if attempts == k { Ok(()) } else { Err(Nack(attempts)) };
            step = driver.after_write(&data, outcome);
        };
        assert_eq!(result, Ok(()));
        assert_eq!(attempts, k);
        assert_eq!(pauses, k - 1);
    }
}

#[test]
fn every_chunk_has_its_own_retries() {
    let data = payload(40);
    let mut driver = M24C64::new(Wire, 0);
    let mut step: WriteStep<Nack> = driver.write(0, &data);
    assert_eq!(step, WriteStep::Transmit { device: 0x50 });
    for chunk in 0..2 {
        for _ in 0..MAX_RETRIES {
            step = driver.after_write(&data, Err(Nack(0)));
            assert_eq!(step, WriteStep::Retry { device: 0x50, delay_ms: 1 });
        }
        step = driver.after_write(&data, Ok(()));
        if chunk == 0 {
            assert_eq!(step, WriteStep::Transmit { device: 0x50 });
            assert_eq!(pending(&mut driver)[..2], [0, 32]);
        }
    }
    assert_eq!(step, WriteStep::Done(Ok(())));
}

#[test]
fn a_failed_chunk_ends_the_write_without_touching_later_chunks() {
    let data = payload(70);
    let mut driver = M24C64::new(Wire, 0);
    let mut step: WriteStep<Nack> = driver.write(10, &data);
    step = match step {
        WriteStep::Transmit { .. } => driver.after_write(&data, Ok(())),
        other => panic!("unexpected step {other:?}"),
    };
    assert_eq!(step, WriteStep::Transmit { device: 0x50 });
    let second = pending(&mut driver);
    assert_eq!(second[..2], [0, 32]);
    for n in 0..11u32 {
        assert!(driver.awaits_write(70));
        step = driver.after_write(&data, Err(Nack(n)));
    }
    assert_eq!(step, WriteStep::Done(Err(Nack(10))));
    assert!(!driver.awaits_write(70));
    assert_eq!(pending(&mut driver), second);
}

#[test]
fn device_address_takes_in_the_address_pins() {
    for pins in 0..8u8 {
        let mut driver = M24C64::new(Wire, pins);
        assert_eq!(driver.device(), 0x50 + pins);
        let step: WriteStep<Nack> = driver.write(0, &[1]);
        assert_eq!(step, WriteStep::Transmit { device: 0x50 | pins });
        let step = driver.after_write(&[1], Err(Nack(0)));
        assert_eq!(step, WriteStep::Retry { device: 0x50 | pins, delay_ms: 1 });
    }
    assert_eq!(M24C64::new(Wire, 3).device(), 0x53);
}

#[test]
fn a_new_write_replaces_the_one_in_flight() {
    let first = payload(50);
    let second = payload(4);
    let mut driver = M24C64::new(Wire, 0);
    let _: WriteStep<Nack> = driver.write(0, &first);
    let _: WriteStep<Nack> = driver.after_write(&first, Err(Nack(1)));
    assert!(driver.awaits_write(50));
    let step: WriteStep<Nack> = driver.write(96, &second);
    assert_eq!(step, WriteStep::Transmit { device: 0x50 });
    assert!(driver.awaits_write(4));
    assert!(!driver.awaits_write(50));
    assert!(!driver.awaits_read());
    let mut frame = vec![0, 96];
    frame.extend_from_slice(&second);
    assert_eq!(pending(&mut driver), frame);
    for n in 0..10u32 {
        let step = driver.after_write(&second, Err(Nack(n)));
        assert_eq!(step, WriteStep::Retry { device: 0x50, delay_ms: 1 });
    }
    let step: WriteStep<Nack> = driver.after_write(&second, Ok(()));
    assert_eq!(step, WriteStep::Done(Ok(())));
}
