//! The driver: a raw page writer with busy polling, a raw reader, and the
//! paginated write and read built on them, each as a state machine.
//!
//! An operation starts with [`M24C64::write`], [`M24C64::read`],
//! [`M24C64::write_raw`] or [`M24C64::read_raw`], which answer with the first
//! bus transaction to carry out. The caller performs it on the bus that
//! [`M24C64::bus`] lends, reports the outcome to [`M24C64::after_write`] or
//! [`M24C64::after_read`], and goes on until the answer is `Done`.

use crate::frame::{
    bus_address, device_address, header, header_bytes, law_loaded_front, law_loaded_rest, loaded,
    write_frame, FRAME_CAPACITY, HEADER_LEN,
};
use crate::page::{chunk_len, next_chunk_len, PAGE_SIZE};
use vstd::prelude::*;
use vstd::slice::slice_subrange;

verus! {

/// Times a page write is sent again after the device did not take it.
pub const MAX_RETRIES: u8 = 10;

/// Milliseconds to wait before a page write is sent again.
pub const RETRY_DELAY_MS: u32 = 1;

/// The operation in flight, as contracts see it.
pub enum Phase {
    /// No operation is in flight.
    Idle,
    /// A write of `len` bytes to `address` is in flight. The bytes of the
    /// data from offset `start` up to offset `end` are on their way in one
    /// frame, and the device has refused that frame `failures` times so far.
    Writing { address: nat, len: nat, start: nat, end: nat, failures: nat },
    /// A read of `len` bytes from `address` is in flight, and the bytes of
    /// the buffer from offset `start` up to offset `end` are asked for in one
    /// transaction.
    Reading { address: nat, len: nat, start: nat, end: nat },
}

/// The driver as contracts see it.
pub struct State {
    /// Value of the three address pins of the device.
    pub hardware_address: u8,
    /// The buffer in which the driver builds its frames, all of it.
    pub scratch: Seq<u8>,
    /// Length of the pending frame, which lies at the front of the buffer.
    pub frame_len: nat,
    /// The operation in flight.
    pub phase: Phase,
}

/// What the caller does next for a write.
#[derive(Debug, PartialEq, Eq)]
pub enum WriteStep<E> {
    /// Send the pending frame to `device`.
    Transmit { device: u8 },
    /// Wait `delay_ms` milliseconds, then send the pending frame to `device`
    /// once more.
    Retry { device: u8, delay_ms: u32 },
    /// The write is over, with this result.
    Done(Result<(), E>),
}

/// What the caller does next for a read.
#[derive(Debug, PartialEq, Eq)]
pub enum ReadStep<E> {
    /// Send the pending frame to `device` and, in the same transaction, read
    /// into the buffer from offset `start` up to offset `end`.
    Receive { device: u8, start: usize, end: usize },
    /// The read is over, with this result.
    Done(Result<(), E>),
}

impl State {
    /// Bus address of the device.
    pub open spec fn device(self) -> u8 {
        device_address(self.hardware_address)
    }

    /// The frame to send in the next transaction.
    pub open spec fn frame(self) -> Seq<u8> {
        self.scratch.subrange(0, self.frame_len as int)
    }

    /// The buffer holds a header and a page, and the pending frame lies
    /// within it. The pending frame of a write opens with the header of the
    /// address of its bytes and holds those bytes, a page's worth at most,
    /// and the write has not used up its retries. The pending frame of a read
    /// is the header of the address of the bytes asked for. Where more is to
    /// follow, the operation lies within the address range of the machine and
    /// the pending transaction moves at least one byte.
    pub open spec fn wf(self) -> bool {
        &&& self.scratch.len() == FRAME_CAPACITY
        &&& self.frame_len <= FRAME_CAPACITY
        &&& match self.phase {
            Phase::Idle => true,
            Phase::Writing { address, len, start, end, failures } => {
                &&& start <= end <= len <= usize::MAX
                &&& address <= usize::MAX
                &&& end - start <= PAGE_SIZE
                &&& failures <= MAX_RETRIES
                &&& self.frame_len == HEADER_LEN + (end - start)
                &&& self.frame().subrange(0, HEADER_LEN as int) == header(address + start)
                &&& end < len ==> start < end && address + len <= usize::MAX
            },
            Phase::Reading { address, len, start, end } => {
                &&& start <= end <= len <= usize::MAX
                &&& address <= usize::MAX
                &&& self.frame() == header(address + start)
                &&& end < len ==> start < end && address + len <= usize::MAX
            },
        }
    }

    /// A write of `len` bytes is in flight.
    pub open spec fn awaits_write(self, len: nat) -> bool {
        self.phase matches Phase::Writing { len: pending, .. } && pending == len
    }

    /// A read is in flight.
    pub open spec fn awaits_read(self) -> bool {
        self.phase is Reading
    }

    /// The state with no operation in flight.
    pub open spec fn idle(self) -> State {
        State { phase: Phase::Idle, ..self }
    }

    /// The state in which the bytes of `data` from offset `start` up to
    /// offset `end` go out in one frame for the first time.
    pub open spec fn write_range(self, address: nat, data: Seq<u8>, start: nat, end: nat) -> State {
        State {
            scratch: loaded(
                self.scratch,
                write_frame(address + start, data.subrange(start as int, end as int)),
            ),
            frame_len: (HEADER_LEN + (end - start)) as nat,
            phase: Phase::Writing { address, len: data.len(), start, end, failures: 0 },
            ..self
        }
    }

    /// The state after a raw write of `bytes` to `address` has started: all
    /// of `bytes` goes out in one frame.
    pub open spec fn raw_write_started(self, address: nat, bytes: Seq<u8>) -> State {
        self.write_range(address, bytes, 0, bytes.len())
    }

    /// The state in which the chunk of `data` that starts at offset `start`
    /// goes out for the first time.
    pub open spec fn write_chunk(self, address: nat, data: Seq<u8>, start: nat) -> State {
        self.write_range(
            address,
            data,
            start,
            start + chunk_len(address + start, (data.len() - start) as nat),
        )
    }

    /// The state after a write of `data` to `address` has started.
    pub open spec fn write_started(self, address: nat, data: Seq<u8>) -> State {
        if data.len() == 0 {
            self.idle()
        } else {
            self.write_chunk(address, data, 0)
        }
    }

    /// The state after the device took the pending frame of a write.
    pub open spec fn write_acked(self, data: Seq<u8>) -> State {
        match self.phase {
            Phase::Writing { address, len, start, end, failures } => {
                if end < len {
                    self.write_chunk(address, data, end)
                } else {
                    self.idle()
                }
            },
            _ => self,
        }
    }

    /// The state after the device refused the pending frame of a write.
    pub open spec fn write_nacked(self) -> State {
        match self.phase {
            Phase::Writing { address, len, start, end, failures } => {
                if failures < MAX_RETRIES {
                    State {
                        phase: Phase::Writing { address, len, start, end, failures: failures + 1 },
                        ..self
                    }
                } else {
                    self.idle()
                }
            },
            _ => self,
        }
    }

    /// The state in which the bytes of a read from offset `start` up to
    /// offset `end` of the buffer are asked for in one transaction.
    pub open spec fn read_range(self, address: nat, len: nat, start: nat, end: nat) -> State {
        State {
            scratch: loaded(self.scratch, header(address + start)),
            frame_len: HEADER_LEN as nat,
            phase: Phase::Reading { address, len, start, end },
            ..self
        }
    }

    /// The state after a raw read of `len` bytes from `address` has started:
    /// all of them are asked for in one transaction.
    pub open spec fn raw_read_started(self, address: nat, len: nat) -> State {
        self.read_range(address, len, 0, len)
    }

    /// The state in which the chunk of a read that starts at offset `start`
    /// of the buffer is asked for.
    pub open spec fn read_chunk(self, address: nat, len: nat, start: nat) -> State {
        self.read_range(
            address,
            len,
            start,
            start + chunk_len(address + start, (len - start) as nat),
        )
    }

    /// The state after a read of `len` bytes from `address` has started.
    pub open spec fn read_started(self, address: nat, len: nat) -> State {
        if len == 0 {
            self.idle()
        } else {
            self.read_chunk(address, len, 0)
        }
    }

    /// The state after a transaction of a read went through.
    pub open spec fn read_acked(self) -> State {
        match self.phase {
            Phase::Reading { address, len, start, end } => {
                if end < len {
                    self.read_chunk(address, len, end)
                } else {
                    self.idle()
                }
            },
            _ => self,
        }
    }

    /// The state after a transaction of a read failed.
    pub open spec fn read_nacked(self) -> State {
        match self.phase {
            Phase::Reading { .. } => self.idle(),
            _ => self,
        }
    }
}

/// The step that goes with a state in which a write has just started or has
/// just moved on to its next chunk.
pub open spec fn first_write_step<E>(state: State) -> WriteStep<E> {
    if state.phase is Idle {
        WriteStep::Done(Ok(()))
    } else {
        WriteStep::Transmit { device: state.device() }
    }
}

/// The step that goes with the state `after`, reached by reporting `outcome`
/// for the pending frame of a write.
pub open spec fn write_step<E>(after: State, outcome: Result<(), E>) -> WriteStep<E> {
    match outcome {
        Ok(_) => first_write_step(after),
        Err(e) => if after.phase is Idle {
            WriteStep::Done(Err(e))
        } else {
            WriteStep::Retry { device: after.device(), delay_ms: RETRY_DELAY_MS }
        },
    }
}

/// The step that goes with a state in which a read has just started or has
/// just moved on to its next chunk.
pub open spec fn first_read_step<E>(state: State) -> ReadStep<E> {
    match state.phase {
        Phase::Reading { address, len, start, end } => ReadStep::Receive {
            device: state.device(),
            start: start as usize,
            end: end as usize,
        },
        _ => ReadStep::Done(Ok(())),
    }
}

/// The step that goes with the state `after`, reached by reporting `outcome`
/// for the pending transaction of a read.
pub open spec fn read_step<E>(after: State, outcome: Result<(), E>) -> ReadStep<E> {
    match outcome {
        Ok(_) => first_read_step(after),
        Err(e) => ReadStep::Done(Err(e)),
    }
}

/// Every step of an operation leads from a well-formed state to a
/// well-formed state.
pub proof fn law_steps_keep_wf(state: State, address: nat, data: Seq<u8>, len: nat)
    requires
        state.wf(),
        address <= usize::MAX,
        data.len() <= usize::MAX,
        len <= usize::MAX,
    ensures
        state.idle().wf(),
        data.len() <= PAGE_SIZE ==> state.raw_write_started(address, data).wf(),
        address + data.len() <= usize::MAX ==> state.write_started(address, data).wf(),
        state.awaits_write(data.len()) ==> state.write_acked(data).wf(),
        state.write_nacked().wf(),
        state.raw_read_started(address, len).wf(),
        address + len <= usize::MAX ==> state.read_started(address, len).wf(),
        state.read_acked().wf(),
        state.read_nacked().wf(),
{
    assert forall|at: nat, start: nat, end: nat|
        at <= usize::MAX && start <= end <= data.len() && end - start <= PAGE_SIZE && (end
            < data.len() ==> start < end && at + data.len() <= usize::MAX) implies (
    #[trigger] state.write_range(at, data, start, end)).wf() by {
        let next = state.write_range(at, data, start, end);
        let frame = write_frame(at + start, data.subrange(start as int, end as int));
        law_loaded_front(state.scratch, frame);
        law_loaded_rest(state.scratch, frame);
        assert(next.frame() == frame);
        assert(frame.subrange(0, HEADER_LEN as int) =~= header(at + start));
    }
    assert forall|at: nat, of: nat, start: nat, end: nat|
        at <= usize::MAX && start <= end <= of <= usize::MAX && (end < of ==> start < end && at
            + of <= usize::MAX) implies (#[trigger] state.read_range(at, of, start, end)).wf() by {
        law_loaded_front(state.scratch, header(at + start));
        law_loaded_rest(state.scratch, header(at + start));
    }
    if data.len() <= PAGE_SIZE {
        assert(state.write_range(address, data, 0, data.len()).wf());
    }
    if address + data.len() <= usize::MAX && data.len() > 0 {
        let end = chunk_len(address, data.len());
        assert(state.write_range(address, data, 0, end).wf());
    }
    if state.awaits_write(data.len()) {
        match state.phase {
            Phase::Writing { address: at, len: of, start, end, failures } => {
                if end < of {
                    let next = end + chunk_len(at + end, (of - end) as nat);
                    assert(state.write_range(at, data, end, next).wf());
                }
            },
            _ => {},
        }
    }
    assert(state.read_range(address, len, 0, len).wf());
    if address + len <= usize::MAX && len > 0 {
        assert(state.read_range(address, len, 0, chunk_len(address, len)).wf());
    }
    match state.phase {
        Phase::Reading { address: at, len: of, start, end } => {
            if end < of {
                let next = end + chunk_len(at + end, (of - end) as nat);
                assert(state.read_range(at, of, end, next).wf());
            }
        },
        _ => {},
    }
}

#[derive(Clone, Copy)]
enum Op {
    Idle,
    Write { address: usize, len: usize, start: usize, end: usize, failures: u8 },
    Read { address: usize, len: usize, start: usize, end: usize },
}

impl Op {
    spec fn phase(self) -> Phase {
        match self {
            Op::Idle => Phase::Idle,
            Op::Write { address, len, start, end, failures } => Phase::Writing {
                address: address as nat,
                len: len as nat,
                start: start as nat,
                end: end as nat,
                failures: failures as nat,
            },
            Op::Read { address, len, start, end } => Phase::Reading {
                address: address as nat,
                len: len as nat,
                start: start as nat,
                end: end as nat,
            },
        }
    }
}

/// Driver for one M24C64 on an I2C bus.
///
/// The driver owns the bus handle, so that nothing else can put a
/// transaction between two steps of an operation, and keeps one buffer of a
/// header and a page in which it builds every frame.
pub struct M24C64<I2C> {
    i2c: I2C,
    e_addr: u8,
    cmd_buf: [u8; FRAME_CAPACITY],
    frame_len: usize,
    op: Op,
}

impl<I2C> View for M24C64<I2C> {
    type V = State;

    closed spec fn view(&self) -> State {
        State {
            hardware_address: self.e_addr,
            scratch: self.cmd_buf@,
            frame_len: self.frame_len as nat,
            phase: self.op.phase(),
        }
    }
}

impl<I2C> M24C64<I2C> {
    /// The bus handle that the driver owns.
    pub closed spec fn transport(&self) -> I2C {
        self.i2c
    }

    /// The driver is in a state that its own functions produce.
    pub open spec fn wf(&self) -> bool {
        self@.wf()
    }

    /// Makes a driver for the device on bus `i2c` whose address pins read
    /// `e_addr`. Its buffer holds zeros, no frame is pending and no
    /// operation is in flight.
    pub fn new(i2c: I2C, e_addr: u8) -> (driver: Self)
        ensures
            driver.wf(),
            driver.transport() == i2c,
            driver@ == (State {
                hardware_address: e_addr,
                scratch: Seq::new(FRAME_CAPACITY as nat, |i: int| 0u8),
                frame_len: 0,
                phase: Phase::Idle,
            }),
    {
        let driver = M24C64 {
            i2c,
            e_addr,
            cmd_buf: [0u8; FRAME_CAPACITY],
            frame_len: 0,
            op: Op::Idle,
        };
        assert(driver@.scratch =~= Seq::new(FRAME_CAPACITY as nat, |i: int| 0u8));
        driver
    }

    /// Gives the bus handle back and ends the driver.
    pub fn release(self) -> (i2c: I2C)
        ensures
            i2c == self.transport(),
    {
        self.i2c
    }

    /// Lends the bus handle together with the pending frame.
    pub fn bus(&mut self) -> (lent: (&mut I2C, &[u8]))
        requires
            old(self).wf(),
        ensures
            *lent.0 == old(self).transport(),
            lent.1@ == old(self)@.frame(),
            final(self).transport() == *final(lent.0),
            final(self)@ == old(self)@,
            final(self).wf(),
    {
        (&mut self.i2c, slice_subrange(self.cmd_buf.as_slice(), 0, self.frame_len))
    }

    /// The buffer in which the driver builds its frames, all of it.
    pub fn scratch(&self) -> (buffer: &[u8])
        ensures
            buffer@ == self@.scratch,
    {
        self.cmd_buf.as_slice()
    }

    /// Bus address of the device.
    pub fn device(&self) -> (device: u8)
        ensures
            device == self@.device(),
    {
        bus_address(self.e_addr)
    }

    /// Whether a write of `len` bytes is in flight.
    pub fn awaits_write(&self, len: usize) -> (yes: bool)
        ensures
            yes == self@.awaits_write(len as nat),
    {
        match self.op {
            Op::Write { len: pending, .. } => pending == len,
            _ => false,
        }
    }

    /// Whether a read is in flight.
    pub fn awaits_read(&self) -> (yes: bool)
        ensures
            yes == self@.awaits_read(),
    {
        match self.op {
            Op::Read { .. } => true,
            _ => false,
        }
    }

    /// Starts a raw write, which sends all of `bytes` to `address` in one
    /// frame, and names its first step.
    ///
    /// The frame is built at the front of the buffer; the bytes of the
    /// buffer behind it stay as they are. The device stores the bytes as
    /// they stand only if they end within the page that holds `address`.
    /// [`M24C64::after_write`], called with the same `bytes`, takes the
    /// outcome of each attempt.
    pub fn write_raw<E>(&mut self, address: usize, bytes: &[u8]) -> (step: WriteStep<E>)
        requires
            old(self).wf(),
            bytes.len() <= PAGE_SIZE,
        ensures
            final(self).wf(),
            final(self).transport() == old(self).transport(),
            final(self)@ == old(self)@.raw_write_started(address as nat, bytes@),
            step == (WriteStep::<E>::Transmit { device: old(self)@.device() }),
    {
        proof {
            law_steps_keep_wf(self@, address as nat, bytes@, 0);
        }
        let head: [u8; 2] = header_bytes(address);
        self.cmd_buf[0] = head[0];
        self.cmd_buf[1] = head[1];
        let n: usize = bytes.len();
        let mut i: usize = 0;
        while i < n
            invariant
                n == bytes.len(),
                n <= PAGE_SIZE,
                i <= n,
                self.i2c == old(self).i2c,
                self.e_addr == old(self).e_addr,
                self.cmd_buf@[0] == head@[0],
                self.cmd_buf@[1] == head@[1],
                forall|j: int| 0 <= j < i ==> self.cmd_buf@[j + HEADER_LEN] == bytes@[j],
                forall|j: int|
                    i + HEADER_LEN <= j < FRAME_CAPACITY ==> self.cmd_buf@[j] == old(
                        self,
                    ).cmd_buf@[j],
            decreases n - i,
        {
            self.cmd_buf[i + HEADER_LEN] = bytes[i];
            i += 1;
        }
        self.frame_len = n + HEADER_LEN;
        self.op = Op::Write { address, len: n, start: 0, end: n, failures: 0 };
        assert(bytes@.subrange(0, n as int) =~= bytes@);
        assert(self@.scratch =~= loaded(old(self)@.scratch, write_frame(address as nat, bytes@)));
        WriteStep::Transmit { device: bus_address(self.e_addr) }
    }

    /// Starts a raw read, which asks for `len` bytes from `address` on in
    /// one transaction, and names its first step.
    ///
    /// The header is built at the front of the buffer; the bytes of the
    /// buffer behind it stay as they are. [`M24C64::after_read`] takes the
    /// outcome of the transaction.
    pub fn read_raw<E>(&mut self, address: usize, len: usize) -> (step: ReadStep<E>)
        requires
            old(self).wf(),
        ensures
            final(self).wf(),
            final(self).transport() == old(self).transport(),
            final(self)@ == old(self)@.raw_read_started(address as nat, len as nat),
            step == (ReadStep::<E>::Receive { device: old(self)@.device(), start: 0, end: len }),
    {
        proof {
            law_steps_keep_wf(self@, address as nat, Seq::empty(), len as nat);
        }
        let head: [u8; 2] = header_bytes(address);
        self.cmd_buf[0] = head[0];
        self.cmd_buf[1] = head[1];
        self.frame_len = HEADER_LEN;
        self.op = Op::Read { address, len, start: 0, end: len };
        assert(self@.scratch =~= loaded(old(self)@.scratch, header(address as nat)));
        ReadStep::Receive { device: bus_address(self.e_addr), start: 0, end: len }
    }

    /// Makes the chunk of `data` that starts at offset `start` the pending
    /// one of a write to `address`.
    fn load_write_chunk(&mut self, address: usize, data: &[u8], start: usize)
        requires
            old(self).wf(),
            start < data.len(),
            address + data.len() <= usize::MAX,
        ensures
            final(self)@ == old(self)@.write_chunk(address as nat, data@, start as nat),
            final(self).transport() == old(self).transport(),
    {
        let end: usize = start + next_chunk_len(address + start, data.len() - start);
        let chunk = slice_subrange(data, start, end);
        let _: WriteStep<()> = self.write_raw(address + start, chunk);
        self.op = Op::Write { address, len: data.len(), start, end, failures: 0 };
        assert(chunk@.subrange(0, chunk@.len() as int) =~= chunk@);
    }

    /// Makes the chunk that starts at offset `start` the pending one of a
    /// read of `len` bytes from `address`.
    fn load_read_chunk(&mut self, address: usize, len: usize, start: usize) -> (end: usize)
        requires
            old(self).wf(),
            start < len,
            address + len <= usize::MAX,
        ensures
            final(self)@ == old(self)@.read_chunk(address as nat, len as nat, start as nat),
            final(self).transport() == old(self).transport(),
            end == start + chunk_len((address + start) as nat, (len - start) as nat),
    {
        let end: usize = start + next_chunk_len(address + start, len - start);
        let _: ReadStep<()> = self.read_raw(address + start, end - start);
        self.op = Op::Read { address, len, start, end };
        end
    }

    /// Starts a write of `data` to `address` and names its first step.
    ///
    /// A write of no bytes is over at once: the step is `Done(Ok(()))`, the
    /// buffer stays as it is and nothing goes over the bus.
    pub fn write<E>(&mut self, address: usize, data: &[u8]) -> (step: WriteStep<E>)
        requires
            old(self).wf(),
            address + data.len() <= usize::MAX,
        ensures
            final(self).wf(),
            final(self).transport() == old(self).transport(),
            final(self)@ == old(self)@.write_started(address as nat, data@),
            step == first_write_step::<E>(final(self)@),
            data.len() == 0 ==> step == WriteStep::<E>::Done(Ok(())) && final(self)@ == old(
                self,
            )@.idle(),
    {
        proof {
            law_steps_keep_wf(self@, address as nat, data@, 0);
        }
        if data.len() == 0 {
            self.op = Op::Idle;
            WriteStep::Done(Ok(()))
        } else {
            self.load_write_chunk(address, data, 0);
            WriteStep::Transmit { device: bus_address(self.e_addr) }
        }
    }

    /// Takes the outcome of sending the pending frame of a write and names
    /// the next step.
    ///
    /// After a success the next chunk of `data` goes out, or the write is
    /// done. After a failure the same frame goes out again, up to
    /// `MAX_RETRIES` times for one frame; the failure after that ends the
    /// write with the error that was handed in.
    pub fn after_write<E>(&mut self, data: &[u8], outcome: Result<(), E>) -> (step: WriteStep<E>)
        requires
            old(self).wf(),
            old(self)@.awaits_write(data@.len()),
        ensures
            final(self).wf(),
            final(self).transport() == old(self).transport(),
            final(self)@ == match outcome {
                Ok(_) => old(self)@.write_acked(data@),
                Err(_) => old(self)@.write_nacked(),
            },
            step == write_step(final(self)@, outcome),
    {
        proof {
            law_steps_keep_wf(self@, 0, data@, 0);
        }
        match self.op {
            Op::Write { address, len, start, end, failures } => {
                match outcome {
                    Ok(_) => {
                        if end < len {
                            self.load_write_chunk(address, data, end);
                            WriteStep::Transmit { device: bus_address(self.e_addr) }
                        } else {
                            self.op = Op::Idle;
                            WriteStep::Done(Ok(()))
                        }
                    },
                    Err(e) => {
                        if failures < MAX_RETRIES {
                            self.op = Op::Write {
                                address,
                                len,
                                start,
                                end,
                                failures: failures + 1,
                            };
                            WriteStep::Retry {
                                device: bus_address(self.e_addr),
                                delay_ms: RETRY_DELAY_MS,
                            }
                        } else {
                            self.op = Op::Idle;
                            WriteStep::Done(Err(e))
                        }
                    },
                }
            },
            _ => WriteStep::Done(outcome),
        }
    }

    /// Starts a read of `len` bytes from `address` and names its first step.
    ///
    /// A read of no bytes is over at once: the step is `Done(Ok(()))`, the
    /// buffer stays as it is and nothing goes over the bus.
    pub fn read<E>(&mut self, address: usize, len: usize) -> (step: ReadStep<E>)
        requires
            old(self).wf(),
            address + len <= usize::MAX,
        ensures
            final(self).wf(),
            final(self).transport() == old(self).transport(),
            final(self)@ == old(self)@.read_started(address as nat, len as nat),
            step == first_read_step::<E>(final(self)@),
            len == 0 ==> step == ReadStep::<E>::Done(Ok(())) && final(self)@ == old(self)@.idle(),
    {
        proof {
            law_steps_keep_wf(self@, address as nat, Seq::empty(), len as nat);
        }
        if len == 0 {
            self.op = Op::Idle;
            ReadStep::Done(Ok(()))
        } else {
            let end: usize = self.load_read_chunk(address, len, 0);
            ReadStep::Receive { device: bus_address(self.e_addr), start: 0, end }
        }
    }

    /// Takes the outcome of the pending transaction of a read and names the
    /// next step.
    ///
    /// After a success the next chunk is asked for, or the read is done. A
    /// failure ends the read at once with the error that was handed in.
    pub fn after_read<E>(&mut self, outcome: Result<(), E>) -> (step: ReadStep<E>)
        requires
            old(self).wf(),
            old(self)@.awaits_read(),
        ensures
            final(self).wf(),
            final(self).transport() == old(self).transport(),
            final(self)@ == match outcome {
                Ok(_) => old(self)@.read_acked(),
                Err(_) => old(self)@.read_nacked(),
            },
            step == read_step(final(self)@, outcome),
    {
        proof {
            law_steps_keep_wf(self@, 0, Seq::empty(), 0);
        }
        match self.op {
            Op::Read { address, len, start, end } => {
                match outcome {
                    Ok(_) => {
                        if end < len {
                            let next: usize = self.load_read_chunk(address, len, end);
                            ReadStep::Receive {
                                device: bus_address(self.e_addr),
                                start: end,
                                end: next,
                            }
                        } else {
                            self.op = Op::Idle;
                            ReadStep::Done(Ok(()))
                        }
                    },
                    Err(e) => {
                        self.op = Op::Idle;
                        ReadStep::Done(Err(e))
                    },
                }
            },
            _ => ReadStep::Done(outcome),
        }
    }
}

} // verus!
