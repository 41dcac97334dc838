//! Driver core for the M24C64, a 64 Kbit serial EEPROM organised in 32-byte
//! pages and reached over I2C.
//!
//! The driver splits a read or a write of any length at the page boundaries
//! of the device and polls the device while it is busy with its internal
//! write cycle. It never touches the bus itself: every operation is a small
//! state machine that names the next bus transaction, and the caller carries
//! that transaction out and hands the outcome back.

pub mod device;
pub mod driver;
pub mod frame;
pub mod page;
pub mod trace;

pub use driver::{Phase, ReadStep, State, WriteStep, M24C64};
