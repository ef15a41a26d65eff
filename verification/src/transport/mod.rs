//! Byte-level transport abstraction. The core talks to any type implementing
//! [`Transport`]; [`mock::MockTransport`] is a scripted in-memory one.

pub mod mock;

use std::time::Duration;
use vstd::prelude::*;

verus! {

/// Errors returned by a [`Transport`].
#[derive(Debug, Clone, PartialEq, Eq)]
pub enum TransportError {
    /// Underlying I/O failure (message preserved for diagnostics).
    Io(String),
    /// The requested bytes did not arrive before the timeout elapsed.
    Timeout,
}

/// A discovered serial port.
#[derive(Debug, Clone, PartialEq, Eq)]
pub struct PortInfo {
    /// OS-specific port name (e.g. `/dev/ttyUSB0` or `COM3`).
    pub name: String,
}

/// A bidirectional byte stream to the radio.
///
/// Implementations promise that `read_exact_timeout` leaves the buffer's
/// length alone and reports success only with the full buffer length.
pub trait Transport {
    /// Writes the entire buffer.
    fn write_all(&mut self, data: &[u8]) -> Result<(), TransportError>;

    /// Reads exactly `buf.len()` bytes or fails with [`TransportError::Timeout`].
    fn read_exact_timeout(&mut self, buf: &mut [u8], timeout: Duration) -> (r: Result<
        usize,
        TransportError,
    >)
        ensures
            final(buf)@.len() == old(buf)@.len(),
            r matches Ok(n) ==> n == old(buf)@.len(),
    ;

    /// Discards any buffered input.
    fn flush_input(&mut self) -> Result<(), TransportError>;
}

} // verus!
