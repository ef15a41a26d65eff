//! High-level radio operations. A [`Client`] wraps any [`Transport`] and
//! implements the request/response exchanges the radio understands.

use std::time::Duration;
use vstd::prelude::*;

use crate::protocol::commands::{self, hello_payload};
use crate::protocol::frame::{deframe, deframe_of, frame, frame_of, ProtocolError};
use vstd::slice::slice_to_vec;

use crate::text::{hex_byte_text, nul_index, nul_prefix_len, push_hex_byte, push_str, string_from_utf8_lossy, utf8_lossy};
use crate::transport::{Transport, TransportError};

verus! {

/// Number of hello attempts made by [`Client::connect`].
pub const HELLO_TRIES: usize = 10;

/// Default per-transaction read timeout, in milliseconds.
pub const DEFAULT_TIMEOUT_MS: u64 = 10_000;

/// `Duration::from_millis(ms)`. `Duration` is opaque to the verifier, so
/// nothing is stated of the value returned.
#[verifier::external_body]
fn duration_from_millis(ms: u64) -> Duration {
    Duration::from_millis(ms)
}

/// Errors returned by [`Client`] operations.
#[derive(Debug)]
pub enum ClientError {
    /// Transport-level failure.
    Transport(TransportError),
    /// Malformed datagram.
    Protocol(ProtocolError),
    /// The 4-byte datagram header was not `AB CD .. 00`.
    BadMagic,
    /// The radio is in firmware-update mode but a normal-mode op was requested.
    RadioInFlashMode,
    /// A response did not match what the command expected.
    Unexpected(String),
    /// The radio never confirmed a write/flash.
    NotConfirmed(String),
    /// The radio did not answer the handshake.
    NotDetected,
}

/// One step of the conversation with the transport, as the client saw it:
/// what was asked and what came back.
pub enum Exchange {
    /// `flush_input`, with its error if it failed.
    Flush(Option<TransportError>),
    /// `write_all` of these bytes, with its error if it failed.
    Write(Seq<u8>, Option<TransportError>),
    /// `read_exact_timeout` of this many bytes: the bytes read, or its error.
    Read(nat, Result<Seq<u8>, TransportError>),
}

/// What a response read came to.
pub enum Reply {
    /// The transport failed.
    Failed(TransportError),
    /// The header was not `AB CD .. 00`.
    BadMagic,
    /// The datagram did not decode.
    Malformed(ProtocolError),
    /// The datagram decoded to this clear payload.
    Payload(Seq<u8>),
}

/// A reply header: `AB CD`, a payload length below 256, and `00`.
pub open spec fn header_ok(h: Seq<u8>) -> bool {
    h.len() == 4 && h[0] == 0xAB && h[1] == 0xCD && h[3] == 0x00
}

/// What a 4-byte header and the bytes read after it come to.
pub open spec fn decode_of(header: Seq<u8>, rest: Seq<u8>) -> Reply {
    if !header_ok(header) {
        Reply::BadMagic
    } else {
        match deframe_of(header + rest) {
            Ok(p) => Reply::Payload(p),
            Err(e) => Reply::Malformed(e),
        }
    }
}

/// The reply read by `reads`, when `reads` is a response read: a 4-byte header
/// read, then, for a good header, a read of the announced length plus CRC
/// and footer. `None` when the steps are not such a read.
pub open spec fn response_of(reads: Seq<Exchange>) -> Option<Reply> {
    if reads.len() == 0 {
        None
    } else {
        match reads[0] {
            Exchange::Read(n, res) => if n != 4 {
                None
            } else {
                match res {
                    Err(e) => if reads.len() == 1 {
                        Some(Reply::Failed(e))
                    } else {
                        None
                    },
                    Ok(h) => if h.len() != 4 {
                        None
                    } else if !header_ok(h) {
                        if reads.len() == 1 {
                            Some(Reply::BadMagic)
                        } else {
                            None
                        }
                    } else if reads.len() != 2 {
                        None
                    } else {
                        match reads[1] {
                            Exchange::Read(m, res2) => if m != h[2] + 4 {
                                None
                            } else {
                                match res2 {
                                    Err(e) => Some(Reply::Failed(e)),
                                    Ok(rest) => if rest.len() != m {
                                        None
                                    } else {
                                        Some(decode_of(h, rest))
                                    },
                                }
                            },
                            _ => None,
                        }
                    },
                }
            },
            _ => None,
        }
    }
}

/// The reply of a request/response transaction for `payload`: flush the
/// input, write the framed payload, read the response. `None` when the steps
/// are not such a transaction.
pub open spec fn transaction_of(payload: Seq<u8>, steps: Seq<Exchange>) -> Option<Reply> {
    if steps.len() == 0 {
        None
    } else {
        match steps[0] {
            Exchange::Flush(Some(e)) => if steps.len() == 1 {
                Some(Reply::Failed(e))
            } else {
                None
            },
            Exchange::Flush(None) => if steps.len() < 2 {
                None
            } else {
                match steps[1] {
                    Exchange::Write(d, w) => if d != frame_of(payload) {
                        None
                    } else {
                        match w {
                            Some(e) => if steps.len() == 2 {
                                Some(Reply::Failed(e))
                            } else {
                                None
                            },
                            None => response_of(steps.skip(2)),
                        }
                    },
                    _ => None,
                }
            },
            _ => None,
        }
    }
}

/// `r` is how the client answers `reply`: transport errors and decoding
/// errors are passed on, a payload is returned.
pub open spec fn reply_matches(reply: Reply, r: Result<Vec<u8>, ClientError>) -> bool {
    match reply {
        Reply::Failed(e) => r == Err::<Vec<u8>, _>(ClientError::Transport(e)),
        Reply::BadMagic => r matches Err(ClientError::BadMagic),
        Reply::Malformed(e) => r == Err::<Vec<u8>, _>(ClientError::Protocol(e)),
        Reply::Payload(p) => r matches Ok(v) && v@ == p,
    }
}

/// `r` is how the handshake answers `reply`: errors are passed on, a payload
/// is interpreted as a hello reply.
pub open spec fn hello_reply_matches(reply: Reply, r: Result<String, ClientError>) -> bool {
    match reply {
        Reply::Failed(e) => r == Err::<String, _>(ClientError::Transport(e)),
        Reply::BadMagic => r matches Err(ClientError::BadMagic),
        Reply::Malformed(e) => r == Err::<String, _>(ClientError::Protocol(e)),
        Reply::Payload(p) => hello_result_of(p, r),
    }
}

/// One handshake attempt: its transport steps are a hello transaction, and
/// its result is how the handshake answers that transaction's reply.
pub open spec fn hello_attempt(steps: Seq<Exchange>, r: Result<String, ClientError>) -> bool {
    transaction_of(hello_payload(), steps) matches Some(reply) && hello_reply_matches(reply, r)
}

/// The handshake ended in flash mode.
pub open spec fn is_flash_mode(r: Result<String, ClientError>) -> bool {
    r matches Err(ClientError::RadioInFlashMode)
}

/// A reply payload announcing flash mode (`0x18` broadcast).
pub open spec fn is_flash_beacon(reply: Seq<u8>) -> bool {
    reply.len() >= 1 && reply[0] == 0x18
}

/// A well-formed `0x0515` hello reply carrying the 16-byte version field.
pub open spec fn is_hello_ack(reply: Seq<u8>) -> bool {
    reply.len() >= 20 && reply[0] == 0x15 && reply[1] == 0x05
}

/// The version bytes of a hello reply: its 16-byte field at offset 4 up to
/// the first NUL.
pub open spec fn reply_version(reply: Seq<u8>) -> Seq<u8> {
    let field = reply.subrange(4, 20);
    field.take(nul_index(field, 0))
}

/// How a hello reply payload is answered: flash mode, the version text, or
/// an unexpected-reply error naming the first byte.
pub open spec fn hello_result_of(reply: Seq<u8>, r: Result<String, ClientError>) -> bool {
    if is_flash_beacon(reply) {
        r matches Err(ClientError::RadioInFlashMode)
    } else if is_hello_ack(reply) {
        r matches Ok(v) && v@ == utf8_lossy(reply_version(reply))
    } else {
        r matches Err(ClientError::Unexpected(m)) && m@ == "hello reply cmd="@ + hex_byte_text(
            if reply.len() > 0 {
                reply[0]
            } else {
                0
            },
        )
    }
}

/// Interprets the clear payload of a hello reply.
pub fn parse_hello_reply(reply: &[u8]) -> (r: Result<String, ClientError>)
    ensures
        hello_result_of(reply@, r),
{
    if reply.len() >= 1 && reply[0] == 0x18 {
        return Err(ClientError::RadioInFlashMode);
    }
    if reply.len() < 20 || reply[0] != 0x15 || reply[1] != 0x05 {
        let mut m = String::new();
        push_str(&mut m, "hello reply cmd=");
        push_hex_byte(
            &mut m,
            if reply.len() > 0 {
                reply[0]
            } else {
                0
            },
        );
        return Err(ClientError::Unexpected(m));
    }
    let field = &reply[4..20];
    let end = nul_prefix_len(field);
    let version = string_from_utf8_lossy(&field[0..end]);
    assert(field@.subrange(0, end as int) =~= reply_version(reply@));
    Ok(version)
}

/// Decodes a response: a 4-byte header and the bytes read after it.
pub fn decode_response(header: &[u8], rest: &[u8]) -> (r: Result<Vec<u8>, ClientError>)
    requires
        header@.len() == 4,
    ensures
        reply_matches(decode_of(header@, rest@), r),
{
    if header[0] != 0xAB || header[1] != 0xCD || header[3] != 0x00 {
        return Err(ClientError::BadMagic);
    }
    let mut full = slice_to_vec(header);
    let mut tail = slice_to_vec(rest);
    full.append(&mut tail);
    match deframe(full.as_slice()) {
        Ok(p) => Ok(p),
        Err(e) => Err(ClientError::Protocol(e)),
    }
}

/// A connected (or connectable) radio.
pub struct Client<T: Transport> {
    transport: T,
    timeout: Duration,
    log: Ghost<Seq<Exchange>>,
    attempts: Ghost<Seq<(Seq<Exchange>, Result<String, ClientError>)>>,
}

impl<T: Transport> Client<T> {
    /// Every step of the conversation with the transport, in order.
    pub closed spec fn log(&self) -> Seq<Exchange> {
        self.log@
    }

    /// Every handshake attempt: its transport steps and its result.
    pub closed spec fn attempts(&self) -> Seq<(Seq<Exchange>, Result<String, ClientError>)> {
        self.attempts@
    }

    /// The read timeout.
    pub closed spec fn read_timeout(&self) -> Duration {
        self.timeout
    }

    /// Wraps `transport` with the default timeout of [`DEFAULT_TIMEOUT_MS`].
    pub fn new(transport: T) -> (c: Self)
        ensures
            c.log() == Seq::<Exchange>::empty(),
            c.attempts() == Seq::<(Seq<Exchange>, Result<String, ClientError>)>::empty(),
    {
        Self::with_timeout(transport, duration_from_millis(DEFAULT_TIMEOUT_MS))
    }

    /// Wraps `transport` with an explicit read `timeout`.
    pub fn with_timeout(transport: T, timeout: Duration) -> (c: Self)
        ensures
            c.log() == Seq::<Exchange>::empty(),
            c.attempts() == Seq::<(Seq<Exchange>, Result<String, ClientError>)>::empty(),
            c.read_timeout() == timeout,
    {
        Client { transport, timeout, log: Ghost(Seq::empty()), attempts: Ghost(Seq::empty()) }
    }

    /// Sends one command payload and returns the clear response payload.
    fn transaction(&mut self, payload: &[u8]) -> (r: Result<Vec<u8>, ClientError>)
        requires
            payload@.len() + 8 <= usize::MAX,
        ensures
            final(self).log().len() >= old(self).log().len(),
            final(self).log().take(old(self).log().len() as int) == old(self).log(),
            transaction_of(payload@, final(self).log().skip(old(self).log().len() as int)) matches Some(
                reply,
            ) && reply_matches(reply, r),
            final(self).attempts() == old(self).attempts(),
    {
        let ghost start = self.log@;
        match self.transport.flush_input() {
            Ok(()) => {
                proof {
                    self.log@ = self.log@.push(Exchange::Flush(None));
                }
            },
            Err(e) => {
                proof {
                    self.log@ = self.log@.push(Exchange::Flush(Some(e)));
                    assert(self.log@.skip(start.len() as int) =~= seq![Exchange::Flush(Some(e))]);
                    assert(self.log@.take(start.len() as int) =~= start);
                }
                return Err(ClientError::Transport(e));
            },
        }
        let datagram = frame(payload);
        match self.transport.write_all(datagram.as_slice()) {
            Ok(()) => {
                proof {
                    self.log@ = self.log@.push(Exchange::Write(datagram@, None));
                }
            },
            Err(e) => {
                proof {
                    self.log@ = self.log@.push(Exchange::Write(datagram@, Some(e)));
                    assert(self.log@.skip(start.len() as int) =~= seq![
                        Exchange::Flush(None),
                        Exchange::Write(datagram@, Some(e)),
                    ]);
                    assert(self.log@.take(start.len() as int) =~= start);
                }
                return Err(ClientError::Transport(e));
            },
        }
        let ghost mid = self.log@;
        let r = self.read_response();
        proof {
            let steps = self.log@.skip(start.len() as int);
            assert(steps.skip(2) =~= self.log@.skip(mid.len() as int));
            assert(self.log@.take(mid.len() as int)[start.len() as int] == mid[start.len() as int]);
            assert(self.log@.take(mid.len() as int)[start.len() + 1int] == mid[start.len() + 1int]);
            assert(steps[0] == Exchange::Flush(None));
            assert(steps[1] == Exchange::Write(datagram@, None));
            assert(self.log@.take(start.len() as int) =~= start);
        }
        r
    }

    /// Reads and decodes a single datagram from the transport.
    fn read_response(&mut self) -> (r: Result<Vec<u8>, ClientError>)
        ensures
            final(self).log().len() >= old(self).log().len(),
            final(self).log().take(old(self).log().len() as int) == old(self).log(),
            response_of(final(self).log().skip(old(self).log().len() as int)) matches Some(reply)
                && reply_matches(reply, r),
            final(self).attempts() == old(self).attempts(),
    {
        let ghost start = self.log@;
        let mut header = vec![0u8; 4];
        match self.transport.read_exact_timeout(header.as_mut_slice(), self.timeout) {
            Ok(_) => {
                proof {
                    self.log@ = self.log@.push(Exchange::Read(4, Ok(header@)));
                }
            },
            Err(e) => {
                proof {
                    self.log@ = self.log@.push(Exchange::Read(4, Err(e)));
                    assert(self.log@.skip(start.len() as int) =~= seq![Exchange::Read(4, Err(e))]);
                    assert(self.log@.take(start.len() as int) =~= start);
                }
                return Err(ClientError::Transport(e));
            },
        }
        if header[0] != 0xAB || header[1] != 0xCD || header[3] != 0x00 {
            proof {
                assert(self.log@.skip(start.len() as int) =~= seq![Exchange::Read(4, Ok(header@))]);
                assert(self.log@.take(start.len() as int) =~= start);
            }
            return Err(ClientError::BadMagic);
        }
        let data_len = header[2] as usize;
        let mut rest = vec![0u8; data_len + 2 + 2];
        match self.transport.read_exact_timeout(rest.as_mut_slice(), self.timeout) {
            Ok(_) => {
                proof {
                    self.log@ = self.log@.push(
                        Exchange::Read((data_len + 4) as nat, Ok(rest@)),
                    );
                    assert(self.log@.skip(start.len() as int) =~= seq![
                        Exchange::Read(4, Ok(header@)),
                        Exchange::Read((data_len + 4) as nat, Ok(rest@)),
                    ]);
                    assert(self.log@.take(start.len() as int) =~= start);
                }
            },
            Err(e) => {
                proof {
                    self.log@ = self.log@.push(Exchange::Read((data_len + 4) as nat, Err(e)));
                    assert(self.log@.skip(start.len() as int) =~= seq![
                        Exchange::Read(4, Ok(header@)),
                        Exchange::Read((data_len + 4) as nat, Err(e)),
                    ]);
                    assert(self.log@.take(start.len() as int) =~= start);
                }
                return Err(ClientError::Transport(e));
            },
        }
        decode_response(header.as_slice(), rest.as_slice())
    }

    /// Performs the handshake and returns the firmware version string.
    ///
    /// Returns [`ClientError::RadioInFlashMode`] if the radio replies with a
    /// `0x18` flash-mode broadcast instead of a `0x15` hello reply.
    pub fn hello(&mut self) -> (r: Result<String, ClientError>)
        ensures
            final(self).log().len() >= old(self).log().len(),
            final(self).log().take(old(self).log().len() as int) == old(self).log(),
            hello_attempt(final(self).log().skip(old(self).log().len() as int), r),
            final(self).attempts() == old(self).attempts().push(
                (final(self).log().skip(old(self).log().len() as int), r),
            ),
    {
        let ghost start = self.log@;
        let request = commands::hello();
        let r = match self.transaction(request.as_slice()) {
            Ok(reply) => parse_hello_reply(reply.as_slice()),
            Err(e) => Err(e),
        };
        proof {
            self.attempts@ = self.attempts@.push((self.log@.skip(start.len() as int), r));
        }
        r
    }

    /// Retries [`hello`](Self::hello) up to [`HELLO_TRIES`] times; success or
    /// flash mode ends the attempts at once, otherwise the last error is
    /// returned.
    pub fn connect(&mut self) -> (r: Result<String, ClientError>)
        ensures
            final(self).log().len() >= old(self).log().len(),
            final(self).log().take(old(self).log().len() as int) == old(self).log(),
            final(self).attempts().len() >= old(self).attempts().len(),
            final(self).attempts().take(old(self).attempts().len() as int) == old(self).attempts(),
            ({
                let a = final(self).attempts().skip(old(self).attempts().len() as int);
                &&& 1 <= a.len() <= HELLO_TRIES
                &&& forall|i: int|
                    0 <= i < a.len() - 1 ==> (#[trigger] a[i]).1 is Err && !is_flash_mode(a[i].1)
                &&& r == a.last().1
                &&& a.len() < HELLO_TRIES ==> (r is Ok || is_flash_mode(r))
                &&& forall|i: int| 0 <= i < a.len() ==> hello_attempt(#[trigger] a[i].0, a[i].1)
            }),
    {
        let ghost log0 = self.log@;
        let ghost att0 = self.attempts@;
        let mut i: usize = 0;
        loop
            invariant
                i < HELLO_TRIES,
                log0 == old(self).log@,
                att0 == old(self).attempts@,
                self.log@.len() >= log0.len(),
                self.log@.take(log0.len() as int) == log0,
                self.attempts@.len() == att0.len() + i,
                self.attempts@.take(att0.len() as int) == att0,
                forall|j: int|
                    0 <= j < i ==> (#[trigger] self.attempts@.skip(att0.len() as int)[j]).1 is Err
                        && !is_flash_mode(self.attempts@.skip(att0.len() as int)[j].1),
                forall|j: int|
                    0 <= j < i ==> hello_attempt(
                        (#[trigger] self.attempts@.skip(att0.len() as int)[j]).0,
                        self.attempts@.skip(att0.len() as int)[j].1,
                    ),
            decreases HELLO_TRIES - i,
        {
            let ghost log1 = self.log@;
            let ghost att1 = self.attempts@;
            let r = self.hello();
            proof {
                assert(self.log@.take(log0.len() as int) =~= log0) by {
                    assert(self.log@.take(log1.len() as int) == log1);
                }
                let a = self.attempts@.skip(att0.len() as int);
                assert(a =~= att1.skip(att0.len() as int).push(self.attempts@.last()));
                assert(self.attempts@.take(att0.len() as int) =~= att0);
            }
            match r {
                Ok(v) => {
                    return Ok(v);
                },
                Err(ClientError::RadioInFlashMode) => {
                    return Err(ClientError::RadioInFlashMode);
                },
                Err(e) => {
                    if i + 1 == HELLO_TRIES {
                        return Err(e);
                    }
                },
            }
            i += 1;
        }
    }
}

} // verus!
