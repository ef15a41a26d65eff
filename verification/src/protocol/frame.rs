//! Datagram framing: `AB CD len_lo len_hi <payload> crc_lo crc_hi DC BA`.
//! Only the payload and its CRC are obfuscated; the header, length and footer
//! are sent in the clear.

use vstd::prelude::*;
use vstd::slice::slice_to_vec;

use crate::protocol::crc::{crc16_of, crc16_xmodem};
use crate::protocol::obfuscation::{xor_payload, xor_with, PAYLOAD_XOR};

verus! {

/// Errors produced while decoding a datagram received from the radio.
#[derive(Debug, Clone, Copy, PartialEq, Eq, Structural)]
pub enum ProtocolError {
    /// Fewer bytes than the minimum framing overhead (8 bytes).
    TooShort,
    /// The `AB CD` start marker was missing.
    BadHeader,
    /// The `DC BA` end marker was missing.
    BadFooter,
    /// The declared payload length does not match the buffer size.
    LengthMismatch { declared: usize, actual: usize },
    /// The CRC did not match and was not the radio's `0xFFFF` sentinel.
    BadCrc { got: u16, want: u16 },
}

/// Low byte of a non-negative integer.
pub open spec fn lo_byte(v: int) -> u8 {
    (v % 256) as u8
}

/// Second-lowest byte of a non-negative integer.
pub open spec fn hi_byte(v: int) -> u8 {
    ((v / 256) % 256) as u8
}

/// Little-endian 16-bit value of two bytes.
pub open spec fn le16(lo: u8, hi: u8) -> int {
    lo + hi * 256
}

/// The two CRC bytes appended to a clear payload, little-endian.
pub open spec fn crc_trailer(payload: Seq<u8>) -> Seq<u8> {
    seq![lo_byte(crc16_of(payload) as int), hi_byte(crc16_of(payload) as int)]
}

/// The obfuscated datagram carrying `payload`.
pub open spec fn frame_of(payload: Seq<u8>) -> Seq<u8> {
    seq![0xABu8, 0xCDu8, lo_byte(payload.len() as int), hi_byte(payload.len() as int)]
        + xor_with(payload + crc_trailer(payload), PAYLOAD_XOR@)
        + seq![0xDCu8, 0xBAu8]
}

/// Payload length declared in a datagram header.
pub open spec fn declared_len(d: Seq<u8>) -> int {
    le16(d[2], d[3])
}

/// What decoding `d` yields: the clear payload, or the first check that fails.
/// A datagram is accepted when its de-obfuscated CRC matches the payload, or
/// when either the de-obfuscated or the on-the-wire CRC field is `0xFFFF`
/// (the radio's replies carry that value instead of a real CRC).
pub open spec fn deframe_of(d: Seq<u8>) -> Result<Seq<u8>, ProtocolError> {
    if d.len() < 8 {
        Err(ProtocolError::TooShort)
    } else if d[0] != 0xAB || d[1] != 0xCD {
        Err(ProtocolError::BadHeader)
    } else if d.len() != declared_len(d) + 8 {
        Err(
            ProtocolError::LengthMismatch {
                declared: declared_len(d) as usize,
                actual: (d.len() - 8) as usize,
            },
        )
    } else if d[d.len() - 2] != 0xDC || d[d.len() - 1] != 0xBA {
        Err(ProtocolError::BadFooter)
    } else {
        let n = declared_len(d);
        let body = xor_with(d.subrange(4, n + 6), PAYLOAD_XOR@);
        let payload = body.take(n);
        let got = le16(body[n], body[n + 1]);
        let want = crc16_of(payload);
        let raw_sentinel = d[n + 4] == 0xFF && d[n + 5] == 0xFF;
        if got != 0xFFFF && !raw_sentinel && got != want {
            Err(ProtocolError::BadCrc { got: got as u16, want })
        } else {
            Ok(payload)
        }
    }
}

/// The clear result of [`deframe`] as sequences.
pub open spec fn deframe_view(r: Result<Vec<u8>, ProtocolError>) -> Result<Seq<u8>, ProtocolError> {
    match r {
        Ok(v) => Ok(v@),
        Err(e) => Err(e),
    }
}

proof fn lemma_byte_split_usize(x: usize)
    ensures
        (x & 0xff) as u8 == lo_byte(x as int),
        ((x >> 8) & 0xff) as u8 == hi_byte(x as int),
{
    assert(x & 0xff == x % 256) by (bit_vector);
    assert((x >> 8) & 0xff == (x / 256) % 256) by (bit_vector);
}

proof fn lemma_byte_split_u16(x: u16)
    ensures
        (x & 0xff) as u8 == lo_byte(x as int),
        ((x >> 8) & 0xff) as u8 == hi_byte(x as int),
{
    assert(x & 0xff == x % 256) by (bit_vector);
    assert((x >> 8) & 0xff == (x / 256) % 256) by (bit_vector);
}

/// Builds an obfuscated datagram from a clear `payload`.
pub fn frame(payload: &[u8]) -> (out: Vec<u8>)
    requires
        payload@.len() + 8 <= usize::MAX,
    ensures
        out@ == frame_of(payload@),
{
    let len = payload.len();
    let mut out: Vec<u8> = Vec::with_capacity(len + 8);
    out.push(0xAB);
    out.push(0xCD);
    out.push((len & 0xff) as u8);
    out.push(((len >> 8) & 0xff) as u8);

    let mut body = slice_to_vec(payload);
    let crc = crc16_xmodem(payload);
    body.push((crc & 0xff) as u8);
    body.push(((crc >> 8) & 0xff) as u8);
    proof {
        lemma_byte_split_usize(len);
        lemma_byte_split_u16(crc);
        assert(body@ =~= payload@ + crc_trailer(payload@));
    }
    xor_payload(body.as_mut_slice());

    out.append(&mut body);
    out.push(0xDC);
    out.push(0xBA);
    assert(out@ =~= frame_of(payload@));
    out
}

/// Decodes an obfuscated datagram and returns the clear payload (CRC removed).
///
/// Accepts the radio's `0xFFFF` CRC sentinel as valid, whether it arrives
/// obfuscated or in the clear.
pub fn deframe(datagram: &[u8]) -> (r: Result<Vec<u8>, ProtocolError>)
    ensures
        deframe_view(r) == deframe_of(datagram@),
{
    let dlen = datagram.len();
    if dlen < 8 {
        return Err(ProtocolError::TooShort);
    }
    if datagram[0] != 0xAB || datagram[1] != 0xCD {
        return Err(ProtocolError::BadHeader);
    }
    let declared = datagram[2] as usize + (datagram[3] as usize) * 256;
    let expected_total = 4 + declared + 2 + 2;
    if dlen != expected_total {
        return Err(ProtocolError::LengthMismatch { declared, actual: dlen - 8 });
    }
    if datagram[expected_total - 2] != 0xDC || datagram[expected_total - 1] != 0xBA {
        return Err(ProtocolError::BadFooter);
    }

    // payload + 2 CRC bytes
    let mut body = slice_to_vec(&datagram[4..4 + declared + 2]);
    xor_payload(body.as_mut_slice());
    let crc_got: u16 = body[declared] as u16 + (body[declared + 1] as u16) * 256;
    let payload = slice_to_vec(&body[0..declared]);
    let crc_want = crc16_xmodem(payload.as_slice());
    let raw_sentinel = datagram[4 + declared] == 0xFF && datagram[5 + declared] == 0xFF;
    assert(payload@ =~= body@.take(declared as int));
    if crc_got != 0xFFFF && !raw_sentinel && crc_got != crc_want {
        return Err(ProtocolError::BadCrc { got: crc_got, want: crc_want });
    }
    Ok(payload)
}

/// A framed payload decodes back to itself: `deframe(frame(p)) == Ok(p)` for
/// every payload whose length fits the 16-bit length field.
pub proof fn lemma_deframe_frame(payload: Seq<u8>)
    requires
        payload.len() <= 0xffff,
    ensures
        deframe_of(frame_of(payload)) == Ok::<Seq<u8>, ProtocolError>(payload),
{
    let n = payload.len() as int;
    let d = frame_of(payload);
    let clear = payload + crc_trailer(payload);
    let obf = xor_with(clear, PAYLOAD_XOR@);
    assert(d.len() == n + 8);
    assert(declared_len(d) == n);
    assert(d.subrange(4, n + 6) =~= obf);
    crate::protocol::obfuscation::lemma_xor_involution(clear, PAYLOAD_XOR@);
    let body = xor_with(d.subrange(4, n + 6), PAYLOAD_XOR@);
    assert(body == clear);
    assert(body.take(n) =~= payload);
    let c = crc16_of(payload);
    assert(le16(body[n], body[n + 1]) == c as int);
}

/// Largest datagram payload the scanner will accept (guards against garbage on
/// the wire declaring an absurd length).
pub const MAX_SCAN_PAYLOAD: usize = 512;

/// Index of the first `0xAB` byte of `buf` at or after `i`, or `buf.len()`
/// when there is none.
pub open spec fn marker_from(buf: Seq<u8>, i: int) -> int
    decreases buf.len() - i,
{
    if i >= buf.len() {
        buf.len() as int
    } else if buf[i] == 0xAB {
        i
    } else {
        marker_from(buf, i + 1)
    }
}

/// The next marker lies between the start position and the end of the buffer.
pub proof fn lemma_marker_bounds(buf: Seq<u8>, i: int)
    requires
        0 <= i <= buf.len(),
    ensures
        i <= marker_from(buf, i) <= buf.len(),
    decreases buf.len() - i,
{
    if i < buf.len() && buf[i] != 0xAB {
        lemma_marker_bounds(buf, i + 1);
    }
}

/// One scan of the receive buffer: the next complete datagram, if any, and the
/// bytes left in the buffer afterwards. Garbage before an `AB CD` marker is
/// skipped up to the next `0xAB` (or dropped entirely when there is none); a
/// candidate with an implausible length or a wrong footer loses its first
/// byte; an incomplete candidate waits for more bytes.
pub open spec fn scan_of(buf: Seq<u8>) -> (Option<Seq<u8>>, Seq<u8>)
    decreases buf.len(),
{
    if buf.len() < 8 {
        (None, buf)
    } else if buf[0] != 0xAB || buf[1] != 0xCD {
        let m = marker_from(buf, 1);
        if m < buf.len() {
            proof {
                lemma_marker_bounds(buf, 1);
            }
            scan_of(buf.skip(m))
        } else {
            (None, Seq::empty())
        }
    } else {
        let n = declared_len(buf);
        if n > MAX_SCAN_PAYLOAD {
            scan_of(buf.skip(1))
        } else if buf.len() < n + 8 {
            (None, buf)
        } else if buf[n + 6] != 0xDC || buf[n + 7] != 0xBA {
            scan_of(buf.skip(1))
        } else {
            (Some(buf.take(n + 8)), buf.skip(n + 8))
        }
    }
}

/// A datagram with the framing the scanner looks for: `AB CD`, a length of at
/// most [`MAX_SCAN_PAYLOAD`], and `DC BA` right after payload and CRC.
pub open spec fn well_framed(f: Seq<u8>) -> bool {
    &&& f.len() >= 8
    &&& f[0] == 0xAB
    &&& f[1] == 0xCD
    &&& declared_len(f) <= MAX_SCAN_PAYLOAD
    &&& f.len() == declared_len(f) + 8
    &&& f[f.len() - 2] == 0xDC
    &&& f[f.len() - 1] == 0xBA
}

/// Extracts complete obfuscated datagrams from a byte stream, resynchronising on
/// the `AB CD` start marker. Feed bytes with [`push`](Self::push) and pull each
/// framed datagram with [`next_frame`](Self::next_frame).
#[derive(Debug)]
pub struct FrameScanner {
    buf: Vec<u8>,
}

impl View for FrameScanner {
    type V = Seq<u8>;

    /// The bytes received and not yet consumed.
    closed spec fn view(&self) -> Seq<u8> {
        self.buf@
    }
}

impl Default for FrameScanner {
    fn default() -> (s: Self)
        ensures
            s@ == Seq::<u8>::empty(),
    {
        FrameScanner { buf: Vec::new() }
    }
}

impl FrameScanner {
    /// Creates an empty scanner.
    pub fn new() -> (s: Self)
        ensures
            s@ == Seq::<u8>::empty(),
    {
        FrameScanner { buf: Vec::new() }
    }

    /// Appends received bytes to the internal buffer.
    pub fn push(&mut self, data: &[u8])
        ensures
            final(self)@ == old(self)@ + data@,
    {
        let mut i: usize = 0;
        while i < data.len()
            invariant
                i <= data@.len(),
                self.buf@ == old(self).buf@ + data@.take(i as int),
            decreases data.len() - i,
        {
            self.buf.push(data[i]);
            assert(data@.take(i + 1) =~= data@.take(i as int).push(data@[i as int]));
            i += 1;
        }
        assert(data@.take(data.len() as int) =~= data@);
    }

    /// Returns the next complete datagram (`AB CD .. DC BA`), or `None` if more
    /// bytes are needed. Leading garbage and malformed frames are discarded.
    pub fn next_frame(&mut self) -> (r: Option<Vec<u8>>)
        ensures
            (match r {
                Some(f) => Some(f@),
                None => None::<Seq<u8>>,
            }) == scan_of(old(self)@).0,
            final(self)@ == scan_of(old(self)@).1,
    {
        loop
            invariant
                scan_of(self.buf@) == scan_of(old(self).buf@),
            decreases self.buf@.len(),
        {
            let len = self.buf.len();
            // Need at least the 8-byte framing overhead to decide anything.
            if len < 8 {
                return None;
            }
            // Resynchronise to the AB CD start marker.
            if self.buf[0] != 0xAB || self.buf[1] != 0xCD {
                let mut j: usize = 1;
                while j < len && self.buf[j] != 0xAB
                    invariant
                        1 <= j <= len,
                        len == self.buf@.len(),
                        marker_from(self.buf@, j as int) == marker_from(self.buf@, 1),
                    decreases len - j,
                {
                    j += 1;
                }
                if j < len {
                    let rest = slice_to_vec(&self.buf.as_slice()[j..len]);
                    assert(rest@ =~= self.buf@.skip(j as int));
                    self.buf = rest;
                    continue;
                } else {
                    self.buf.clear();
                    return None;
                }
            }
            let declared = self.buf[2] as usize + (self.buf[3] as usize) * 256;
            if declared > MAX_SCAN_PAYLOAD {
                // Implausible length: drop the start byte and resynchronise.
                let rest = slice_to_vec(&self.buf.as_slice()[1..len]);
                assert(rest@ =~= self.buf@.skip(1));
                self.buf = rest;
                continue;
            }
            let total = 4 + declared + 2 + 2;
            if len < total {
                return None;
            }
            if self.buf[total - 2] != 0xDC || self.buf[total - 1] != 0xBA {
                // Bad footer: not a real frame here; drop one byte and retry.
                let rest = slice_to_vec(&self.buf.as_slice()[1..len]);
                assert(rest@ =~= self.buf@.skip(1));
                self.buf = rest;
                continue;
            }
            let f = slice_to_vec(&self.buf.as_slice()[0..total]);
            let rest = slice_to_vec(&self.buf.as_slice()[total..len]);
            assert(f@ =~= self.buf@.take(total as int));
            assert(rest@ =~= self.buf@.skip(total as int));
            self.buf = rest;
            return Some(f);
        }
    }
}

/// Every datagram the scanner hands out is well framed, and it is taken, with
/// what stays buffered, from the end of the bytes that were buffered: the
/// scanner only ever discards a prefix, it never reorders or invents bytes.
pub proof fn lemma_scan_sound(buf: Seq<u8>)
    ensures
        scan_of(buf).0 matches Some(f) ==> well_framed(f),
        ({
            let rest = scan_of(buf).1;
            let taken = match scan_of(buf).0 {
                Some(f) => f,
                None => Seq::<u8>::empty(),
            };
            exists|k: int| 0 <= k <= buf.len() && buf.skip(k) == taken + rest
        }),
    decreases buf.len(),
{
    let rest = scan_of(buf).1;
    let taken = match scan_of(buf).0 {
        Some(f) => f,
        None => Seq::<u8>::empty(),
    };
    if buf.len() < 8 {
        assert(buf.skip(0) =~= taken + rest);
    } else if buf[0] != 0xAB || buf[1] != 0xCD {
        let m = marker_from(buf, 1);
        lemma_marker_bounds(buf, 1);
        if m < buf.len() {
            let b2 = buf.skip(m);
            lemma_scan_sound(b2);
            let k2 = choose|k: int| 0 <= k <= b2.len() && b2.skip(k) == taken + rest;
            assert(buf.skip(m + k2) =~= b2.skip(k2));
        } else {
            assert(buf.skip(buf.len() as int) =~= taken + rest);
        }
    } else {
        let n = declared_len(buf);
        if n > MAX_SCAN_PAYLOAD || (buf.len() >= n + 8 && (buf[n + 6] != 0xDC || buf[n + 7]
            != 0xBA)) {
            let b2 = buf.skip(1);
            lemma_scan_sound(b2);
            let k2 = choose|k: int| 0 <= k <= b2.len() && b2.skip(k) == taken + rest;
            assert(buf.skip(1 + k2) =~= b2.skip(k2));
        } else if buf.len() < n + 8 {
            assert(buf.skip(0) =~= taken + rest);
        } else {
            assert(buf.skip(0) =~= taken + rest);
        }
    }
}

/// A scanner whose buffer starts with the datagram of a payload of at most
/// [`MAX_SCAN_PAYLOAD`] bytes hands out exactly that datagram and keeps the
/// bytes after it.
pub proof fn lemma_scan_frame(payload: Seq<u8>, rest: Seq<u8>)
    requires
        payload.len() <= MAX_SCAN_PAYLOAD,
    ensures
        scan_of(frame_of(payload) + rest) == (Some(frame_of(payload)), rest),
{
    let f = frame_of(payload);
    let buf = f + rest;
    let n = payload.len() as int;
    assert(f.len() == n + 8);
    assert(buf[0] == 0xAB && buf[1] == 0xCD);
    assert(declared_len(buf) == n);
    assert(buf[n + 6] == 0xDC && buf[n + 7] == 0xBA);
    assert(buf.take(n + 8) =~= f);
    assert(buf.skip(n + 8) =~= rest);
}

/// A scanner holding only the first part of a datagram (of a payload of at
/// most [`MAX_SCAN_PAYLOAD`] bytes) waits: it hands out nothing and keeps
/// every byte.
pub proof fn lemma_scan_waits(payload: Seq<u8>, k: int)
    requires
        payload.len() <= MAX_SCAN_PAYLOAD,
        0 <= k < frame_of(payload).len(),
    ensures
        scan_of(frame_of(payload).take(k)) == (None::<Seq<u8>>, frame_of(payload).take(k)),
{
    let buf = frame_of(payload).take(k);
    if k >= 8 {
        assert(buf[0] == 0xAB && buf[1] == 0xCD);
        assert(declared_len(buf) == payload.len());
    }
}

/// A datagram the scanner hands out passes every framing check of
/// [`deframe`]: decoding it can only fail on its CRC.
pub proof fn lemma_scanned_frame_decodes(f: Seq<u8>)
    requires
        well_framed(f),
    ensures
        deframe_of(f) is Ok || deframe_of(f) matches Err(ProtocolError::BadCrc { .. }),
{
}

proof fn lemma_marker_at(buf: Seq<u8>, i: int, at: int)
    requires
        0 <= i <= at < buf.len(),
        buf[at] == 0xAB,
        forall|j: int| i <= j < at ==> buf[j] != 0xAB,
    ensures
        marker_from(buf, i) == at,
    decreases at - i,
{
    if i < at {
        lemma_marker_at(buf, i + 1, at);
    }
}

/// Bytes received before a datagram, none of them `0xAB`, are skipped: the
/// scanner hands out the datagram and keeps exactly the bytes after it.
pub proof fn lemma_scan_skips_garbage(garbage: Seq<u8>, payload: Seq<u8>, rest: Seq<u8>)
    requires
        payload.len() <= MAX_SCAN_PAYLOAD,
        forall|j: int| 0 <= j < garbage.len() ==> garbage[j] != 0xAB,
    ensures
        scan_of(garbage + frame_of(payload) + rest) == (Some(frame_of(payload)), rest),
{
    let f = frame_of(payload);
    let buf = garbage + f + rest;
    let g = garbage.len() as int;
    assert(buf.skip(g) =~= f + rest);
    lemma_scan_frame(payload, rest);
    if g > 0 {
        assert(buf[0] == garbage[0]);
        assert(buf[g] == f[0]);
        assert forall|j: int| 1 <= j < g implies buf[j] != 0xAB by {
            assert(buf[j] == garbage[j]);
        }
        lemma_marker_at(buf, 1, g);
    }
}

} // verus!
