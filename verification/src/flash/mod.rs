//! Firmware flashing protocols: the write-request layout shared by both
//! bootloader protocols and the pure builder of a flash packet sequence.

pub mod v2;

use vstd::prelude::*;
use vstd::string::StringSliceAdditionalSpecFns;

use crate::firmware::cpu::{flash_limit_of, Cpu};
use crate::firmware::{block_bytes, block_count, FirmwareImage};
use crate::protocol::frame::{deframe_of, frame, frame_of, hi_byte, le16, lo_byte, lemma_deframe_frame, ProtocolError};
use v2::{v2_version_payload, ProtocolV2};

verus! {

/// Flash write block size.
pub const FLASH_BLOCK: usize = 0x100;

/// Fixed write-request id.
pub const WRITE_ID: u32 = 0x1d9f8d8a;

/// Which bootloader flash protocol a radio speaks.
#[derive(Debug, Clone, Copy, PartialEq, Eq, Structural)]
pub enum FlashKind {
    /// Unencrypted (bootloader beacon 0x0518).
    V2,
    /// AES-CBC-128 encrypted (bootloader beacon 0x057a).
    V5,
}

/// Errors from the flash layer.
#[derive(Debug, Clone, Copy, PartialEq, Eq, Structural)]
pub enum FlashError {
    /// A V5 radio was detected but this build has no V5 support.
    V5Unavailable,
    /// Image exceeds the maximum flashable size for its CPU.
    TooLarge,
}

/// Little-endian bytes of a 16-bit value.
pub open spec fn le16_bytes(v: u16) -> Seq<u8> {
    seq![lo_byte(v as int), hi_byte(v as int)]
}

/// Little-endian bytes of a 32-bit value.
pub open spec fn le32_bytes(v: u32) -> Seq<u8> {
    seq![
        lo_byte(v as int),
        hi_byte(v as int),
        lo_byte(v as int / 65536),
        hi_byte(v as int / 65536),
    ]
}

/// Parsed write ack: `(chunk_no, result)` when `payload` is an ack with id
/// `ack_id`, at least 11 bytes long.
pub open spec fn write_ack_of(payload: Seq<u8>, ack_id: u16) -> Option<(u16, u8)> {
    if payload.len() >= 11 && le16(payload[0], payload[1]) == ack_id {
        Some((le16(payload[8], payload[9]) as u16, payload[10]))
    } else {
        None
    }
}

/// A bootloader flash protocol.
pub trait FlashProtocol {
    /// Identifier of the write-ack datagram.
    spec fn spec_ack_id(&self) -> u16;

    /// Beacon datagram id.
    fn beacon_id(&self) -> u16;

    /// Write-ack datagram id.
    fn ack_id(&self) -> (r: u16)
        ensures
            r == self.spec_ack_id(),
    ;

    /// Clear payload of the version request.
    fn version_packet(&self, version: &str) -> Vec<u8>;

    /// Called once before the first block.
    fn begin(&mut self);

    /// Clear payload of a write request for one 0xff-padded block.
    fn write_packet(
        &mut self,
        chunk_no: u16,
        chunk_count: u16,
        block: &[u8; 256],
        len: u16,
        id: u32,
    ) -> Vec<u8>;

    /// Parses a write ack into `(chunk_no, result)`, or `None` if not an ack.
    fn parse_write_ack(&self, payload: &[u8]) -> (r: Option<(u16, u8)>)
        ensures
            r == write_ack_of(payload@, self.spec_ack_id()),
    {
        if payload.len() >= 11 && payload[0] as u16 + (payload[1] as u16) * 256 == self.ack_id() {
            Some((payload[8] as u16 + (payload[9] as u16) * 256, payload[10]))
        } else {
            None
        }
    }
}

/// Clear payload of a write request.
pub open spec fn write_payload_of(
    cmd: u8,
    chunk_no: u16,
    chunk_count: u16,
    block: Seq<u8>,
    len: u16,
    id: u32,
) -> Seq<u8> {
    seq![cmd, 0x05u8, 0x0cu8, 0x01u8] + le32_bytes(id) + le16_bytes(chunk_no) + le16_bytes(
        chunk_count,
    ) + le16_bytes(len) + seq![0x00u8, 0x00u8] + block
}

proof fn lemma_le16_bytes(v: u16)
    ensures
        (v & 0xff) as u8 == lo_byte(v as int),
        (v >> 8) as u8 == hi_byte(v as int),
{
    assert(v & 0xff == v % 256) by (bit_vector);
    assert(v >> 8 == (v / 256) % 256) by (bit_vector);
}

proof fn lemma_le32_bytes(v: u32)
    ensures
        (v & 0xff) as u8 == lo_byte(v as int),
        ((v >> 8) & 0xff) as u8 == hi_byte(v as int),
        ((v >> 16) & 0xff) as u8 == lo_byte(v as int / 65536),
        (v >> 24) as u8 == hi_byte(v as int / 65536),
{
    assert(v & 0xff == v % 256) by (bit_vector);
    assert((v >> 8) & 0xff == (v / 256) % 256) by (bit_vector);
    assert((v >> 16) & 0xff == (v / 65536) % 256) by (bit_vector);
    assert(v >> 24 == ((v / 65536) / 256) % 256) by (bit_vector);
}

/// Builds the clear payload of a write request. `cmd` is `0x19` (V2) or `0x7b`
/// (V5); `block` is the already-0xff-padded 0x100-byte page.
pub fn make_write_payload(
    cmd: u8,
    chunk_no: u16,
    chunk_count: u16,
    block: &[u8; 256],
    len: u16,
    id: u32,
) -> (p: Vec<u8>)
    ensures
        p@ == write_payload_of(cmd, chunk_no, chunk_count, block@, len, id),
{
    proof {
        lemma_le16_bytes(chunk_no);
        lemma_le16_bytes(chunk_count);
        lemma_le16_bytes(len);
        lemma_le32_bytes(id);
    }
    let mut p: Vec<u8> = Vec::with_capacity(16 + FLASH_BLOCK);
    p.push(cmd);
    p.push(0x05);
    p.push(0x0c);  // header size 0x010c, little-endian
    p.push(0x01);
    p.push((id & 0xff) as u8);
    p.push(((id >> 8) & 0xff) as u8);
    p.push(((id >> 16) & 0xff) as u8);
    p.push((id >> 24) as u8);
    p.push((chunk_no & 0xff) as u8);
    p.push((chunk_no >> 8) as u8);
    p.push((chunk_count & 0xff) as u8);
    p.push((chunk_count >> 8) as u8);
    p.push((len & 0xff) as u8);
    p.push((len >> 8) as u8);
    p.push(0x00);
    p.push(0x00);  // padding
    let ghost head = p@;
    let mut k: usize = 0;
    while k < 256
        invariant
            k <= 256,
            block@.len() == 256,
            p@ == head + block@.take(k as int),
        decreases 256 - k,
    {
        p.push(block[k]);
        assert(block@.take(k + 1) =~= block@.take(k as int).push(block@[k as int]));
        k += 1;
    }
    assert(block@.take(256) =~= block@);
    assert(p@ =~= write_payload_of(cmd, chunk_no, chunk_count, block@, len, id));
    p
}

/// Block `i` of `data` padded with `0xff` to a full page.
pub open spec fn padded_block(data: Seq<u8>, i: int) -> Seq<u8> {
    Seq::new(
        256,
        |k: int|
            if k < block_bytes(data, i).len() {
                block_bytes(data, i)[k]
            } else {
                0xffu8
            },
    )
}

/// `(chunk_no, chunk_count, padded page, len)` of page `i` of `data`.
pub open spec fn flash_block_of(data: Seq<u8>, i: int) -> (u16, u16, Seq<u8>, u16) {
    (
        i as u16,
        block_count(data.len()) as u16,
        padded_block(data, i),
        block_bytes(data, i).len() as u16,
    )
}

/// Yields `(chunk_no, chunk_count, padded_block, len)` for each FLASH_BLOCK-sized
/// page of `data` (last page 0xff-padded).
pub fn blocks(data: &[u8]) -> (r: Vec<(u16, u16, [u8; 256], u16)>)
    ensures
        r@.len() == block_count(data@.len()),
        forall|i: int|
            0 <= i < r@.len() ==> ({
                let e = #[trigger] r@[i];
                (e.0, e.1, e.2@, e.3) == flash_block_of(data@, i)
            }),
{
    let len = data.len();
    let count = len / FLASH_BLOCK + if len % FLASH_BLOCK != 0 {
        1
    } else {
        0
    };
    proof {
        crate::firmware::lemma_block_count(len as nat);
    }
    let chunk_count = count as u16;
    let mut r: Vec<(u16, u16, [u8; 256], u16)> = Vec::new();
    let mut i: usize = 0;
    while i < count
        invariant
            len == data@.len(),
            count == block_count(len as nat),
            chunk_count == count as u16,
            forall|k: nat| k < count ==> #[trigger] (k * 256) < len,
            i <= count,
            r@.len() == i,
            forall|j: int|
                0 <= j < i ==> ({
                    let e = #[trigger] r@[j];
                    (e.0, e.1, e.2@, e.3) == flash_block_of(data@, j)
                }),
        decreases count - i,
    {
        assert(i * 256 < len);
        let start = i * FLASH_BLOCK;
        let end = if len - start >= FLASH_BLOCK {
            start + FLASH_BLOCK
        } else {
            len
        };
        let ghost chunk = block_bytes(data@, i as int);
        assert(chunk =~= data@.subrange(start as int, end as int));
        let mut block = [0xffu8; 256];
        let mut k: usize = 0;
        while k < end - start
            invariant
                start <= end <= len,
                end - start <= 256,
                len == data@.len(),
                chunk == data@.subrange(start as int, end as int),
                k <= end - start,
                block@.len() == 256,
                forall|m: int| 0 <= m < k ==> block@[m] == chunk[m],
                forall|m: int| k <= m < 256 ==> block@[m] == 0xffu8,
            decreases end - start - k,
        {
            block[k] = data[start + k];
            k += 1;
        }
        assert(block@ =~= padded_block(data@, i as int));
        r.push((i as u16, chunk_count, block, (end - start) as u16));
        i += 1;
    }
    r
}

/// The framed datagrams for flashing `data` with the V2 protocol: the
/// version request, then one write request per page.
pub open spec fn v2_sequence_of(data: Seq<u8>, version: Seq<u8>, id: u32) -> Seq<Seq<u8>> {
    seq![frame_of(v2_version_payload(version))] + Seq::new(
        block_count(data.len()),
        |i: int|
            {
                let b = flash_block_of(data, i);
                frame_of(write_payload_of(0x19, b.0, b.1, b.2, b.3, id))
            },
    )
}

/// The datagram stream [`build_sequence`] yields: V5 is not available in
/// this build, and an image beyond its CPU's flash size is refused.
pub open spec fn sequence_of(
    kind: FlashKind,
    data: Seq<u8>,
    cpu: Cpu,
    version: Seq<u8>,
    id: u32,
) -> Result<Seq<Seq<u8>>, FlashError> {
    match kind {
        FlashKind::V5 => Err(FlashError::V5Unavailable),
        FlashKind::V2 => if data.len() > flash_limit_of(cpu) {
            Err(FlashError::TooLarge)
        } else {
            Ok(v2_sequence_of(data, version, id))
        },
    }
}

/// Builds the ordered, framed datagram stream for flashing `image`: the version
/// request followed by one write request per 0x100 block. Pure (no I/O).
/// This build has no V5 (AES) support, so a V5 request is refused; an image
/// larger than its CPU's flash is refused too.
pub fn build_sequence(
    kind: FlashKind,
    image: &FirmwareImage,
    version: &str,
    key_number: u8,
    id: u32,
) -> (r: Result<Vec<Vec<u8>>, FlashError>)
    ensures
        match r {
            Ok(seqs) => sequence_of(kind, image.data@, image.cpu, version.spec_bytes(), id) == Ok::<
                _,
                FlashError,
            >(seqs@.map_values(|v: Vec<u8>| v@)),
            Err(e) => sequence_of(kind, image.data@, image.cpu, version.spec_bytes(), id) == Err::<
                Seq<Seq<u8>>,
                _,
            >(e),
        },
{
    let mut proto = match kind {
        FlashKind::V2 => ProtocolV2::new(),
        FlashKind::V5 => {
            return Err(FlashError::V5Unavailable);
        },
    };
    if image.data.len() > image.cpu.flash_limit() {
        return Err(FlashError::TooLarge);
    }

    let mut out: Vec<Vec<u8>> = Vec::new();
    let vp = proto.version_packet(version);
    out.push(frame(vp.as_slice()));
    proto.begin();

    let pages = blocks(image.data.as_slice());
    let ghost spec_seq = v2_sequence_of(image.data@, version.spec_bytes(), id);
    let mut i: usize = 0;
    while i < pages.len()
        invariant
            pages@.len() == block_count(image.data@.len()),
            forall|j: int|
                0 <= j < pages@.len() ==> ({
                    let e = #[trigger] pages@[j];
                    (e.0, e.1, e.2@, e.3) == flash_block_of(image.data@, j)
                }),
            spec_seq == v2_sequence_of(image.data@, version.spec_bytes(), id),
            i <= pages@.len(),
            out@.len() == i + 1,
            forall|j: int| 0 <= j <= i ==> #[trigger] out@[j]@ == spec_seq[j],
        decreases pages@.len() - i,
    {
        let (chunk_no, chunk_count, block, len) = pages[i];
        let wp = proto.write_packet(chunk_no, chunk_count, &block, len, id);
        out.push(frame(wp.as_slice()));
        i += 1;
    }
    assert(out@.map_values(|v: Vec<u8>| v@) =~= spec_seq);
    Ok(out)
}

/// Every datagram of a V2 flash sequence decodes to its clear request: first
/// the version request, then the write request of each page in order.
pub proof fn lemma_v2_sequence_decodes(data: Seq<u8>, version: Seq<u8>, id: u32)
    ensures
        deframe_of(v2_sequence_of(data, version, id)[0]) == Ok::<_, ProtocolError>(
            v2_version_payload(version),
        ),
        forall|i: int|
            0 <= i < block_count(data.len()) ==> {
                let b = flash_block_of(data, i);
                deframe_of(#[trigger] v2_sequence_of(data, version, id)[i + 1]) == Ok::<
                    _,
                    ProtocolError,
                >(write_payload_of(0x19, b.0, b.1, b.2, b.3, id))
            },
{
    let s = v2_sequence_of(data, version, id);
    lemma_deframe_frame(v2_version_payload(version));
    assert forall|i: int| 0 <= i < block_count(data.len()) implies {
        let b = flash_block_of(data, i);
        deframe_of(#[trigger] s[i + 1]) == Ok::<_, ProtocolError>(
            write_payload_of(0x19, b.0, b.1, b.2, b.3, id),
        )
    } by {
        let b = flash_block_of(data, i);
        lemma_deframe_frame(write_payload_of(0x19, b.0, b.1, b.2, b.3, id));
    }
}

/// `p` is the clear write request for page `i` of `data`: a 16-byte header
/// (`19 05 0c 01`, the id, the page number — stated for the first `0x10000`
/// pages, where it fits its 16 bits —, the page count, the number of
/// image bytes in the page, two zero bytes) followed by all 256 bytes of the
/// page — the image bytes of the page, then `0xff` up to the page end.
pub open spec fn whole_page_request(p: Seq<u8>, data: Seq<u8>, i: int) -> bool {
    &&& p.len() == 16 + 256
    &&& p[0] == 0x19 && p[1] == 0x05 && p[2] == 0x0c && p[3] == 0x01
    &&& i < 0x10000 ==> le16(p[8], p[9]) == i
    &&& le16(p[12], p[13]) == (if data.len() - i * 256 < 256 {
        data.len() - i * 256
    } else {
        256
    })
    &&& forall|k: int|
        0 <= k < 256 ==> #[trigger] p[16 + k] == (if i * 256 + k < data.len() {
            data[i * 256 + k]
        } else {
            0xffu8
        })
}

/// Every write request of a V2 flash sequence carries a whole page, padded
/// with `0xff`, whatever the number of image bytes it announces.
pub proof fn lemma_v2_write_requests(data: Seq<u8>, version: Seq<u8>, id: u32)
    ensures
        forall|i: int|
            0 <= i < block_count(data.len()) ==> {
                let r = #[trigger] deframe_of(v2_sequence_of(data, version, id)[i + 1]);
                r is Ok && whole_page_request(r->Ok_0, data, i)
            },
{
    lemma_v2_sequence_decodes(data, version, id);
    crate::firmware::lemma_block_count(data.len());
    assert forall|i: int| 0 <= i < block_count(data.len()) implies {
        let r = #[trigger] deframe_of(v2_sequence_of(data, version, id)[i + 1]);
        r is Ok && whole_page_request(r->Ok_0, data, i)
    } by {
        let b = flash_block_of(data, i);
        let p = write_payload_of(0x19, b.0, b.1, b.2, b.3, id);
        assert((i as nat) * 256 < data.len());
        let chunk = block_bytes(data, i);
        let n = chunk.len() as int;
        assert(n == (if data.len() - i * 256 < 256 {
            data.len() - i * 256
        } else {
            256
        }));
        assert(p.len() == 272);
        assert(le16(p[8], p[9]) == b.0 as int);
        assert(le16(p[12], p[13]) == b.3 as int);
        assert(b.3 as int == n);
        assert forall|k: int| 0 <= k < 256 implies #[trigger] p[16 + k] == (if i * 256 + k
            < data.len() {
            data[i * 256 + k]
        } else {
            0xffu8
        }) by {
            assert(p[16 + k] == b.2[k]);
            if k < n {
                assert(chunk[k] == data[i * 256 + k]);
            }
        }
        assert(whole_page_request(p, data, i));
    }
}

} // verus!
