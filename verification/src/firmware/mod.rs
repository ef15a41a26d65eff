//! Firmware image handling: detect raw vs vendor-encrypted images, decrypt when
//! needed, strip the embedded version, and split into flash blocks.

pub mod cpu;

use vstd::prelude::*;
use vstd::slice::slice_to_vec;

use crate::firmware::cpu::{detect_cpu, detect_cpu_of, Cpu};
use crate::protocol::crc::{crc16_of, crc16_xmodem};
use crate::protocol::frame::le16;
use crate::protocol::obfuscation::{xor_firmware, xor_with, FIRMWARE_XOR};
use crate::text::{nul_index, nul_prefix_len, string_from_utf8_lossy, utf8_lossy};

verus! {

/// Flash size of the classic V1 radio (its bootloader lives above this).
pub const MAX_FLASH: usize = 0xf000;

/// Largest image [`FirmwareImage::load`] accepts: images above the V1 limit
/// are allowed up to this size for V2/V3/K1 and custom firmware; the flash
/// path applies the per-CPU limit.
pub const MAX_IMAGE: usize = 0x14000;

/// Flash write block size.
pub const BLOCK: usize = 0x100;

/// Version string accepted by all known bootloaders.
pub const DEFAULT_VERSION: &'static str = "*.01.23";

/// Offset of the 16-byte version field inside a decrypted vendor image.
pub const VERSION_OFFSET: usize = 0x2000;

/// Errors from [`FirmwareImage::load`].
#[derive(Debug, Clone, Copy, PartialEq, Eq, Structural)]
pub enum FirmwareError {
    /// File is far too small to be firmware.
    TooSmall,
    /// Image exceeds [`MAX_IMAGE`], more than any supported radio can hold.
    TooLarge,
    /// Neither a recognizable raw image nor a decryptable vendor image.
    Invalid,
}

/// A firmware image ready to flash.
#[derive(Debug, Clone, PartialEq, Eq)]
pub struct FirmwareImage {
    /// Raw (decrypted, version-stripped) image bytes.
    pub data: Vec<u8>,
    /// Version string extracted from a vendor-encrypted image, if any.
    pub embedded_version: Option<String>,
    /// CPU detected from the image's vector table.
    pub cpu: Cpu,
}

/// The image bytes and the embedded version text.
pub open spec fn image_view(img: FirmwareImage) -> (Seq<u8>, Option<Seq<char>>) {
    (
        img.data@,
        match img.embedded_version {
            Some(v) => Some(v@),
            None => None,
        },
    )
}

/// True if `data` looks like a raw DP32G030 image (ARM vector table).
pub open spec fn looks_raw_of(data: Seq<u8>) -> bool {
    &&& data.len() >= 15
    &&& data[2] == 0x00
    &&& data[3] == 0x20
    &&& data[6] == 0x00
    &&& data[10] == 0x00
    &&& data[14] == 0x00
}

/// Removes the 16-byte version field at [`VERSION_OFFSET`] from a decrypted
/// image long enough to hold it, returning the remaining bytes and the field's
/// text up to its first NUL.
pub open spec fn strip_version_of(data: Seq<u8>) -> (Seq<u8>, Option<Seq<char>>) {
    if data.len() >= 0x2010 {
        let field = data.subrange(0x2000, 0x2010);
        (
            data.take(0x2000) + data.skip(0x2010),
            Some(utf8_lossy(field.take(nul_index(field, 0)))),
        )
    } else {
        (data, None)
    }
}

/// What loading `bytes` yields. A raw image is taken as it is; anything else
/// must be a vendor image: a little-endian CRC-16/XMODEM of the rest in its
/// last two bytes, and a raw image once decrypted, from which the version
/// field is stripped. The result must fit in [`MAX_IMAGE`].
pub open spec fn load_of(bytes: Seq<u8>) -> Result<(Seq<u8>, Option<Seq<char>>), FirmwareError> {
    if bytes.len() < 0x800 {
        Err(FirmwareError::TooSmall)
    } else if looks_raw_of(bytes) {
        if bytes.len() > MAX_IMAGE {
            Err(FirmwareError::TooLarge)
        } else {
            Ok((bytes, None))
        }
    } else {
        let n = bytes.len() as int;
        let body = bytes.take(n - 2);
        if le16(bytes[n - 2], bytes[n - 1]) != crc16_of(body) {
            Err(FirmwareError::Invalid)
        } else {
            let data = xor_with(body, FIRMWARE_XOR@);
            if !looks_raw_of(data) {
                Err(FirmwareError::Invalid)
            } else if strip_version_of(data).0.len() > MAX_IMAGE {
                Err(FirmwareError::TooLarge)
            } else {
                Ok(strip_version_of(data))
            }
        }
    }
}

/// Returns true if `data` looks like a raw DP32G030 image (ARM vector table).
pub fn looks_raw(data: &[u8]) -> (b: bool)
    ensures
        b == looks_raw_of(data@),
{
    data.len() >= 15 && data[2] == 0x00 && data[3] == 0x20 && data[6] == 0x00 && data[10] == 0x00
        && data[14] == 0x00
}

/// Offset of block `i` as the 16-bit address carried in flash packets.
pub open spec fn block_offset(i: int) -> u16 {
    (i * 256) as u16
}

/// Bytes of block `i` of `data`: at most [`BLOCK`] bytes from `i * BLOCK`.
pub open spec fn block_bytes(data: Seq<u8>, i: int) -> Seq<u8> {
    data.subrange(
        i * 256,
        if (i + 1) * 256 <= data.len() {
            (i + 1) * 256
        } else {
            data.len() as int
        },
    )
}

/// Number of blocks `data` splits into.
pub open spec fn block_count(len: nat) -> nat {
    (len + 255) / 256
}

impl FirmwareImage {
    /// Loads firmware from `bytes`, auto-detecting and decrypting a vendor image.
    pub fn load(bytes: &[u8]) -> (r: Result<Self, FirmwareError>)
        ensures
            match r {
                Ok(img) => load_of(bytes@) == Ok::<_, FirmwareError>(image_view(img)) && img.cpu
                    == detect_cpu_of(img.data@),
                Err(e) => load_of(bytes@) == Err::<(Seq<u8>, Option<Seq<char>>), _>(e),
            },
    {
        if bytes.len() < 0x800 {
            return Err(FirmwareError::TooSmall);
        }
        // Already a raw image?
        if looks_raw(bytes) {
            let data = slice_to_vec(bytes);
            if data.len() > MAX_IMAGE {
                return Err(FirmwareError::TooLarge);
            }
            let cpu = detect_cpu(data.as_slice());
            return Ok(FirmwareImage { data, embedded_version: None, cpu });
        }

        // Otherwise it must be a vendor image: CRC-terminated and encrypted.
        let n = bytes.len();
        let crc_want = crc16_xmodem(&bytes[0..n - 2]);
        let crc_got: u16 = bytes[n - 2] as u16 + (bytes[n - 1] as u16) * 256;
        if crc_got != crc_want {
            return Err(FirmwareError::Invalid);
        }

        let mut data = slice_to_vec(&bytes[0..n - 2]);
        xor_firmware(data.as_mut_slice());
        if !looks_raw(data.as_slice()) {
            return Err(FirmwareError::Invalid);
        }
        let ghost decrypted = data@;

        // Strip the 16-byte embedded version at 0x2000, if present.
        let mut embedded_version = None;
        if data.len() >= VERSION_OFFSET + 16 {
            let raw = &data.as_slice()[VERSION_OFFSET..VERSION_OFFSET + 16];
            let end = nul_prefix_len(raw);
            embedded_version = Some(string_from_utf8_lossy(&raw[0..end]));
            let mut stripped = slice_to_vec(&data.as_slice()[0..VERSION_OFFSET]);
            let mut tail = slice_to_vec(&data.as_slice()[VERSION_OFFSET + 16..data.len()]);
            stripped.append(&mut tail);
            assert(raw@.subrange(0, end as int) =~= raw@.take(end as int));
            assert(stripped@ =~= decrypted.take(0x2000) + decrypted.skip(0x2010));
            data = stripped;
        }
        if data.len() > MAX_IMAGE {
            return Err(FirmwareError::TooLarge);
        }
        let cpu = detect_cpu(data.as_slice());
        Ok(FirmwareImage { data, embedded_version, cpu })
    }

    /// Splits the image into `(offset, chunk)` pairs of at most [`BLOCK`] bytes.
    pub fn blocks(&self) -> (r: Vec<(u16, &[u8])>)
        ensures
            r@.len() == block_count(self.data@.len()),
            forall|k: int|
                0 <= k < r@.len() ==> (#[trigger] r@[k]).0 == block_offset(k) && r@[k].1@
                    == block_bytes(self.data@, k),
    {
        let len = self.data.len();
        let count = len / BLOCK + if len % BLOCK != 0 {
            1
        } else {
            0
        };
        proof {
            lemma_block_count(len as nat);
        }
        let mut r: Vec<(u16, &[u8])> = Vec::new();
        let mut i: usize = 0;
        while i < count
            invariant
                len == self.data@.len(),
                count == block_count(len as nat),
                forall|k: nat| k < count ==> #[trigger] (k * 256) < len,
                i <= count,
                r@.len() == i,
                forall|k: int|
                    0 <= k < i ==> (#[trigger] r@[k]).0 == block_offset(k) && r@[k].1@
                        == block_bytes(self.data@, k),
            decreases count - i,
        {
            assert(i * 256 < len);
            let start = i * BLOCK;
            let end = if len - start >= BLOCK {
                start + BLOCK
            } else {
                len
            };
            let chunk = &self.data.as_slice()[start..end];
            r.push(((i * BLOCK) as u16, chunk));
            i += 1;
        }
        r
    }
}

/// The block count of a length is the number of 256-byte blocks it starts,
/// and each of them starts inside the data.
pub proof fn lemma_block_count(len: nat)
    ensures
        block_count(len) == len / 256 + if len % 256 != 0 {
            1nat
        } else {
            0nat
        },
        forall|k: nat| k < block_count(len) ==> #[trigger] (k * 256) < len,
{
    assert(block_count(len) == len / 256 + if len % 256 != 0 {
        1nat
    } else {
        0nat
    }) by (nonlinear_arith);
    assert forall|k: nat| k < block_count(len) implies #[trigger] (k * 256) < len by {
        assert(k < (len + 255) / 256 ==> k * 256 < len) by (nonlinear_arith);
    }
}

/// The first `k` blocks of `data`, concatenated.
pub open spec fn concat_blocks(data: Seq<u8>, k: nat) -> Seq<u8>
    decreases k,
{
    if k == 0 {
        Seq::empty()
    } else {
        concat_blocks(data, (k - 1) as nat) + block_bytes(data, k - 1)
    }
}

proof fn lemma_concat_blocks_prefix(data: Seq<u8>, k: nat)
    requires
        k <= block_count(data.len()),
    ensures
        concat_blocks(data, k) == data.take(
            if k * 256 <= data.len() {
                (k * 256) as int
            } else {
                data.len() as int
            },
        ),
    decreases k,
{
    lemma_block_count(data.len());
    if k > 0 {
        lemma_concat_blocks_prefix(data, (k - 1) as nat);
        assert(((k - 1) as nat) * 256 < data.len());
        assert(((k - 1) as nat) * 256 == k * 256 - 256) by (nonlinear_arith)
            requires
                k > 0,
        ;
        let prev = concat_blocks(data, (k - 1) as nat);
        let end = if k * 256 <= data.len() {
            (k * 256) as int
        } else {
            data.len() as int
        };
        assert(prev + block_bytes(data, k - 1) =~= data.take(end));
    }
}

/// Splitting an image into blocks loses, duplicates and reorders nothing: the
/// blocks, concatenated in order, are the image.
pub proof fn lemma_blocks_cover(data: Seq<u8>)
    ensures
        concat_blocks(data, block_count(data.len())) == data,
{
    let n = block_count(data.len());
    lemma_concat_blocks_prefix(data, n);
    assert(n * 256 >= data.len()) by (nonlinear_arith)
        requires
            n == (data.len() + 255) / 256,
    ;
    assert(data.take(data.len() as int) =~= data);
}

/// A vendor-packed image: `raw` encrypted with [`FIRMWARE_XOR`], followed by
/// the little-endian CRC-16/XMODEM of the encrypted bytes.
pub open spec fn vendor_image_of(raw: Seq<u8>) -> Seq<u8> {
    let enc = xor_with(raw, FIRMWARE_XOR@);
    enc + seq![crate::protocol::frame::lo_byte(crc16_of(enc) as int), crate::protocol::frame::hi_byte(crc16_of(enc) as int)]
}

/// Loading a vendor-packed raw image gives back the raw image with its
/// version field stripped (and the version text), whenever the packed file is
/// big enough to count as firmware and the stripped image fits in flash.
pub proof fn lemma_load_vendor(raw: Seq<u8>)
    requires
        looks_raw_of(raw),
        raw.len() + 2 >= 0x800,
        strip_version_of(raw).0.len() <= MAX_IMAGE,
    ensures
        load_of(vendor_image_of(raw)) == Ok::<_, FirmwareError>(strip_version_of(raw)),
{
    let enc = xor_with(raw, FIRMWARE_XOR@);
    let packed = vendor_image_of(raw);
    let n = packed.len() as int;
    assert(FIRMWARE_XOR@[2] == 0xc0);
    assert(packed[2] == enc[2]);
    assert(enc[2] == 0xc0u8) by {
        assert(raw[2] == 0);
        let k = FIRMWARE_XOR@[2];
        assert(0u8 ^ k == k) by (bit_vector);
    }
    assert(!looks_raw_of(packed));
    assert(packed.take(n - 2) =~= enc);
    let c = crc16_of(enc);
    assert(le16(packed[n - 2], packed[n - 1]) == c as int);
    crate::protocol::obfuscation::lemma_xor_involution(raw, FIRMWARE_XOR@);
}

/// A file that starts like an ARM vector table (bytes 2, 6, 10 and 14 zero,
/// byte 3 `0x20`: the high halves of the stack pointer and first vectors) is a
/// raw image, whatever its other bytes: it loads unchanged, with no version.
pub proof fn lemma_load_raw(bytes: Seq<u8>)
    requires
        0x800 <= bytes.len() <= MAX_IMAGE,
        bytes[2] == 0x00,
        bytes[3] == 0x20,
        bytes[6] == 0x00,
        bytes[10] == 0x00,
        bytes[14] == 0x00,
    ensures
        load_of(bytes) == Ok::<_, FirmwareError>((bytes, None::<Seq<char>>)),
{
}

} // verus!
