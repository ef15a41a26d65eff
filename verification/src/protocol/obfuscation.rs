//! XOR obfuscation: a repeating 16-byte key for datagram payloads and a
//! repeating 128-byte key for vendor firmware images.

use vstd::prelude::*;

verus! {

/// Key applied to datagram payloads and their CRC bytes.
pub const PAYLOAD_XOR: [u8; 16] = [
    0x16, 0x6c, 0x14, 0xe6, 0x2e, 0x91, 0x0d, 0x40, 0x21, 0x35, 0xd5, 0x40, 0x13, 0x03, 0xe9, 0x80,
];

/// Key applied to vendor-packed firmware images.
pub const FIRMWARE_XOR: [u8; 128] = [
    0x47, 0x22, 0xc0, 0x52, 0x5d, 0x57, 0x48, 0x94, 0xb1, 0x60, 0x60, 0xdb, 0x6f, 0xe3, 0x4c, 0x7c,
    0xd8, 0x4a, 0xd6, 0x8b, 0x30, 0xec, 0x25, 0xe0, 0x4c, 0xd9, 0x00, 0x7f, 0xbf, 0xe3, 0x54, 0x05,
    0xe9, 0x3a, 0x97, 0x6b, 0xb0, 0x6e, 0x0c, 0xfb, 0xb1, 0x1a, 0xe2, 0xc9, 0xc1, 0x56, 0x47, 0xe9,
    0xba, 0xf1, 0x42, 0xb6, 0x67, 0x5f, 0x0f, 0x96, 0xf7, 0xc9, 0x3c, 0x84, 0x1b, 0x26, 0xe1, 0x4e,
    0x3b, 0x6f, 0x66, 0xe6, 0xa0, 0x6a, 0xb0, 0xbf, 0xc6, 0xa5, 0x70, 0x3a, 0xba, 0x18, 0x9e, 0x27,
    0x1a, 0x53, 0x5b, 0x71, 0xb1, 0x94, 0x1e, 0x18, 0xf2, 0xd6, 0x81, 0x02, 0x22, 0xfd, 0x5a, 0x28,
    0x91, 0xdb, 0xba, 0x5d, 0x64, 0xc6, 0xfe, 0x86, 0x83, 0x9c, 0x50, 0x1c, 0x73, 0x03, 0x11, 0xd6,
    0xaf, 0x30, 0xf4, 0x2c, 0x77, 0xb2, 0x7d, 0xbb, 0x3f, 0x29, 0x28, 0x57, 0x22, 0xd6, 0x92, 0x8b,
];

/// Every byte of `data` XORed with `key`, the key repeating from index 0.
pub open spec fn xor_with(data: Seq<u8>, key: Seq<u8>) -> Seq<u8> {
    Seq::new(data.len(), |i: int| data[i] ^ key[i % key.len() as int])
}

/// XORs `data` in place with a repeating `key`.
fn xor_in_place(data: &mut [u8], key: &[u8])
    requires
        key@.len() > 0,
    ensures
        final(data)@ == xor_with(old(data)@, key@),
{
    let n = data.len();
    let klen = key.len();
    let mut i: usize = 0;
    while i < n
        invariant
            n == old(data)@.len(),
            klen == key@.len(),
            klen > 0,
            data@.len() == n,
            i <= n,
            forall|j: int| 0 <= j < i ==> data@[j] == old(data)@[j] ^ key@[j % klen as int],
            forall|j: int| i <= j < n ==> data@[j] == old(data)@[j],
        decreases n - i,
    {
        let b = data[i] ^ key[i % klen];
        data[i] = b;
        i += 1;
    }
    assert(data@ =~= xor_with(old(data)@, key@));
}

/// Obfuscates (or de-obfuscates) a datagram body with [`PAYLOAD_XOR`].
pub fn xor_payload(data: &mut [u8])
    ensures
        final(data)@ == xor_with(old(data)@, PAYLOAD_XOR@),
{
    xor_in_place(data, &PAYLOAD_XOR);
}

/// Encrypts (or decrypts) a firmware image with [`FIRMWARE_XOR`].
pub fn xor_firmware(data: &mut [u8])
    ensures
        final(data)@ == xor_with(old(data)@, FIRMWARE_XOR@),
{
    xor_in_place(data, &FIRMWARE_XOR);
}

/// Obfuscating twice with the same key gives back the original bytes.
pub proof fn lemma_xor_involution(data: Seq<u8>, key: Seq<u8>)
    requires
        key.len() > 0,
    ensures
        xor_with(xor_with(data, key), key) == data,
{
    assert forall|i: int| 0 <= i < data.len() implies #[trigger] xor_with(xor_with(data, key), key)[i]
        == data[i] by {
        let a = data[i];
        let b = key[i % key.len() as int];
        assert((a ^ b) ^ b == a) by (bit_vector);
    }
    assert(xor_with(xor_with(data, key), key) =~= data);
}

} // verus!
