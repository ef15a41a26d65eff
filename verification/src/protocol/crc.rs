//! CRC-16/XMODEM used by the UV-K5 datagram format.

use vstd::prelude::*;

verus! {

/// One bit step of the CRC register: shift left and, when the top bit was
/// set, fold in the polynomial `0x1021`.
pub open spec fn crc_shift(c: u16) -> u16 {
    if c & 0x8000u16 != 0 {
        (c << 1u16) ^ 0x1021u16
    } else {
        c << 1u16
    }
}

/// `n` bit steps of the CRC register.
pub open spec fn crc_shifts(c: u16, n: nat) -> u16
    decreases n,
{
    if n == 0 {
        c
    } else {
        crc_shift(crc_shifts(c, (n - 1) as nat))
    }
}

/// Feeds one byte into the CRC register.
pub open spec fn crc_step(crc: u16, byte: u8) -> u16 {
    crc_shifts(crc ^ ((byte as u16) << 8u16), 8)
}

/// CRC-16/XMODEM of a byte sequence: initial value 0, bytes fed in order.
pub open spec fn crc16_of(data: Seq<u8>) -> u16
    decreases data.len(),
{
    if data.len() == 0 {
        0
    } else {
        crc_step(crc16_of(data.drop_last()), data.last())
    }
}

/// Computes CRC-16/XMODEM (polynomial `0x1021`, initial value `0x0000`,
/// no reflection, no final XOR) over `data`.
pub fn crc16_xmodem(data: &[u8]) -> (crc: u16)
    ensures
        crc == crc16_of(data@),
{
    let mut crc: u16 = 0;
    let mut i: usize = 0;
    while i < data.len()
        invariant
            i <= data.len(),
            crc == crc16_of(data@.take(i as int)),
        decreases data.len() - i,
    {
        let byte = data[i];
        crc = crc ^ ((byte as u16) << 8u16);
        let ghost start = crc;
        let mut k: u32 = 0;
        while k < 8
            invariant
                k <= 8,
                crc == crc_shifts(start, k as nat),
            decreases 8 - k,
        {
            crc = if crc & 0x8000 != 0 {
                (crc << 1u16) ^ 0x1021
            } else {
                crc << 1u16
            };
            k += 1;
        }
        assert(data@.take(i + 1).drop_last() =~= data@.take(i as int));
        i += 1;
    }
    assert(data@.take(data.len() as int) =~= data@);
    crc
}

} // verus!
