//! Builders for the clear command payloads sent to the radio. Each returns the
//! bytes that go inside a datagram (see [`crate::protocol::frame::frame`]).

use vstd::prelude::*;

use crate::protocol::frame::{hi_byte, lo_byte};

verus! {

/// Session identifier echoed in most commands; constant within a session.
pub const SESSION_ID: [u8; 4] = [0x6a, 0x39, 0x57, 0x64];

/// Appends `data` to `v`.
pub fn append_bytes(v: &mut Vec<u8>, data: &[u8])
    ensures
        final(v)@ == old(v)@ + data@,
{
    v.extend_from_slice(data);
    assert(v@ =~= old(v)@ + data@);
}

/// Payload of the `0x14` handshake ("hello").
pub open spec fn hello_payload() -> Seq<u8> {
    seq![0x14u8, 0x05, 0x04, 0x00] + SESSION_ID@
}

/// Payload of the `0x1b` EEPROM read of `len` bytes at `addr`.
pub open spec fn read_eeprom_payload(addr: u16, len: u8) -> Seq<u8> {
    seq![0x1bu8, 0x05, 0x08, 0x00, lo_byte(addr as int), hi_byte(addr as int), len, 0x00]
        + SESSION_ID@
}

/// Payload of the `0x1d` EEPROM write of `data` at `addr`.
pub open spec fn write_eeprom_payload(addr: u16, data: Seq<u8>) -> Seq<u8> {
    seq![
        0x1du8,
        0x05,
        lo_byte(8 + data.len() as int),
        hi_byte(8 + data.len() as int),
        lo_byte(addr as int),
        hi_byte(addr as int),
        lo_byte(data.len() as int),
        0x01,
    ] + SESSION_ID@ + data
}

/// Payload of the `0xdd` reboot command.
pub open spec fn reset_payload() -> Seq<u8> {
    seq![0xddu8, 0x05, 0x00, 0x00]
}

/// Payload of the `0x29` battery ADC read.
pub open spec fn read_adc_payload() -> Seq<u8> {
    seq![0x29u8, 0x05, 0x04, 0x00] + SESSION_ID@
}

/// Payload of the `0x27` RSSI/noise/glitch read.
pub open spec fn read_rssi_payload() -> Seq<u8> {
    seq![0x27u8, 0x05, 0x04, 0x00] + SESSION_ID@
}

/// `0x14` handshake ("hello").
pub fn hello() -> (p: Vec<u8>)
    ensures
        p@ == hello_payload(),
{
    let mut p = vec![0x14, 0x05, 0x04, 0x00];
    append_bytes(&mut p, &SESSION_ID);
    p
}

/// `0x1b` read EEPROM block (`len` <= 0x80). Address is little-endian.
pub fn read_eeprom(addr: u16, len: u8) -> (p: Vec<u8>)
    ensures
        p@ == read_eeprom_payload(addr, len),
{
    proof {
        assert(addr & 0xff == addr % 256) by (bit_vector);
        assert(addr >> 8 == (addr / 256) % 256) by (bit_vector);
    }
    let mut p = vec![0x1b, 0x05, 0x08, 0x00, (addr & 0xff) as u8, (addr >> 8) as u8, len, 0x00];
    append_bytes(&mut p, &SESSION_ID);
    p
}

/// `0x1d` write EEPROM block (`data.len()` <= 0x80). Address is little-endian.
pub fn write_eeprom(addr: u16, data: &[u8]) -> (p: Vec<u8>)
    requires
        data@.len() + 8 <= usize::MAX,
    ensures
        p@ == write_eeprom_payload(addr, data@),
{
    let inner = 8 + data.len();
    let dlen = data.len();
    proof {
        assert(addr & 0xff == addr % 256) by (bit_vector);
        assert(addr >> 8 == (addr / 256) % 256) by (bit_vector);
        assert(inner & 0xff == inner % 256) by (bit_vector);
        assert((inner >> 8) & 0xff == (inner / 256) % 256) by (bit_vector);
        assert(dlen as u8 == dlen % 256) by (bit_vector);
    }
    let mut p = vec![
        0x1d,
        0x05,
        (inner & 0xff) as u8,
        ((inner >> 8) & 0xff) as u8,
        (addr & 0xff) as u8,
        (addr >> 8) as u8,
        dlen as u8,
        0x01,
    ];
    append_bytes(&mut p, &SESSION_ID);
    append_bytes(&mut p, data);
    p
}

/// `0xdd` reboot the radio.
pub fn reset() -> (p: Vec<u8>)
    ensures
        p@ == reset_payload(),
{
    vec![0xdd, 0x05, 0x00, 0x00]
}

/// `0x29` read battery ADC.
pub fn read_adc() -> (p: Vec<u8>)
    ensures
        p@ == read_adc_payload(),
{
    let mut p = vec![0x29, 0x05, 0x04, 0x00];
    append_bytes(&mut p, &SESSION_ID);
    p
}

/// `0x27` read RSSI/noise/glitch.
pub fn read_rssi() -> (p: Vec<u8>)
    ensures
        p@ == read_rssi_payload(),
{
    let mut p = vec![0x27, 0x05, 0x04, 0x00];
    append_bytes(&mut p, &SESSION_ID);
    p
}

} // verus!
