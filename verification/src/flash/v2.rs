//! V2 (unencrypted) flash protocol.

use vstd::prelude::*;
use vstd::string::StringSliceAdditionalSpecFns;

use super::{make_write_payload, write_payload_of, FlashProtocol};

verus! {

/// Unencrypted flash protocol (bootloader beacon `0x0518`).
#[derive(Debug)]
pub struct ProtocolV2;

/// The 16-byte version field: the first 16 bytes of the version text, padded
/// with zeros.
pub open spec fn version_field(version: Seq<u8>) -> Seq<u8> {
    Seq::new(16, |i: int| if i < version.len() { version[i] } else { 0u8 })
}

/// Clear payload of the `0x0530` version request.
pub open spec fn v2_version_payload(version: Seq<u8>) -> Seq<u8> {
    seq![0x30u8, 0x05u8, 0x10u8, 0x00u8] + version_field(version)
}

impl Default for ProtocolV2 {
    fn default() -> Self {
        ProtocolV2
    }
}

impl ProtocolV2 {
    /// Creates a V2 protocol handler.
    pub fn new() -> Self {
        ProtocolV2
    }
}

impl FlashProtocol for ProtocolV2 {
    open spec fn spec_ack_id(&self) -> u16 {
        0x051a
    }

    fn beacon_id(&self) -> (r: u16)
        ensures
            r == 0x0518,
    {
        0x0518
    }

    fn ack_id(&self) -> (r: u16) {
        0x051a
    }

    fn version_packet(&self, version: &str) -> (p: Vec<u8>)
        ensures
            p@ == v2_version_payload(version.spec_bytes()),
    {
        // 0x0530: 30 05 10 00 + 16 zero-padded version bytes.
        let bytes = version.as_bytes();
        let n = if bytes.len() < 16 {
            bytes.len()
        } else {
            16
        };
        let mut p = vec![0x30, 0x05, 0x10, 0x00];
        let mut k: usize = 0;
        while k < 16
            invariant
                k <= 16,
                n <= bytes@.len(),
                n == bytes@.len() || n == 16,
                p@ == seq![0x30u8, 0x05u8, 0x10u8, 0x00u8] + version_field(bytes@).take(k as int),
            decreases 16 - k,
        {
            let b = if k < n {
                bytes[k]
            } else {
                0
            };
            p.push(b);
            assert(version_field(bytes@).take(k + 1) =~= version_field(bytes@).take(k as int).push(
                b,
            ));
            k += 1;
        }
        assert(version_field(bytes@).take(16) =~= version_field(bytes@));
        p
    }

    fn begin(&mut self)
        ensures
            *final(self) == *old(self),
    {
    }

    fn write_packet(
        &mut self,
        chunk_no: u16,
        chunk_count: u16,
        block: &[u8; 256],
        len: u16,
        id: u32,
    ) -> (p: Vec<u8>)
        ensures
            p@ == write_payload_of(0x19, chunk_no, chunk_count, block@, len, id),
    {
        make_write_payload(0x19, chunk_no, chunk_count, block, len, id)
    }
}

} // verus!
