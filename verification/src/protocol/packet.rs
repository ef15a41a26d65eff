//! Human-readable description of a clear datagram payload, keyed by its 16-bit
//! command identifier (the first two payload bytes, little-endian).

use vstd::prelude::*;

use crate::protocol::frame::le16;
use crate::text::{
    hex_byte_text, hex_word_text, push_char, push_hex_byte, push_hex_word, push_quoted_bytes,
    push_str, quoted,
};

verus! {

/// A byte that is a printable ASCII character (graphic or space).
pub open spec fn printable(b: u8) -> bool {
    0x20 <= b <= 0x7e
}

/// Index of the first byte at or after `i` that is not printable, or
/// `bytes.len()` when there is none.
pub open spec fn printable_end(bytes: Seq<u8>, i: int) -> int
    decreases bytes.len() - i,
{
    if i >= bytes.len() {
        bytes.len() as int
    } else if !printable(bytes[i]) {
        i
    } else {
        printable_end(bytes, i + 1)
    }
}

/// The bytes of `bytes` as characters.
pub open spec fn as_chars(bytes: Seq<u8>) -> Seq<char> {
    bytes.map_values(|b: u8| b as char)
}

/// The printable ASCII prefix of `bytes`, stopping at the first NUL or
/// non-printable byte.
pub open spec fn ascii_prefix_of(bytes: Seq<u8>) -> Seq<u8> {
    bytes.take(printable_end(bytes, 0))
}

/// Name of a command identifier.
pub open spec fn packet_name(id: u16) -> Seq<char> {
    if id == 0x0514 {
        "HelloReq"@
    } else if id == 0x0515 {
        "HelloAck"@
    } else if id == 0x0518 {
        "FlashBeacon"@
    } else if id == 0x0519 {
        "FlashWriteReq"@
    } else if id == 0x051a {
        "FlashWriteAck"@
    } else if id == 0x051b {
        "ReadEepromReq"@
    } else if id == 0x051c {
        "ReadEepromAck"@
    } else if id == 0x051d {
        "WriteEepromReq"@
    } else if id == 0x051e {
        "WriteEepromAck"@
    } else if id == 0x0527 {
        "ReadRssiReq"@
    } else if id == 0x0528 {
        "ReadRssiAck"@
    } else if id == 0x0529 {
        "ReadAdcReq"@
    } else if id == 0x052a {
        "ReadAdcAck"@
    } else if id == 0x0530 {
        "FlashVersionReq"@
    } else if id == 0x05dd {
        "RebootReq"@
    } else if id == 0x057a {
        "Flash5Beacon"@
    } else if id == 0x057b {
        "Flash5WriteReq"@
    } else {
        "Unknown"@
    }
}

/// Decoded fields appended after the name: the firmware version of a hello
/// reply (16-byte field at offset 4), the bootloader version of a flash
/// beacon (from offset 0x14), or address and length of an EEPROM command.
pub open spec fn packet_extra(p: Seq<u8>, id: u16) -> Seq<char> {
    if id == 0x0515 && p.len() >= 20 {
        " version="@ + quoted(as_chars(ascii_prefix_of(p.subrange(4, 20))))
    } else if id == 0x0518 && p.len() > 0x14 {
        " version="@ + quoted(as_chars(ascii_prefix_of(p.skip(0x14))))
    } else if 0x051b <= id <= 0x051e && p.len() >= 7 {
        " offset="@ + hex_word_text(le16(p[4], p[5]) as u16) + " len="@ + hex_byte_text(p[6])
    } else {
        Seq::empty()
    }
}

/// `Name (0xID)` plus decoded fields; payloads shorter than two bytes are
/// reported by their length.
pub open spec fn describe_of(p: Seq<u8>) -> Seq<char> {
    if p.len() < 2 {
        "<short payload, "@ + seq![(48 + p.len()) as char] + " bytes>"@
    } else {
        let id = le16(p[0], p[1]) as u16;
        packet_name(id) + " ("@ + hex_word_text(id) + ")"@ + packet_extra(p, id)
    }
}

/// Length of the printable ASCII prefix of `bytes`.
pub fn printable_prefix_len(bytes: &[u8]) -> (end: usize)
    ensures
        end == printable_end(bytes@, 0),
        end <= bytes@.len(),
{
    let mut i: usize = 0;
    while i < bytes.len() && !(bytes[i] == 0 || !(0x21 <= bytes[i] && bytes[i] <= 0x7e)
        && bytes[i] != 0x20)
        invariant
            i <= bytes@.len(),
            printable_end(bytes@, i as int) == printable_end(bytes@, 0),
        decreases bytes.len() - i,
    {
        i += 1;
    }
    i
}

/// Returns the printable ASCII prefix of `bytes`, stopping at the first NUL or
/// non-printable byte.
pub fn ascii_prefix(bytes: &[u8]) -> (s: String)
    ensures
        s@ == as_chars(ascii_prefix_of(bytes@)),
{
    let end = printable_prefix_len(bytes);
    let mut s = String::new();
    let mut i: usize = 0;
    while i < end
        invariant
            end == printable_end(bytes@, 0),
            end <= bytes@.len(),
            i <= end,
            s@ == as_chars(bytes@.take(i as int)),
        decreases end - i,
    {
        push_char(&mut s, bytes[i] as char);
        assert(as_chars(bytes@.take(i + 1)) =~= as_chars(bytes@.take(i as int)).push(
            bytes@[i as int] as char,
        ));
        i += 1;
    }
    s
}

/// Name of a command identifier.
pub fn packet_name_str(id: u16) -> (n: &'static str)
    ensures
        n@ == packet_name(id),
{
    match id {
        0x0514 => "HelloReq",
        0x0515 => "HelloAck",
        0x0518 => "FlashBeacon",
        0x0519 => "FlashWriteReq",
        0x051a => "FlashWriteAck",
        0x051b => "ReadEepromReq",
        0x051c => "ReadEepromAck",
        0x051d => "WriteEepromReq",
        0x051e => "WriteEepromAck",
        0x0527 => "ReadRssiReq",
        0x0528 => "ReadRssiAck",
        0x0529 => "ReadAdcReq",
        0x052a => "ReadAdcAck",
        0x0530 => "FlashVersionReq",
        0x05dd => "RebootReq",
        0x057a => "Flash5Beacon",
        0x057b => "Flash5WriteReq",
        _ => "Unknown",
    }
}

/// Appends the quoted printable prefix of `bytes`.
fn push_version(s: &mut String, bytes: &[u8])
    ensures
        final(s)@ == old(s)@ + " version="@ + quoted(as_chars(ascii_prefix_of(bytes@))),
{
    push_str(s, " version=");
    let end = printable_prefix_len(bytes);
    push_quoted_bytes(s, &bytes[0..end]);
    assert(bytes@.subrange(0, end as int) =~= ascii_prefix_of(bytes@));
}

/// Describes a clear payload as `Name (0xID)` plus a few decoded fields for the
/// common commands. Unknown identifiers are reported as `Unknown (0xID)`.
pub fn describe(payload: &[u8]) -> (s: String)
    ensures
        s@ == describe_of(payload@),
{
    let mut s = String::new();
    if payload.len() < 2 {
        push_str(&mut s, "<short payload, ");
        push_char(&mut s, (48 + payload.len() as u8) as char);
        push_str(&mut s, " bytes>");
        return s;
    }
    let id: u16 = payload[0] as u16 + (payload[1] as u16) * 256;
    push_str(&mut s, packet_name_str(id));
    push_str(&mut s, " (");
    push_hex_word(&mut s, id);
    push_str(&mut s, ")");
    let ghost head = s@;
    if id == 0x0515 && payload.len() >= 20 {
        // Firmware version is a 16-byte field at offset 4.
        push_version(&mut s, &payload[4..20]);
    } else if id == 0x0518 && payload.len() > 0x14 {
        // Bootloader version starts at offset 0x14 in the flash beacon.
        push_version(&mut s, &payload[0x14..payload.len()]);
    } else if 0x051b <= id && id <= 0x051e && payload.len() >= 7 {
        // EEPROM commands carry a little-endian address at offset 4.
        push_str(&mut s, " offset=");
        push_hex_word(&mut s, payload[4] as u16 + (payload[5] as u16) * 256);
        push_str(&mut s, " len=");
        push_hex_byte(&mut s, payload[6]);
    }
    assert(s@ =~= head + packet_extra(payload@, id));
    s
}

/// Each command identifier of the protocol table is described by its name:
/// a payload whose first two bytes are the identifier, little-endian, is
/// described as `Name (0xID)`, followed only by the decoded fields.
pub proof fn lemma_packet_names(p: Seq<u8>)
    requires
        p.len() >= 2,
    ensures
        p[0] == 0x14 && p[1] == 0x05 ==> "HelloReq (0x0514)"@.is_prefix_of(describe_of(p)),
        p[0] == 0x15 && p[1] == 0x05 ==> "HelloAck (0x0515)"@.is_prefix_of(describe_of(p)),
        p[0] == 0x18 && p[1] == 0x05 ==> "FlashBeacon (0x0518)"@.is_prefix_of(describe_of(p)),
        p[0] == 0x19 && p[1] == 0x05 ==> "FlashWriteReq (0x0519)"@.is_prefix_of(describe_of(p)),
        p[0] == 0x1a && p[1] == 0x05 ==> "FlashWriteAck (0x051a)"@.is_prefix_of(describe_of(p)),
        p[0] == 0x1b && p[1] == 0x05 ==> "ReadEepromReq (0x051b)"@.is_prefix_of(describe_of(p)),
        p[0] == 0x1c && p[1] == 0x05 ==> "ReadEepromAck (0x051c)"@.is_prefix_of(describe_of(p)),
        p[0] == 0x1d && p[1] == 0x05 ==> "WriteEepromReq (0x051d)"@.is_prefix_of(describe_of(p)),
        p[0] == 0x1e && p[1] == 0x05 ==> "WriteEepromAck (0x051e)"@.is_prefix_of(describe_of(p)),
        p[0] == 0x27 && p[1] == 0x05 ==> "ReadRssiReq (0x0527)"@.is_prefix_of(describe_of(p)),
        p[0] == 0x28 && p[1] == 0x05 ==> "ReadRssiAck (0x0528)"@.is_prefix_of(describe_of(p)),
        p[0] == 0x29 && p[1] == 0x05 ==> "ReadAdcReq (0x0529)"@.is_prefix_of(describe_of(p)),
        p[0] == 0x2a && p[1] == 0x05 ==> "ReadAdcAck (0x052a)"@.is_prefix_of(describe_of(p)),
        p[0] == 0x30 && p[1] == 0x05 ==> "FlashVersionReq (0x0530)"@.is_prefix_of(describe_of(p)),
        p[0] == 0xdd && p[1] == 0x05 ==> "RebootReq (0x05dd)"@.is_prefix_of(describe_of(p)),
        p[0] == 0x7a && p[1] == 0x05 ==> "Flash5Beacon (0x057a)"@.is_prefix_of(describe_of(p)),
        p[0] == 0x7b && p[1] == 0x05 ==> "Flash5WriteReq (0x057b)"@.is_prefix_of(describe_of(p)),
{
    reveal_strlit(" (");
    reveal_strlit(")");
    if p[0] == 0x14 && p[1] == 0x05 {
        reveal_strlit("HelloReq");
        reveal_strlit("HelloReq (0x0514)");
        assert(le16(p[0], p[1]) == 0x0514);
        let d = describe_of(p);
        assert(d.subrange(0, 17) =~= "HelloReq (0x0514)"@);
    }
    if p[0] == 0x15 && p[1] == 0x05 {
        reveal_strlit("HelloAck");
        reveal_strlit("HelloAck (0x0515)");
        assert(le16(p[0], p[1]) == 0x0515);
        let d = describe_of(p);
        assert(d.subrange(0, 17) =~= "HelloAck (0x0515)"@);
    }
    if p[0] == 0x18 && p[1] == 0x05 {
        reveal_strlit("FlashBeacon");
        reveal_strlit("FlashBeacon (0x0518)");
        assert(le16(p[0], p[1]) == 0x0518);
        let d = describe_of(p);
        assert(d.subrange(0, 20) =~= "FlashBeacon (0x0518)"@);
    }
    if p[0] == 0x19 && p[1] == 0x05 {
        reveal_strlit("FlashWriteReq");
        reveal_strlit("FlashWriteReq (0x0519)");
        assert(le16(p[0], p[1]) == 0x0519);
        let d = describe_of(p);
        assert(d.subrange(0, 22) =~= "FlashWriteReq (0x0519)"@);
    }
    if p[0] == 0x1a && p[1] == 0x05 {
        reveal_strlit("FlashWriteAck");
        reveal_strlit("FlashWriteAck (0x051a)");
        assert(le16(p[0], p[1]) == 0x051a);
        let d = describe_of(p);
        assert(d.subrange(0, 22) =~= "FlashWriteAck (0x051a)"@);
    }
    if p[0] == 0x1b && p[1] == 0x05 {
        reveal_strlit("ReadEepromReq");
        reveal_strlit("ReadEepromReq (0x051b)");
        assert(le16(p[0], p[1]) == 0x051b);
        let d = describe_of(p);
        assert(d.subrange(0, 22) =~= "ReadEepromReq (0x051b)"@);
    }
    if p[0] == 0x1c && p[1] == 0x05 {
        reveal_strlit("ReadEepromAck");
        reveal_strlit("ReadEepromAck (0x051c)");
        assert(le16(p[0], p[1]) == 0x051c);
        let d = describe_of(p);
        assert(d.subrange(0, 22) =~= "ReadEepromAck (0x051c)"@);
    }
    if p[0] == 0x1d && p[1] == 0x05 {
        reveal_strlit("WriteEepromReq");
        reveal_strlit("WriteEepromReq (0x051d)");
        assert(le16(p[0], p[1]) == 0x051d);
        let d = describe_of(p);
        assert(d.subrange(0, 23) =~= "WriteEepromReq (0x051d)"@);
    }
    if p[0] == 0x1e && p[1] == 0x05 {
        reveal_strlit("WriteEepromAck");
        reveal_strlit("WriteEepromAck (0x051e)");
        assert(le16(p[0], p[1]) == 0x051e);
        let d = describe_of(p);
        assert(d.subrange(0, 23) =~= "WriteEepromAck (0x051e)"@);
    }
    if p[0] == 0x27 && p[1] == 0x05 {
        reveal_strlit("ReadRssiReq");
        reveal_strlit("ReadRssiReq (0x0527)");
        assert(le16(p[0], p[1]) == 0x0527);
        let d = describe_of(p);
        assert(d.subrange(0, 20) =~= "ReadRssiReq (0x0527)"@);
    }
    if p[0] == 0x28 && p[1] == 0x05 {
        reveal_strlit("ReadRssiAck");
        reveal_strlit("ReadRssiAck (0x0528)");
        assert(le16(p[0], p[1]) == 0x0528);
        let d = describe_of(p);
        assert(d.subrange(0, 20) =~= "ReadRssiAck (0x0528)"@);
    }
    if p[0] == 0x29 && p[1] == 0x05 {
        reveal_strlit("ReadAdcReq");
        reveal_strlit("ReadAdcReq (0x0529)");
        assert(le16(p[0], p[1]) == 0x0529);
        let d = describe_of(p);
        assert(d.subrange(0, 19) =~= "ReadAdcReq (0x0529)"@);
    }
    if p[0] == 0x2a && p[1] == 0x05 {
        reveal_strlit("ReadAdcAck");
        reveal_strlit("ReadAdcAck (0x052a)");
        assert(le16(p[0], p[1]) == 0x052a);
        let d = describe_of(p);
        assert(d.subrange(0, 19) =~= "ReadAdcAck (0x052a)"@);
    }
    if p[0] == 0x30 && p[1] == 0x05 {
        reveal_strlit("FlashVersionReq");
        reveal_strlit("FlashVersionReq (0x0530)");
        assert(le16(p[0], p[1]) == 0x0530);
        let d = describe_of(p);
        assert(d.subrange(0, 24) =~= "FlashVersionReq (0x0530)"@);
    }
    if p[0] == 0xdd && p[1] == 0x05 {
        reveal_strlit("RebootReq");
        reveal_strlit("RebootReq (0x05dd)");
        assert(le16(p[0], p[1]) == 0x05dd);
        let d = describe_of(p);
        assert(d.subrange(0, 18) =~= "RebootReq (0x05dd)"@);
    }
    if p[0] == 0x7a && p[1] == 0x05 {
        reveal_strlit("Flash5Beacon");
        reveal_strlit("Flash5Beacon (0x057a)");
        assert(le16(p[0], p[1]) == 0x057a);
        let d = describe_of(p);
        assert(d.subrange(0, 21) =~= "Flash5Beacon (0x057a)"@);
    }
    if p[0] == 0x7b && p[1] == 0x05 {
        reveal_strlit("Flash5WriteReq");
        reveal_strlit("Flash5WriteReq (0x057b)");
        assert(le16(p[0], p[1]) == 0x057b);
        let d = describe_of(p);
        assert(d.subrange(0, 23) =~= "Flash5WriteReq (0x057b)"@);
    }
}

} // verus!
