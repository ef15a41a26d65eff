use rustsheng::hex::{decode_hex, encode_hex, HexError};
use rustsheng::protocol::commands::{read_adc, read_rssi, reset, write_eeprom};
use rustsheng::protocol::{deframe, describe};
use rustsheng::protocol::packet::ascii_prefix;

#[test]
fn describe_exact_texts() {
    assert_eq!(
        describe(&[0x1b, 0x05, 0x08, 0x00, 0x80, 0x0e, 0x80, 0x00]),
        "ReadEepromReq (0x051b) offset=0x0e80 len=0x80"
    );
    assert_eq!(describe(&[0xdd, 0x05, 0x00, 0x00]), "RebootReq (0x05dd)");
    assert_eq!(describe(&[0x1e, 0x05]), "WriteEepromAck (0x051e)");
    assert_eq!(describe(&[0x7b, 0x05]), "Flash5WriteReq (0x057b)");
}

#[test]
fn describe_short_payloads() {
    assert_eq!(describe(&[]), "<short payload, 0 bytes>");
    assert_eq!(describe(&[0x14]), "<short payload, 1 bytes>");
}

#[test]
fn describe_hello_ack_quotes_version() {
    let mut p = vec![0x15u8, 0x05, 0x24, 0x00];
    let mut ver = [0u8; 16];
    ver[..6].copy_from_slice(b"a\"b\\c ");
    p.extend_from_slice(&ver);
    assert_eq!(describe(&p), "HelloAck (0x0515) version=\"a\\\"b\\\\c \"");
}

#[test]
fn describe_flash_beacon_version() {
    let mut p = vec![0x18u8, 0x05, 0x20, 0x00];
    p.extend_from_slice(&[0u8; 16]);
    p.extend_from_slice(b"2.00.06\x00\x01");
    assert_eq!(describe(&p), "FlashBeacon (0x0518) version=\"2.00.06\"");
}

#[test]
fn ascii_prefix_stops_at_unprintable() {
    assert_eq!(ascii_prefix(b"k5 2.01\x00junk"), "k5 2.01");
    assert_eq!(ascii_prefix(b"ab\x7fcd"), "ab");
    assert_eq!(ascii_prefix(b""), "");
}

#[test]
fn other_commands_match_layouts() {
    assert_eq!(reset(), vec![0xdd, 0x05, 0x00, 0x00]);
    assert_eq!(read_adc(), vec![0x29, 0x05, 0x04, 0x00, 0x6a, 0x39, 0x57, 0x64]);
    assert_eq!(read_rssi(), vec![0x27, 0x05, 0x04, 0x00, 0x6a, 0x39, 0x57, 0x64]);
    let p = write_eeprom(0x1e80, &[1, 2, 3]);
    assert_eq!(
        p,
        vec![0x1d, 0x05, 0x0b, 0x00, 0x80, 0x1e, 0x03, 0x01, 0x6a, 0x39, 0x57, 0x64, 1, 2, 3]
    );
}

#[test]
fn hex_round_trip() {
    let bytes: Vec<u8> = (0..=255u8).collect();
    let text = encode_hex(&bytes);
    assert!(text.starts_with("00 01 02"));
    assert!(text.ends_with("fe ff"));
    assert_eq!(decode_hex(&text).unwrap(), bytes);
    assert_eq!(encode_hex(&[]), "");
    assert_eq!(decode_hex("").unwrap(), Vec::<u8>::new());
}

#[test]
fn hex_accepts_whitespace_and_case() {
    assert_eq!(decode_hex(" AB cd\t0f\n").unwrap(), vec![0xab, 0xcd, 0x0f]);
    assert_eq!(decode_hex("+f"), Err(HexError::InvalidDigit));
    assert_eq!(decode_hex("\u{a0}ab\u{3000}").unwrap(), vec![0xab]);
}

#[test]
fn hex_errors() {
    assert_eq!(decode_hex("abc"), Err(HexError::OddLength));
    assert_eq!(decode_hex("zz"), Err(HexError::InvalidDigit));
    assert_eq!(decode_hex("-1"), Err(HexError::InvalidDigit));
    assert_eq!(decode_hex("\u{e9}"), Err(HexError::InvalidDigit));
    assert_eq!(decode_hex("a\u{e9}"), Err(HexError::OddLength));
}

#[test]
fn docs_parse_example() {
    let bytes = decode_hex("ab cd 08 00 02 69 10 e6 44 a8 5a 24 b9 a9 dc ba").unwrap();
    let payload = deframe(&bytes).unwrap();
    assert_eq!(encode_hex(&payload), "14 05 04 00 6a 39 57 64");
    assert_eq!(describe(&payload), "HelloReq (0x0514)");
}

#[test]
fn describe_matches_std_formatting() {
    for id in [0x0514u16, 0x05ff, 0x1234, 0x0000, 0xffff] {
        let d = describe(&[(id & 0xff) as u8, (id >> 8) as u8]);
        assert!(d.ends_with(&format!("({id:#06x})")), "{d}");
    }
    let mut p = vec![0x15u8, 0x05, 0x24, 0x00];
    let text = "q\"u\\o'te ~";
    let mut ver = [0u8; 16];
    ver[..text.len()].copy_from_slice(text.as_bytes());
    p.extend_from_slice(&ver);
    assert_eq!(describe(&p), format!("HelloAck (0x0515) version={:?}", text));
    for len in [0u8, 0x7f, 0x80, 0xff] {
        let d = describe(&[0x1c, 0x05, 0, 0, 0x34, 0x12, len]);
        assert_eq!(d, format!("ReadEepromAck (0x051c) offset={:#06x} len={:#04x}", 0x1234, len));
    }
}

#[test]
fn encode_hex_matches_std_formatting() {
    let bytes = [0x00u8, 0x0a, 0xa0, 0xff, 0x5c];
    let expect: Vec<String> = bytes.iter().map(|b| format!("{b:02x}")).collect();
    assert_eq!(encode_hex(&bytes), expect.join(" "));
}
