use rustsheng::protocol::commands::{hello, read_eeprom, write_eeprom};
use rustsheng::protocol::crc16_xmodem;
use rustsheng::protocol::describe;
use rustsheng::protocol::frame::{deframe, frame, FrameScanner, ProtocolError};
use rustsheng::protocol::xor_payload;

#[test]
fn check_value() {
    // The standard CRC-16/XMODEM check value for the ASCII string
    // "123456789" is 0x31C3.
    assert_eq!(crc16_xmodem(b"123456789"), 0x31C3);
}

#[test]
fn empty_is_zero() {
    assert_eq!(crc16_xmodem(&[]), 0x0000);
}

#[test]
fn round_trip() {
    let payload = vec![0x14, 0x05, 0x04, 0x00, 0x6a, 0x39, 0x57, 0x64];
    let datagram = frame(&payload);
    assert_eq!(&datagram[0..2], &[0xAB, 0xCD]);
    assert_eq!(&datagram[datagram.len() - 2..], &[0xDC, 0xBA]);
    assert_eq!(deframe(&datagram).unwrap(), payload);
}

#[test]
fn accepts_radio_ffff_crc() {
    // Build a datagram whose CRC field decodes to 0xFFFF, like the radio sends.
    let payload = vec![0x18u8, 0x05, 0x00, 0x00];
    let mut out = vec![0xAB, 0xCD, payload.len() as u8, 0x00];
    let mut body = payload.clone();
    body.push(0xFF);
    body.push(0xFF);
    xor_payload(&mut body);
    out.extend_from_slice(&body);
    out.extend_from_slice(&[0xDC, 0xBA]);
    assert_eq!(deframe(&out).unwrap(), payload);
}

#[test]
fn rejects_bad_header() {
    let mut datagram = frame(&[1, 2, 3]);
    datagram[0] = 0x00;
    assert_eq!(deframe(&datagram), Err(ProtocolError::BadHeader));
}

#[test]
fn rejects_bad_crc() {
    let mut datagram = frame(&[1, 2, 3]);
    // Corrupt an obfuscated payload byte so the CRC check fails.
    datagram[4] ^= 0xFF;
    assert!(matches!(
        deframe(&datagram),
        Err(ProtocolError::BadCrc { .. })
    ));
}

#[test]
fn scanner_extracts_frames_and_resyncs() {
    let a = frame(&[0x14, 0x05, 0x04, 0x00]);
    let b = frame(&[0x1b, 0x05, 0x08, 0x00]);
    let mut scanner = FrameScanner::new();
    // Leading garbage before the first frame, then the two frames back to back.
    scanner.push(&[0x00, 0xff, 0x12]);
    scanner.push(&a);
    scanner.push(&b);
    let f1 = scanner.next_frame().expect("first frame");
    let f2 = scanner.next_frame().expect("second frame");
    assert_eq!(deframe(&f1).unwrap(), vec![0x14, 0x05, 0x04, 0x00]);
    assert_eq!(deframe(&f2).unwrap(), vec![0x1b, 0x05, 0x08, 0x00]);
    assert!(scanner.next_frame().is_none());
}

#[test]
fn scanner_waits_for_complete_frame() {
    let datagram = frame(&[0x29, 0x05, 0x00, 0x00]);
    let mut scanner = FrameScanner::new();
    scanner.push(&datagram[..datagram.len() - 1]); // one byte short
    assert!(scanner.next_frame().is_none());
    scanner.push(&datagram[datagram.len() - 1..]); // final byte
    assert!(scanner.next_frame().is_some());
}

#[test]
fn hello_matches_reference() {
    assert_eq!(
        hello(),
        vec![0x14, 0x05, 0x04, 0x00, 0x6a, 0x39, 0x57, 0x64]
    );
}

#[test]
fn read_eeprom_encodes_little_endian_address() {
    let p = read_eeprom(0x0e80, 0x80);
    assert_eq!(&p[0..8], &[0x1b, 0x05, 0x08, 0x00, 0x80, 0x0e, 0x80, 0x00]);
}

#[test]
fn write_eeprom_sets_length_fields() {
    let data = [0xAA; 0x10];
    let p = write_eeprom(0x0010, &data);
    assert_eq!(&p[0..8], &[0x1d, 0x05, 0x18, 0x00, 0x10, 0x00, 0x10, 0x01]);
    assert_eq!(p.len(), 8 + 4 + 0x10);
}

#[test]
fn names_hello_request() {
    let d = describe(&[0x14, 0x05, 0x04, 0x00, 0x6a, 0x39, 0x57, 0x64]);
    assert!(d.contains("HelloReq"), "{d}");
    assert!(d.contains("0x0514"), "{d}");
}

#[test]
fn decodes_read_eeprom_offset() {
    let d = describe(&[0x1b, 0x05, 0x08, 0x00, 0x80, 0x0e, 0x80, 0x00]);
    assert!(d.contains("ReadEepromReq"), "{d}");
    assert!(d.contains("offset=0x0e80"), "{d}");
    assert!(d.contains("len=0x80"), "{d}");
}

#[test]
fn extracts_hello_ack_version() {
    let mut p = vec![0x15u8, 0x05, 0x24, 0x00];
    let mut ver = [0u8; 16];
    ver[..10].copy_from_slice(b"k5_2.01.26");
    p.extend_from_slice(&ver);
    let d = describe(&p);
    assert!(d.contains("HelloAck"), "{d}");
    assert!(d.contains("k5_2.01.26"), "{d}");
}

#[test]
fn reports_unknown() {
    let d = describe(&[0xff, 0x05]);
    assert!(d.contains("Unknown"), "{d}");
    assert!(d.contains("0x05ff"), "{d}");
}
