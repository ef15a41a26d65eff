use rustsheng::firmware::FirmwareImage;
use rustsheng::flash::v2::ProtocolV2;
use rustsheng::flash::{build_sequence, make_write_payload, FlashKind, FlashProtocol, FLASH_BLOCK, WRITE_ID};

#[test]
fn write_payload_layout() {
    let block = [0xffu8; FLASH_BLOCK];
    let p = make_write_payload(0x19, 0x0002, 0x00ef, &block, 0x100, WRITE_ID);
    assert_eq!(p.len(), 16 + FLASH_BLOCK);
    assert_eq!(&p[0..8], &[0x19, 0x05, 0x0c, 0x01, 0x8a, 0x8d, 0x9f, 0x1d]);
    assert_eq!(&p[8..10], &[0x02, 0x00]); // chunk_no LE
    assert_eq!(&p[10..12], &[0xef, 0x00]); // chunk_count LE
    assert_eq!(&p[12..14], &[0x00, 0x01]); // len 0x100 LE
    assert_eq!(&p[14..16], &[0x00, 0x00]); // padding
    assert_eq!(p[16], 0xff);
}

#[test]
fn build_sequence_v2_shapes() {
    let mut raw = vec![0u8; 0x800];
    raw[2] = 0x00;
    raw[3] = 0x20;
    raw[6] = 0x00;
    raw[10] = 0x00;
    raw[14] = 0x00;
    let img = FirmwareImage::load(&raw).unwrap();
    let seq = build_sequence(FlashKind::V2, &img, "2.01.23", 0, WRITE_ID).unwrap();
    assert_eq!(seq.len(), 1 + 0x800 / FLASH_BLOCK); // 1 version + 8 write packets
    for dg in &seq {
        assert_eq!(&dg[0..2], &[0xAB, 0xCD]);
        assert_eq!(&dg[dg.len() - 2..], &[0xDC, 0xBA]);
    }
}

#[test]
fn version_packet_layout() {
    let p = ProtocolV2::new().version_packet("2.01.23");
    assert_eq!(&p[0..4], &[0x30, 0x05, 0x10, 0x00]);
    assert_eq!(&p[4..11], b"2.01.23");
    assert_eq!(p[11], 0x00);
    assert_eq!(p.len(), 20);
}

#[test]
fn write_packet_uses_0x19() {
    let block = [0u8; FLASH_BLOCK];
    let p = ProtocolV2::new().write_packet(1, 2, &block, 0x100, WRITE_ID);
    assert_eq!(p[0], 0x19);
    assert_eq!(&p[8..12], &[0x01, 0x00, 0x02, 0x00]);
}

#[test]
fn parses_write_ack() {
    // 1a 05 08 00 8a 8d 9f 1d chunk(2) result(1) v0(1)
    let ack = [
        0x1a, 0x05, 0x08, 0x00, 0x8a, 0x8d, 0x9f, 0x1d, 0x03, 0x00, 0x00, 0x00,
    ];
    assert_eq!(ProtocolV2::new().parse_write_ack(&ack), Some((3, 0)));
}
