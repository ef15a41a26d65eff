use rustsheng::firmware::cpu::{detect_cpu, Cpu};
use rustsheng::firmware::{FirmwareError, FirmwareImage, MAX_FLASH, MAX_IMAGE};
use rustsheng::flash::v2::ProtocolV2;
use rustsheng::flash::{blocks, build_sequence, FlashError, FlashKind, FlashProtocol, WRITE_ID};
use rustsheng::protocol::{crc16_xmodem, deframe, xor_firmware};

fn raw_image(len: usize) -> Vec<u8> {
    let mut v = vec![0u8; len];
    v[3] = 0x20;
    v
}

fn pack(raw: &[u8]) -> Vec<u8> {
    let mut enc = raw.to_vec();
    xor_firmware(&mut enc);
    let crc = crc16_xmodem(&enc);
    enc.push((crc & 0xff) as u8);
    enc.push((crc >> 8) as u8);
    enc
}

#[test]
fn raw_image_too_large() {
    assert_eq!(FirmwareImage::load(&raw_image(MAX_IMAGE + 1)), Err(FirmwareError::TooLarge));
    assert_eq!(FirmwareImage::load(&raw_image(MAX_IMAGE)).unwrap().data.len(), MAX_IMAGE);
}

#[test]
fn raw_image_above_classic_limit_loads() {
    let img = FirmwareImage::load(&raw_image(MAX_FLASH + 1)).unwrap();
    assert_eq!(img.data, raw_image(MAX_FLASH + 1));
    assert_eq!(img.embedded_version, None);
}

fn py32f071_image(len: usize) -> Vec<u8> {
    let mut v = raw_image(len);
    v[5] = 0x20;
    v[7] = 0x08;
    v
}

#[test]
fn loaded_image_records_cpu() {
    let img = FirmwareImage::load(&py32f071_image(0x1000)).unwrap();
    assert_eq!(img.cpu, Cpu::Py32f071);
    assert_eq!(img.cpu, detect_cpu(&img.data));
    let packed = FirmwareImage::load(&pack(&py32f071_image(0x2100))).unwrap();
    assert_eq!(packed.cpu, Cpu::Py32f071);
    assert_eq!(packed.cpu, detect_cpu(&packed.data));
    assert_eq!(FirmwareImage::load(&raw_image(0x1000)).unwrap().cpu, Cpu::Dp32g030);
}

#[test]
fn build_sequence_refuses_image_over_cpu_limit() {
    let img = FirmwareImage::load(&raw_image(0xf100)).unwrap();
    assert_eq!(img.cpu, Cpu::Dp32g030);
    assert_eq!(
        build_sequence(FlashKind::V2, &img, "2.01.23", 0, WRITE_ID),
        Err(FlashError::TooLarge)
    );
    let big = FirmwareImage::load(&py32f071_image(0x11000)).unwrap();
    let seq = build_sequence(FlashKind::V2, &big, "7.00.07", 0, WRITE_ID).unwrap();
    assert_eq!(seq.len(), 1 + 0x110);
}

#[test]
fn vendor_image_with_bad_crc_is_invalid() {
    let mut enc = pack(&raw_image(0x1000));
    let n = enc.len();
    enc[n - 1] ^= 0x01;
    assert_eq!(FirmwareImage::load(&enc), Err(FirmwareError::Invalid));
}

#[test]
fn vendor_image_not_raw_inside_is_invalid() {
    let mut raw = raw_image(0x1000);
    raw[3] = 0x21;
    assert_eq!(FirmwareImage::load(&pack(&raw)), Err(FirmwareError::Invalid));
}

#[test]
fn short_vendor_image_has_no_version() {
    let raw = raw_image(0x1000);
    let img = FirmwareImage::load(&pack(&raw)).unwrap();
    assert_eq!(img.data, raw);
    assert_eq!(img.embedded_version, None);
}

#[test]
fn vendor_image_round_trip_keeps_data_around_version() {
    let mut raw = raw_image(0x2100);
    for (i, b) in raw.iter_mut().enumerate().skip(16) {
        *b = (i % 253) as u8;
    }
    raw[0x2000..0x2010].copy_from_slice(b"7.03.01\0\0\0\0\0\0\0\0\0");
    let img = FirmwareImage::load(&pack(&raw)).unwrap();
    assert_eq!(img.embedded_version.as_deref(), Some("7.03.01"));
    let mut expect = raw[..0x2000].to_vec();
    expect.extend_from_slice(&raw[0x2010..]);
    assert_eq!(img.data, expect);
}

#[test]
fn invalid_utf8_version_is_replaced() {
    let mut raw = raw_image(0x2020);
    raw[0x2000] = 0xff;
    raw[0x2001] = b'a';
    let img = FirmwareImage::load(&pack(&raw)).unwrap();
    assert_eq!(img.embedded_version.as_deref(), Some("\u{fffd}a"));
}

#[test]
fn detect_cpu_cases() {
    assert_eq!(detect_cpu(&[0u8; 10]), Cpu::Dp32g030);
    let mut v = vec![0u8; 0x40];
    v[3] = 0x20;
    assert_eq!(detect_cpu(&v), Cpu::Dp32g030);
    v[4] = 0xd5;
    v[5] = 0x28;
    v[7] = 0x08;
    assert_eq!(detect_cpu(&v), Cpu::Py32f071);
    v[5] = 0x01;
    v[10] = 0x01;
    assert_eq!(detect_cpu(&v), Cpu::Py32f030);
    v[3] = 0x00;
    assert_eq!(detect_cpu(&v), Cpu::Dp32g030);
}

#[test]
fn image_blocks_cover_image() {
    let mut raw = raw_image(0x850);
    for (i, b) in raw.iter_mut().enumerate().skip(16) {
        *b = i as u8;
    }
    let img = FirmwareImage::load(&raw).unwrap();
    let joined: Vec<u8> = img.blocks().iter().flat_map(|(_, c)| c.iter().copied()).collect();
    assert_eq!(joined, raw);
}

#[test]
fn flash_blocks_are_padded_pages() {
    let data: Vec<u8> = (0..0x150u32).map(|i| i as u8).collect();
    let b = blocks(&data);
    assert_eq!(b.len(), 2);
    assert_eq!((b[0].0, b[0].1, b[0].3), (0, 2, 0x100));
    assert_eq!((b[1].0, b[1].1, b[1].3), (1, 2, 0x50));
    assert_eq!(&b[1].2[..0x50], &data[0x100..]);
    assert!(b[1].2[0x50..].iter().all(|&x| x == 0xff));
}

#[test]
fn v5_is_unavailable() {
    let img = FirmwareImage::load(&raw_image(0x800)).unwrap();
    assert_eq!(
        build_sequence(FlashKind::V5, &img, "5.00.05", 0, WRITE_ID),
        Err(FlashError::V5Unavailable)
    );
}

#[test]
fn v2_sequence_decodes_to_requests() {
    let mut raw = raw_image(0x180);
    raw.resize(0x800, 0x5a);
    let img = FirmwareImage::load(&raw).unwrap();
    let seq = build_sequence(FlashKind::V2, &img, "2.01.23", 0, WRITE_ID).unwrap();
    let mut proto = ProtocolV2::new();
    assert_eq!(deframe(&seq[0]).unwrap(), proto.version_packet("2.01.23"));
    for (i, (no, count, block, len)) in blocks(&img.data).into_iter().enumerate() {
        assert_eq!(deframe(&seq[i + 1]).unwrap(), proto.write_packet(no, count, &block, len, WRITE_ID));
    }
}

#[test]
fn version_packet_truncates_long_version() {
    let p = ProtocolV2::new().version_packet("0123456789abcdefXYZ");
    assert_eq!(&p[4..20], b"0123456789abcdef");
    assert_eq!(p.len(), 20);
    assert_eq!(ProtocolV2::new().beacon_id(), 0x0518);
}

#[test]
fn write_ack_requires_id_and_length() {
    let p = ProtocolV2::new();
    assert_eq!(p.parse_write_ack(&[0x1a, 0x05, 0, 0, 0, 0, 0, 0, 0x03, 0x00]), None);
    assert_eq!(p.parse_write_ack(&[0x1c, 0x05, 0, 0, 0, 0, 0, 0, 0x03, 0x00, 0x00]), None);
    assert_eq!(p.parse_write_ack(&[0x1a, 0x05, 0, 0, 0, 0, 0, 0, 0x34, 0x12, 0x01]), Some((0x1234, 1)));
}
