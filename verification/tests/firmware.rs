use rustsheng::firmware::cpu::Cpu;
use rustsheng::firmware::{FirmwareError, FirmwareImage};
use rustsheng::protocol::{crc16_xmodem, xor_firmware};

fn raw_image(len: usize) -> Vec<u8> {
    let mut v = vec![0u8; len];
    // ARM vector-table markers checked by `looks_raw`.
    v[2] = 0x00;
    v[3] = 0x20;
    v[6] = 0x00;
    v[10] = 0x00;
    v[14] = 0x00;
    v
}

#[test]
fn loads_raw_image() {
    let img = FirmwareImage::load(&raw_image(0x1000)).unwrap();
    assert_eq!(img.embedded_version, None);
    assert_eq!(img.data.len(), 0x1000);
}

#[test]
fn rejects_tiny_file() {
    assert_eq!(
        FirmwareImage::load(&[0u8; 16]),
        Err(FirmwareError::TooSmall)
    );
}

#[test]
fn decrypts_vendor_image_and_strips_version() {
    // Build a raw image with a version string at 0x2000, then encrypt it.
    let mut raw = raw_image(0x2000 + 16 + 0x40);
    raw[0x2000..0x2000 + 7].copy_from_slice(b"2.01.23");
    let mut enc = raw.clone();
    xor_firmware(&mut enc);
    let crc = crc16_xmodem(&enc);
    enc.push((crc & 0xff) as u8);
    enc.push((crc >> 8) as u8);

    let img = FirmwareImage::load(&enc).unwrap();
    assert_eq!(img.embedded_version.as_deref(), Some("2.01.23"));
    assert_eq!(img.data.len(), raw.len() - 16);
}

#[test]
fn blocks_are_block_sized() {
    let img = FirmwareImage::load(&raw_image(0x850)).unwrap();
    let blocks = img.blocks();
    assert_eq!(blocks[0].0, 0x0000);
    assert_eq!(blocks[1].0, 0x0100);
    assert_eq!(blocks[8].0, 0x0800);
    assert_eq!(blocks[8].1.len(), 0x50);
}

#[test]
fn flash_limits_are_distinct() {
    assert_eq!(Cpu::Dp32g030.flash_limit(), 0xf000);
    assert_eq!(Cpu::Py32f030.flash_limit(), 0x10000);
    assert_eq!(Cpu::Py32f071.flash_limit(), 0x12000);
}

#[test]
fn eeprom_limits() {
    assert_eq!(Cpu::Dp32g030.eeprom_limit(), 0x2000);
    assert_eq!(Cpu::Py32f030.eeprom_limit(), 0x10000);
    assert_eq!(Cpu::Py32f071.eeprom_limit(), 0x10000);
}

#[test]
fn boot_version_maps_to_cpu() {
    assert_eq!(Cpu::from_boot_version("1.02.01"), Some(Cpu::Py32f030));
    assert_eq!(Cpu::from_boot_version("2.00.06"), Some(Cpu::Dp32g030));
    assert_eq!(Cpu::from_boot_version("3.00.22"), Some(Cpu::Dp32g030));
    assert_eq!(Cpu::from_boot_version("4.00.09"), Some(Cpu::Dp32g030));
    assert_eq!(Cpu::from_boot_version("5.00.05"), Some(Cpu::Dp32g030));
    assert_eq!(Cpu::from_boot_version("7.03.01"), Some(Cpu::Py32f071));
    assert_eq!(Cpu::from_boot_version(""), None);
    assert_eq!(Cpu::from_boot_version("99.99.99"), None);
}
