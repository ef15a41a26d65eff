//! CPU / radio revision detection from the ARM vector table.

use vstd::prelude::*;

use vstd::string::StringSliceAdditionalSpecFns;

use crate::protocol::frame::le16;

verus! {

/// Supported CPU / radio revision.
#[derive(Debug, Clone, Copy, PartialEq, Eq, Structural)]
pub enum Cpu {
    /// V1, DP32G030.
    Dp32g030,
    /// V2, PY32F030.
    Py32f030,
    /// V3 / K1, PY32F071.
    Py32f071,
}

/// Maximum flashable firmware size of each processor.
pub open spec fn flash_limit_of(cpu: Cpu) -> usize {
    match cpu {
        Cpu::Dp32g030 => 0xf000,
        Cpu::Py32f030 => 0x10000,
        Cpu::Py32f071 => 0x12000,
    }
}

/// Maximum addressable EEPROM range of each processor.
pub open spec fn eeprom_limit_of(cpu: Cpu) -> usize {
    match cpu {
        Cpu::Dp32g030 => 0x2000,
        _ => 0x10000,
    }
}

/// CPU expected for a bootloader version, by the first byte of its UTF-8
/// text: `1` → PY32F030, `2`..`5` → DP32G030, `7` → PY32F071.
pub open spec fn boot_cpu_of(version: Seq<u8>) -> Option<Cpu> {
    if version.len() == 0 {
        None
    } else if version[0] == 0x31 {
        Some(Cpu::Py32f030)
    } else if 0x32 <= version[0] <= 0x35 {
        Some(Cpu::Dp32g030)
    } else if version[0] == 0x37 {
        Some(Cpu::Py32f071)
    } else {
        None
    }
}

/// Little-endian 32-bit value of four bytes.
pub open spec fn le32(b0: u8, b1: u8, b2: u8, b3: u8) -> int {
    le16(b0, b1) + le16(b2, b3) * 65536
}

/// CPU detected from a raw image's vector table: images shorter than the
/// table, or whose initial stack pointer does not point into SRAM, count as
/// DP32G030; a Reset vector at or above `0x0800_2000` means PY32F071;
/// otherwise the zero bytes at 6, 10 and 14 tell DP32G030 from PY32F030.
pub open spec fn detect_cpu_of(raw: Seq<u8>) -> Cpu {
    if raw.len() < 0x3c {
        Cpu::Dp32g030
    } else if raw[2] == 0x00 && raw[3] == 0x20 {
        if le32(raw[4], raw[5], raw[6], raw[7]) >= 0x0800_2000 {
            Cpu::Py32f071
        } else if raw[6] == 0x00 && raw[10] == 0x00 && raw[14] == 0x00 {
            Cpu::Dp32g030
        } else {
            Cpu::Py32f030
        }
    } else {
        Cpu::Dp32g030
    }
}

impl Cpu {
    /// Maximum flashable firmware size for this processor.
    pub fn flash_limit(self) -> (n: usize)
        ensures
            n == flash_limit_of(self),
    {
        match self {
            Cpu::Dp32g030 => 0xf000,
            Cpu::Py32f030 => 0x10000,
            Cpu::Py32f071 => 0x12000,
        }
    }

    /// Maximum addressable EEPROM range for this processor.
    pub fn eeprom_limit(self) -> (n: usize)
        ensures
            n == eeprom_limit_of(self),
    {
        match self {
            Cpu::Dp32g030 => 0x2000,
            _ => 0x10000,
        }
    }

    /// Returns the expected CPU for a given bootloader version string, or
    /// `None` when the version cannot be mapped to a known CPU.
    pub fn from_boot_version(version: &str) -> (r: Option<Cpu>)
        ensures
            r == boot_cpu_of(version.spec_bytes()),
    {
        let bytes = version.as_bytes();
        if bytes.len() == 0 {
            return None;
        }
        match bytes[0] {
            0x31 => Some(Cpu::Py32f030),
            0x32 | 0x33 | 0x34 => Some(Cpu::Dp32g030),
            0x35 => Some(Cpu::Dp32g030),
            0x37 => Some(Cpu::Py32f071),
            _ => None,
        }
    }
}

/// Identifies the CPU from the raw (decrypted) firmware vector table.
pub fn detect_cpu(raw: &[u8]) -> (c: Cpu)
    ensures
        c == detect_cpu_of(raw@),
{
    if raw.len() < 0x3c {
        return Cpu::Dp32g030;
    }
    let is_raw = raw[2] == 0x00 && raw[3] == 0x20;

    if is_raw {
        let reset: u32 = raw[4] as u32 + (raw[5] as u32) * 256 + (raw[6] as u32) * 65536 + (
        raw[7] as u32) * 16777216;
        if reset >= 0x0800_2000 {
            return Cpu::Py32f071;
        }
        if raw[6] == 0x00 && raw[10] == 0x00 && raw[14] == 0x00 {
            Cpu::Dp32g030
        } else {
            Cpu::Py32f030
        }
    } else {
        Cpu::Dp32g030
    }
}

} // verus!
