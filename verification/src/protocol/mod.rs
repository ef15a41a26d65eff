//! UV-K5 wire protocol: CRC, obfuscation, framing, command builders, and
//! packet naming.

pub mod commands;
pub mod crc;
pub mod frame;
pub mod obfuscation;
pub mod packet;

pub use crc::crc16_xmodem;
pub use frame::{deframe, frame, FrameScanner, ProtocolError};
pub use obfuscation::{xor_firmware, xor_payload, FIRMWARE_XOR, PAYLOAD_XOR};
pub use packet::describe;
