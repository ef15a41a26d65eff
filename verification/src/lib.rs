//! Hardware-independent core for programming Quansheng UV-K5 radios over a
//! serial line: the wire protocol (CRC, obfuscation, framing, command
//! payloads, packet naming), EEPROM geometry and operation checks, firmware
//! image handling, flash packet sequences,
//! a byte-transport abstraction and the high-level client built on it.

pub mod client;
pub mod eeprom;
pub mod firmware;
pub mod flash;
pub mod hex;
pub mod protocol;
pub mod text;
pub mod transport;
