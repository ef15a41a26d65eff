//! EEPROM geometry and the checks made before touching the radio's memory:
//! the confirmation levels that guard dangerous operations, range checks for
//! reads and partial writes, and the split of a partial write into blocks.

use vstd::prelude::*;

use crate::flash::FlashKind;

verus! {

/// EEPROM size in bytes.
pub const SIZE: usize = 0x2000;

/// Largest block a single read or write request carries.
pub const BLOCK: usize = 0x80;

/// EEPROM size without the calibration area.
pub const SIZE_NO_CALIB: usize = 0x1d00;

/// Start of the calibration region.
pub const CALIB_START: usize = 0x1e00;

/// Size of the calibration region (`0x1e00..0x2000`).
pub const CALIB_SIZE: usize = 0x200;

/// Addressable range of the range operations.
pub const RANGE_LIMIT: usize = 0x10000;

/// A flashed image below this many bytes is suspiciously small.
pub const SMALL_IMAGE: usize = 50_000;

/// Which blocks a full EEPROM write touches.
#[derive(Debug, Clone, Copy, PartialEq, Eq, Structural)]
pub enum WriteMode {
    /// The vendor block list and order.
    Original,
    /// Everything up to `0x1d00` (no calibration).
    Most,
    /// The whole EEPROM, calibration included.
    All,
}

/// Why an operation was refused before the radio was touched.
#[derive(Debug, Clone, Copy, PartialEq, Eq, Structural)]
pub enum Refusal {
    /// The operation needs at least `required` confirmations.
    NeedsConfirmation { required: u8 },
    /// The `len` bytes from `start` run past `limit`.
    OutOfRange { start: u64, len: u64, limit: u64 },
    /// The input must be exactly `expected` bytes; it has `actual`.
    WrongSize { expected: usize, actual: usize },
    /// The image has only `len` bytes; flashing it needs `required` confirmations.
    SmallImage { len: usize, required: u8 },
}

/// Confirmation level a live flash needs with protocol `kind`.
pub open spec fn flash_level(kind: FlashKind) -> int {
    match kind {
        FlashKind::V2 => 3,
        FlashKind::V5 => 5,
    }
}

/// Checks the confirmation level of a live flash of an image of `image_len`
/// bytes: the protocol's level, and two more for a suspiciously small image.
pub fn flash_gate(kind: FlashKind, confirm: u8, image_len: usize) -> (r: Result<(), Refusal>)
    ensures
        r is Ok <==> confirm >= flash_level(kind) && (image_len >= SMALL_IMAGE || confirm
            >= flash_level(kind) + 2),
        confirm < flash_level(kind) ==> r == Err::<(), Refusal>(
            Refusal::NeedsConfirmation { required: flash_level(kind) as u8 },
        ),
        confirm >= flash_level(kind) && image_len < SMALL_IMAGE && confirm < flash_level(kind) + 2
            ==> r == Err::<(), Refusal>(
            Refusal::SmallImage { len: image_len, required: (flash_level(kind) + 2) as u8 },
        ),
{
    let level: u8 = match kind {
        FlashKind::V2 => 3,
        FlashKind::V5 => 5,
    };
    if confirm < level {
        return Err(Refusal::NeedsConfirmation { required: level });
    }
    if image_len < SMALL_IMAGE && confirm < level + 2 {
        return Err(Refusal::SmallImage { len: image_len, required: level + 2 });
    }
    Ok(())
}

/// Start of a range read: the offset, or 0.
pub open spec fn read_start(offset: Option<u32>) -> int {
    match offset {
        Some(o) => o as int,
        None => 0,
    }
}

/// Length of a range read: the size, or the rest of the EEPROM image from
/// the start (nothing when the start lies past it).
pub open spec fn read_len(offset: Option<u32>, size: Option<u32>) -> int {
    match size {
        Some(s) => s as int,
        None => if read_start(offset) >= SIZE {
            0
        } else {
            SIZE - read_start(offset)
        },
    }
}

/// Resolves the range of an EEPROM read to `(start, len)`; refuses a range
/// that runs past `limit`.
pub fn read_range(offset: Option<u32>, size: Option<u32>, limit: usize) -> (r: Result<
    (usize, usize),
    Refusal,
>)
    ensures
        read_start(offset) + read_len(offset, size) <= limit ==> r == Ok::<_, Refusal>(
            (read_start(offset) as usize, read_len(offset, size) as usize),
        ),
        read_start(offset) + read_len(offset, size) > limit ==> r == Err::<(usize, usize), _>(
            Refusal::OutOfRange {
                start: read_start(offset) as u64,
                len: read_len(offset, size) as u64,
                limit: limit as u64,
            },
        ),
{
    let start: u32 = match offset {
        Some(o) => o,
        None => 0,
    };
    let len: u64 = match size {
        Some(s) => s as u64,
        None => if start as u64 >= SIZE as u64 {
            0
        } else {
            SIZE as u64 - start as u64
        },
    };
    let end: u64 = start as u64 + len;
    if end > limit as u64 {
        return Err(Refusal::OutOfRange { start: start as u64, len, limit: limit as u64 });
    }
    Ok((start as usize, len as usize))
}

/// Checks an EEPROM write of `len` bytes from a file: at `offset` when one is
/// given (a partial write, which needs a confirmation and must fit in the
/// EEPROM), else a full image in `mode` (`All` needs a confirmation; the image
/// must be exactly [`SIZE`] bytes).
pub fn eeprom_write_gate(mode: WriteMode, offset: Option<u32>, confirm: u8, len: usize) -> (r:
    Result<(), Refusal>)
    ensures
        offset matches Some(off) ==> r == (if confirm < 1 {
            Err(Refusal::NeedsConfirmation { required: 1 })
        } else if off + len > SIZE {
            Err(
                Refusal::OutOfRange {
                    start: off as u64,
                    len: len as u64,
                    limit: SIZE as u64,
                },
            )
        } else {
            Ok(())
        }),
        offset is None ==> r == (if mode == WriteMode::All && confirm < 1 {
            Err(Refusal::NeedsConfirmation { required: 1 })
        } else if len != SIZE {
            Err(Refusal::WrongSize { expected: SIZE, actual: len })
        } else {
            Ok(())
        }),
{
    match offset {
        Some(off) => {
            if confirm < 1 {
                return Err(Refusal::NeedsConfirmation { required: 1 });
            }
            if len > SIZE || off as usize > SIZE - len {
                return Err(
                    Refusal::OutOfRange { start: off as u64, len: len as u64, limit: SIZE as u64 },
                );
            }
            Ok(())
        },
        None => {
            if mode == WriteMode::All && confirm < 1 {
                return Err(Refusal::NeedsConfirmation { required: 1 });
            }
            if len != SIZE {
                return Err(Refusal::WrongSize { expected: SIZE, actual: len });
            }
            Ok(())
        },
    }
}

/// Checks a calibration write of `len` bytes: it needs a confirmation and
/// exactly [`CALIB_SIZE`] bytes.
pub fn calibration_write_gate(confirm: u8, len: usize) -> (r: Result<(), Refusal>)
    ensures
        r == (if confirm < 1 {
            Err(Refusal::NeedsConfirmation { required: 1 })
        } else if len != CALIB_SIZE {
            Err(Refusal::WrongSize { expected: CALIB_SIZE, actual: len })
        } else {
            Ok(())
        }),
{
    if confirm < 1 {
        return Err(Refusal::NeedsConfirmation { required: 1 });
    }
    if len != CALIB_SIZE {
        return Err(Refusal::WrongSize { expected: CALIB_SIZE, actual: len });
    }
    Ok(())
}

/// Number of blocks a partial write of `len` bytes takes.
pub open spec fn plan_len(len: int) -> int {
    (len + BLOCK - 1) / BLOCK as int
}

/// Block `i` of a partial write of `len` bytes at `offset`: its EEPROM
/// address (the low 16 bits of `offset + i * BLOCK`), its start in the data,
/// and its length (a full block, or what is left).
pub open spec fn plan_block(offset: int, len: int, i: int) -> (u16, usize, usize) {
    let done = i * BLOCK;
    (
        (offset + done) as u16,
        done as usize,
        (if len - done < BLOCK {
            len - done
        } else {
            BLOCK as int
        }) as usize,
    )
}

/// Splits a partial write of `len` bytes at `offset` into block writes
/// `(address, start in data, length)`, in order.
pub fn partial_write_plan(offset: usize, len: usize) -> (r: Vec<(u16, usize, usize)>)
    requires
        offset + len <= usize::MAX,
    ensures
        r@.len() == plan_len(len as int),
        forall|i: int| 0 <= i < r@.len() ==> #[trigger] r@[i] == plan_block(offset as int, len as int, i),
        r@.len() > 0 ==> r@.last().1 + r@.last().2 == len,
{
    let mut out: Vec<(u16, usize, usize)> = Vec::new();
    let mut done: usize = 0;
    while done < len
        invariant
            done <= len,
            offset + len <= usize::MAX,
            done < len ==> done == out@.len() * BLOCK,
            out@.len() == 0 ==> done == 0,
            forall|i: int| 0 <= i < out@.len() ==> #[trigger] out@[i] == plan_block(offset as int, len as int, i),
            out@.len() > 0 ==> out@.last().1 + out@.last().2 == done,
            done < len ==> out@.len() < plan_len(len as int),
            done >= len ==> out@.len() == plan_len(len as int),
        decreases len - done,
    {
        let n: usize = if len - done < BLOCK {
            len - done
        } else {
            BLOCK
        };
        let addr: u16 = #[verifier::truncate] ((offset + done) as u16);
        let ghost k = out@.len() as int;
        out.push((addr, done, n));
        assert(out@[k] == plan_block(offset as int, len as int, k));
        done = done + n;
        proof {
            assert(plan_len(len as int) == (len + BLOCK - 1) / BLOCK as int);
            if done < len {
                assert((k + 1) * 128 < len);
                assert((len + 127) / 128 > k + 1) by (nonlinear_arith)
                    requires
                        (k + 1) * 128 < len,
                ;
            } else {
                assert((len + 127) / 128 == k + 1) by (nonlinear_arith)
                    requires
                        k * 128 < len,
                        len <= k * 128 + 128,
                ;
            }
        }
    }
    proof {
        if len == 0 {
            assert(plan_len(0) == 0);
        }
    }
    out
}

} // verus!
