//! What the ATA-PIO sector read decides: the register values it writes for a
//! drive and an LBA28 address, how it reads the status register while it
//! polls, and how it splits the data words into bytes. The port I/O itself
//! is done by the caller.

use vstd::prelude::*;

verus! {

/// Which drive on the primary channel.
#[derive(Copy, Clone, Debug, PartialEq, Eq, Structural)]
pub enum Drive {
    Master,
    Slave,
}

/// Why a sector read failed.
#[derive(Copy, Clone, Debug, PartialEq, Eq, Structural)]
pub enum AtaError {
    /// The drive raised the drive-fault bit.
    DriveFault,
    /// The drive raised the error bit.
    Error,
    /// Polling hit its iteration cap without the expected status.
    Timeout,
}

pub const STATUS_ERR: u8 = 0x01;
pub const STATUS_DRQ: u8 = 0x08;
pub const STATUS_DF: u8 = 0x20;
pub const STATUS_BSY: u8 = 0x80;

/// Status polls before a wait gives up.
pub const POLL_LIMIT: u32 = 1_000_000;

/// Largest LBA28 address plus one.
pub const LBA28_LIMIT: u32 = 0x1000_0000;

/// Drive/head register: LBA mode with the drive bit, and bits 24..28 of
/// the address (higher bits of `lba` are masked off).
pub fn drive_byte(drive: Drive, lba: u32) -> (b: u8)
    ensures
        b == (match drive { Drive::Master => 0xE0int, Drive::Slave => 0xF0int }) + (lba / 0x100_0000) % 16,
{
    let top = (lba >> 24) as u8 & 0x0F;
    proof {
        assert((lba >> 24) as u8 & 0x0F == (lba / 0x100_0000) % 16) by (bit_vector);
        assert(top < 16);
    }
    match drive {
        Drive::Master => {
            assert(0xE0u8 | top == 0xE0u8 + top) by (bit_vector)
                requires
                    top < 16u8;
            0xE0 | top
        },
        Drive::Slave => {
            assert(0xF0u8 | top == 0xF0u8 + top) by (bit_vector)
                requires
                    top < 16u8;
            0xF0 | top
        },
    }
}

/// Low, middle and high address registers: bits 0..8, 8..16 and 16..24.
pub fn lba_bytes(lba: u32) -> (r: (u8, u8, u8))
    ensures
        r.0 == lba % 0x100,
        r.1 == (lba / 0x100) % 0x100,
        r.2 == (lba / 0x1_0000) % 0x100,
{
    let lo = (lba & 0xFF) as u8;
    let mid = ((lba >> 8) & 0xFF) as u8;
    let hi = ((lba >> 16) & 0xFF) as u8;
    proof {
        assert(lba & 0xFF == lba % 0x100) by (bit_vector);
        assert((lba >> 8) & 0xFF == (lba / 0x100) % 0x100) by (bit_vector);
        assert((lba >> 16) & 0xFF == (lba / 0x1_0000) % 0x100) by (bit_vector);
    }
    (lo, mid, hi)
}

/// While waiting for BSY to clear: `true` once the drive is not busy.
pub fn not_busy(status: u8) -> (b: bool)
    ensures
        b == (status & STATUS_BSY == 0),
{
    status & STATUS_BSY == 0
}

/// While waiting for data: an error, a fault, ready (not busy and DRQ
/// set), or `None` to keep polling.
pub fn data_ready(status: u8) -> (r: Option<Result<(), AtaError>>)
    ensures
        status & STATUS_ERR != 0 ==> r == Some(Err::<(), AtaError>(AtaError::Error)),
        status & STATUS_ERR == 0 && status & STATUS_DF != 0 ==> r == Some(Err::<(), AtaError>(AtaError::DriveFault)),
        status & STATUS_ERR == 0 && status & STATUS_DF == 0 && status & STATUS_BSY == 0 && status & STATUS_DRQ != 0
            ==> r == Some(Ok::<(), AtaError>(())),
        status & STATUS_ERR == 0 && status & STATUS_DF == 0 && !(status & STATUS_BSY == 0 && status & STATUS_DRQ != 0)
            ==> r is None,
{
    if status & STATUS_ERR != 0 {
        Some(Err(AtaError::Error))
    } else if status & STATUS_DF != 0 {
        Some(Err(AtaError::DriveFault))
    } else if status & STATUS_BSY == 0 && status & STATUS_DRQ != 0 {
        Some(Ok(()))
    } else {
        None
    }
}

/// The two bytes of a little-endian data word.
pub fn word_bytes(w: u16) -> (r: (u8, u8))
    ensures
        r.0 == w % 0x100,
        r.1 == w / 0x100,
{
    proof {
        assert(w & 0xFF == w % 0x100) by (bit_vector);
        assert(w >> 8 == w / 0x100) by (bit_vector);
    }
    ((w & 0xFF) as u8, (w >> 8) as u8)
}

} // verus!
