//! The enumerated flash capacities a user may supply to override the size of
//! ROM-class memory regions.

use vstd::prelude::*;

verus! {

/// The standard flash capacities, from 256 KB up to 256 MB.
#[derive(Clone, Copy, Debug, PartialEq, Eq, Structural)]
pub enum FlashSize {
    _256Kb,
    _512Kb,
    _1Mb,
    _2Mb,
    _4Mb,
    _8Mb,
    _16Mb,
    _32Mb,
    _64Mb,
    _128Mb,
    _256Mb,
}

/// The largest capacity in the enumeration, in bytes (256 MB).
pub const MAX_FLASH_BYTES: u64 = 0x1000_0000;

/// The byte count of each flash capacity.
pub open spec fn spec_flash_bytes(fs: FlashSize) -> nat {
    match fs {
        FlashSize::_256Kb => 256 * 1024,
        FlashSize::_512Kb => 512 * 1024,
        FlashSize::_1Mb => 1024 * 1024,
        FlashSize::_2Mb => 2 * 1024 * 1024,
        FlashSize::_4Mb => 4 * 1024 * 1024,
        FlashSize::_8Mb => 8 * 1024 * 1024,
        FlashSize::_16Mb => 16 * 1024 * 1024,
        FlashSize::_32Mb => 32 * 1024 * 1024,
        FlashSize::_64Mb => 64 * 1024 * 1024,
        FlashSize::_128Mb => 128 * 1024 * 1024,
        FlashSize::_256Mb => 256 * 1024 * 1024,
    }
}

/// Every capacity is positive and no larger than `MAX_FLASH_BYTES`.
pub proof fn lemma_flash_bytes_bounded(fs: FlashSize)
    ensures
        1 <= spec_flash_bytes(fs) <= MAX_FLASH_BYTES,
{
}

impl FlashSize {
    /// The capacity in bytes.
    pub fn bytes(self) -> (r: u64)
        ensures
            r == spec_flash_bytes(self),
    {
        match self {
            FlashSize::_256Kb => 256 * 1024,
            FlashSize::_512Kb => 512 * 1024,
            FlashSize::_1Mb => 1024 * 1024,
            FlashSize::_2Mb => 2 * 1024 * 1024,
            FlashSize::_4Mb => 4 * 1024 * 1024,
            FlashSize::_8Mb => 8 * 1024 * 1024,
            FlashSize::_16Mb => 16 * 1024 * 1024,
            FlashSize::_32Mb => 32 * 1024 * 1024,
            FlashSize::_64Mb => 64 * 1024 * 1024,
            FlashSize::_128Mb => 128 * 1024 * 1024,
            FlashSize::_256Mb => 256 * 1024 * 1024,
        }
    }
}

} // verus!
