//! Limits of the nRF52832, the chip this build of the driver is laid out for.
use vstd::prelude::*;

verus! {

/// Most bytes that one EasyDMA burst moves: `MAXCNT` is eight bits wide.
pub const EASY_DMA_SIZE: usize = 255;

/// Capacity of the staging buffer through which bytes that the DMA engine
/// cannot reach are sent.
pub const FORCE_COPY_BUFFER_SIZE: usize = 255;

/// First address of data RAM.
pub const SRAM_LOWER: usize = 0x2000_0000;

/// First address past data RAM.
pub const SRAM_UPPER: usize = 0x3000_0000;

} // verus!
