//! Where buffers lie, and whether the DMA engine can reach them.
use crate::target_constants::{SRAM_LOWER, SRAM_UPPER};
use vstd::prelude::*;

verus! {

/// What the DMA engine is told of a buffer: where it starts and how many
/// bytes it holds.
#[derive(Debug, Copy, Clone, Eq, PartialEq)]
pub struct Descriptor {
    /// Address of the first byte.
    pub ptr: usize,
    /// Number of bytes.
    pub len: usize,
}

/// Calls `<[u8]>::as_ptr` and turns the pointer into its address. An address
/// is a fact of one run of the program, so nothing is claimed of it.
#[verifier::external_body]
fn start_of(buffer: &[u8]) -> (ptr: usize) {
    buffer.as_ptr() as usize
}

/// Calls `<[u8]>::as_mut_ptr` and turns the pointer into its address. Taking
/// the pointer writes nothing, so the buffer holds what it held; nothing is
/// claimed of the address.
#[verifier::external_body]
fn start_of_mut(buffer: &mut [u8]) -> (ptr: usize)
    ensures
        final(buffer)@ == old(buffer)@,
{
    buffer.as_mut_ptr() as usize
}

impl Descriptor {
    /// The buffer lies wholly in data RAM, where the DMA engine can read it.
    pub open spec fn in_ram(self) -> bool {
        SRAM_LOWER <= self.ptr && self.ptr + self.len < SRAM_UPPER
    }

    /// Describes a buffer that is only read.
    pub fn of(buffer: &[u8]) -> (d: Descriptor)
        ensures
            d.len == buffer@.len(),
    {
        Descriptor { ptr: start_of(buffer), len: buffer.len() }
    }

    /// Describes a buffer that the DMA engine will fill.
    pub fn of_mut(buffer: &mut [u8]) -> (d: Descriptor)
        ensures
            d.len == old(buffer)@.len(),
            final(buffer)@ == old(buffer)@,
    {
        let len: usize = buffer.len();
        Descriptor { ptr: start_of_mut(buffer), len }
    }

    /// Tests [`Descriptor::in_ram`].
    pub fn is_in_ram(&self) -> (r: bool)
        ensures
            r == self.in_ram(),
    {
        self.ptr >= SRAM_LOWER && self.ptr < SRAM_UPPER && self.len < SRAM_UPPER - self.ptr
    }
}

} // verus!
