//! The three bus capabilities that device drivers ask for: write, read, and
//! write followed by read, each for buffers that may lie anywhere.
use crate::error::{refused, Error};
use crate::memory::Descriptor;
use crate::protocol::{generic_written, was_read, write_read_done};
use crate::registers::Instance;
use crate::target_constants::{EASY_DMA_SIZE, FORCE_COPY_BUFFER_SIZE};
use crate::twim::Twim;
use vstd::prelude::*;

verus! {

/// How the bytes of a source reach the bus.
#[derive(Debug, Copy, Clone, Eq, PartialEq)]
pub enum Strategy {
    /// The DMA engine reads the source where it lies.
    Direct,
    /// The source is copied through the staging buffer, window by window.
    Copy,
}

impl Strategy {
    /// The strategy for a source: direct if and only if it lies in RAM.
    pub fn for_source(tx: &Descriptor) -> (r: Strategy)
        ensures
            r is Direct <==> tx.in_ram(),
    {
        if tx.is_in_ram() {
            Strategy::Direct
        } else {
            Strategy::Copy
        }
    }
}

impl<T: Instance> Twim<T> {
    /// Writes `bytes`, which the DMA engine finds at `bytes_ptr`, to the
    /// slave at `address`: in one burst if they lie in RAM, else window by
    /// window through `scratch`, which it finds at `scratch_ptr`.
    pub fn generic_write_dma(
        &mut self,
        address: u8,
        bytes: &[u8],
        bytes_ptr: usize,
        scratch: &mut [u8; FORCE_COPY_BUFFER_SIZE],
        scratch_ptr: usize,
    ) -> (r: Result<(), Error>)
        ensures
            generic_written(
                old(self).history(),
                final(self).history(),
                address,
                bytes@,
                Descriptor { ptr: bytes_ptr, len: bytes@.len() as usize },
                scratch_ptr,
                r,
            ),
            refused(r) ==> final(self).peripheral() == old(self).peripheral(),
            !(r matches Err(Error::RxBufferTooLong)) && !(r matches Err(Error::Receive)),
            r is Ok ==> final(self).phase() is Idle || *final(self) == *old(self),
            old(self).at_rest() ==> final(self).at_rest(),
            final(self).drove_since(*old(self)),
    {
        let tx = Descriptor { ptr: bytes_ptr, len: bytes.len() };
        match Strategy::for_source(&tx) {
            Strategy::Direct => self.write_dma(address, tx),
            Strategy::Copy => self.copy_write_dma(address, bytes, scratch, scratch_ptr),
        }
    }

    /// Writes `bytes` to the slave at `address`, wherever they lie.
    pub fn generic_write(&mut self, address: u8, bytes: &[u8]) -> (r: Result<(), Error>)
        ensures
            exists|tx: Descriptor, scratch: usize|
                tx.len == bytes@.len() && #[trigger] generic_written(
                    old(self).history(),
                    final(self).history(),
                    address,
                    bytes@,
                    tx,
                    scratch,
                    r,
                ),
            refused(r) ==> final(self).peripheral() == old(self).peripheral(),
            !(r matches Err(Error::RxBufferTooLong)) && !(r matches Err(Error::Receive)),
            r is Ok ==> final(self).phase() is Idle || *final(self) == *old(self),
            old(self).at_rest() ==> final(self).at_rest(),
            final(self).drove_since(*old(self)),
    {
        let tx = Descriptor::of(bytes);
        let mut scratch = [0u8; FORCE_COPY_BUFFER_SIZE];
        let located = Descriptor::of(&scratch);
        self.generic_write_dma(address, bytes, tx.ptr, &mut scratch, located.ptr)
    }

    /// Reads from the slave at `address` until `buffer` is full. A buffer
    /// that can be written to lies in RAM, so this is [`Twim::read`].
    pub fn generic_read(&mut self, address: u8, buffer: &mut [u8]) -> (r: Result<(), Error>)
        ensures
            exists|rx: Descriptor|
                rx.len == old(buffer)@.len() && #[trigger] was_read(
                    old(self).history(),
                    final(self).history(),
                    address,
                    rx,
                    r,
                ),
            old(buffer)@.len() > EASY_DMA_SIZE ==> (r matches Err(Error::RxBufferTooLong)),
            refused(r) <==> old(buffer)@.len() > EASY_DMA_SIZE,
            refused(r) ==> *final(self) == *old(self) && final(buffer)@ == old(buffer)@,
            (r matches Err(Error::AddressNack)) ==> final(buffer)@ == old(buffer)@,
            !refused(r) ==> final(self).phase() is Idle,
            old(self).at_rest() ==> final(self).at_rest(),
            final(self).drove_since(*old(self)),
    {
        self.read(address, buffer)
    }

    /// Writes `bytes`, which the DMA engine finds at `bytes_ptr`, to the
    /// slave at `address`, then reads from it into the buffer that `rx`
    /// describes, with no stop between the two: directly if the bytes lie in
    /// RAM, else through `scratch`, which it finds at `scratch_ptr`.
    pub fn write_read_dma(
        &mut self,
        address: u8,
        bytes: &[u8],
        bytes_ptr: usize,
        scratch: &mut [u8; FORCE_COPY_BUFFER_SIZE],
        scratch_ptr: usize,
        rx: Descriptor,
    ) -> (r: Result<(), Error>)
        ensures
            write_read_done(
                old(self).history(),
                final(self).history(),
                address,
                bytes@,
                Descriptor { ptr: bytes_ptr, len: bytes@.len() as usize },
                scratch_ptr,
                rx,
                r,
            ),
            rx.len > EASY_DMA_SIZE ==> refused(r),
            refused(r) ==> *final(self) == *old(self),
            !(r matches Err(Error::DMABufferNotInDataMemory)),
            r is Ok ==> final(self).phase() is Idle,
            old(self).at_rest() ==> final(self).at_rest(),
            final(self).drove_since(*old(self)),
    {
        let tx = Descriptor { ptr: bytes_ptr, len: bytes.len() };
        match Strategy::for_source(&tx) {
            Strategy::Direct => self.write_then_read_dma(address, tx, rx),
            Strategy::Copy => self.copy_write_then_read_dma(
                address,
                bytes,
                scratch,
                scratch_ptr,
                rx,
            ),
        }
    }

    /// Writes `bytes` to the slave at `address`, wherever they lie, then
    /// reads from it until `buffer` is full, without a stop condition between
    /// the two.
    ///
    /// `buffer` holds what it held whenever no receive burst was started:
    /// where the request is refused, where the slave does not acknowledge its
    /// address, and where a window of a copied source is sent short.
    pub fn write_read(&mut self, address: u8, bytes: &[u8], buffer: &mut [u8]) -> (r: Result<
        (),
        Error,
    >)
        ensures
            exists|tx: Descriptor, scratch: usize, rx: Descriptor|
                tx.len == bytes@.len() && rx.len == old(buffer)@.len()
                    && #[trigger] write_read_done(
                    old(self).history(),
                    final(self).history(),
                    address,
                    bytes@,
                    tx,
                    scratch,
                    rx,
                    r,
                ) && (!tx.in_ram() && (r matches Err(Error::Transmit)) ==> final(buffer)@
                    == old(buffer)@),
            old(buffer)@.len() > EASY_DMA_SIZE ==> refused(r),
            refused(r) ==> *final(self) == *old(self) && final(buffer)@ == old(buffer)@,
            (r matches Err(Error::AddressNack)) ==> final(buffer)@ == old(buffer)@,
            !(r matches Err(Error::DMABufferNotInDataMemory)),
            r is Ok ==> final(self).phase() is Idle,
            old(self).at_rest() ==> final(self).at_rest(),
            final(self).drove_since(*old(self)),
    {
        let tx = Descriptor::of(bytes);
        let rx = Descriptor::of_mut(buffer);
        let mut scratch = [0u8; FORCE_COPY_BUFFER_SIZE];
        let located = Descriptor::of(&scratch);
        self.write_read_dma(address, bytes, tx.ptr, &mut scratch, located.ptr, rx)
    }
}

} // verus!
