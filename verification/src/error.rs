//! Outcomes of a failed transaction.
use vstd::prelude::*;

verus! {

/// Why a transaction did not complete.
///
/// The two "too long" kinds and `DMABufferNotInDataMemory` are found before
/// any register is touched. The other three are read back from the
/// peripheral once the bus has been driven. An error carries nothing but its
/// kind, and the driver never retries.
#[derive(Debug, Copy, Clone, Eq, PartialEq)]
pub enum Error {
    /// The source buffer is longer than one DMA burst can carry.
    TxBufferTooLong,
    /// The destination buffer is longer than one DMA burst can carry.
    RxBufferTooLong,
    /// Another number of bytes was sent than the source buffer holds.
    Transmit,
    /// Another number of bytes was received than the destination buffer
    /// holds.
    Receive,
    /// The source buffer lies outside the memory that the DMA engine reads.
    DMABufferNotInDataMemory,
    /// The slave did not acknowledge its address.
    AddressNack,
}

impl Error {
    /// The kinds that turn a request down on its buffers alone.
    pub open spec fn preflight(self) -> bool {
        self is TxBufferTooLong || self is RxBufferTooLong || self is DMABufferNotInDataMemory
    }
}

/// The request was turned down on its buffers alone.
pub open spec fn refused(r: Result<(), Error>) -> bool {
    r matches Err(e) && e.preflight()
}

} // verus!
