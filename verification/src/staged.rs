//! Transactions whose source the DMA engine cannot reach: the bytes go
//! through a staging buffer in RAM, one window at a time.
use crate::chunks::window_len;
use crate::error::{refused, Error};
use crate::memory::Descriptor;
use crate::outcome::{copy_outcome, is_complete};
use crate::protocol::{
    copied, copy_closing, copy_opening, copy_stalled, copy_write_stalled, copy_written,
    staged_burst, staged_bursts, staged_write, staged_writes, window, windows,
};
use crate::registers::{Command, Condition, Direction, Event, Instance, Status};
use crate::target_constants::{EASY_DMA_SIZE, FORCE_COPY_BUFFER_SIZE};
use crate::trace::{lemma_kept_pace_twice, Step};
use crate::twim::Twim;
use vstd::prelude::*;

verus! {

impl<T: Instance> Twim<T> {
    /// Writes `tx_buffer` to the slave at `address` through `scratch`, which
    /// the DMA engine finds at `scratch_ptr`, then reads from the slave into
    /// the buffer that `rx` describes, with no stop between the two.
    ///
    /// The source may lie anywhere and have any length; the destination must
    /// hold at most [`EASY_DMA_SIZE`] bytes. The receive descriptor is
    /// programmed once, up front. Each window's amount is read before the
    /// next window is staged; the address-NACK flag is not looked at. A wrong
    /// amount ends the transaction where it stands, in the transmit phase and
    /// with no stop.
    pub fn copy_write_then_read_dma(
        &mut self,
        address: u8,
        tx_buffer: &[u8],
        scratch: &mut [u8; FORCE_COPY_BUFFER_SIZE],
        scratch_ptr: usize,
        rx: Descriptor,
    ) -> (r: Result<(), Error>)
        ensures
            copied(
                old(self).history(),
                final(self).history(),
                address,
                tx_buffer@,
                scratch_ptr,
                rx,
                r,
            ),
            rx.len > EASY_DMA_SIZE ==> (r matches Err(Error::RxBufferTooLong)),
            refused(r) <==> rx.len > EASY_DMA_SIZE,
            refused(r) ==> *final(self) == *old(self) && final(scratch)@ == old(scratch)@,
            (r matches Err(Error::Transmit)) ==> final(self).phase() is Tx,
            (r matches Err(Error::Receive)) || r is Ok ==> final(self).phase() is Idle,
            old(self).at_rest() ==> final(self).at_rest(),
            final(self).drove_since(*old(self)),
            !(r matches Err(Error::AddressNack)),
            r is Ok ==> final(self).history().last() == Step::Read(
                Status::Amount(Direction::Rx),
                rx.len as u32,
            ),
    {
        proof {
            self.lemma_drove_nothing();
        }
        if rx.len > EASY_DMA_SIZE {
            return Err(Error::RxBufferTooLong);
        }
        self.fence();
        self.command(Command::SetAddress(address));
        self.command(Command::SetPtr(Direction::Rx, rx.ptr));
        self.command(Command::SetMaxcnt(Direction::Rx, rx.len));
        let ghost opened = self.history();
        assert(opened =~= old(self).history() + copy_opening(address, rx));

        let n: usize = tx_buffer.len();
        let mut offset: usize = 0;
        let ghost mut k: nat = 0;
        while offset < n
            invariant
                n == tx_buffer@.len(),
                rx.len <= EASY_DMA_SIZE,
                k <= windows(tx_buffer@),
                offset <= n,
                offset < n ==> offset == k * FORCE_COPY_BUFFER_SIZE,
                offset == n ==> k == windows(tx_buffer@),
                opened == old(self).history() + copy_opening(address, rx),
                self.history() == opened + staged_bursts(tx_buffer@, scratch_ptr, k),
                old(self).at_rest() ==> self.at_rest(),
                self.drove_since(*old(self)),
            decreases n - offset,
        {
            let len: usize = window_len(n, offset);
            let ghost bytes = tx_buffer@.subrange(offset as int, offset + len);
            assert(bytes == window(tx_buffer@, k));
            let ghost sent = self.history();
            self.stage(scratch, tx_buffer, offset, len);
            self.command(Command::SetPtr(Direction::Tx, scratch_ptr));
            self.command(Command::SetMaxcnt(Direction::Tx, len));
            self.command(Command::Start(Direction::Tx));
            self.wait(Condition { event: Event::Last(Direction::Tx), or_anack: false });
            self.command(Command::ClearEvent(Event::Last(Direction::Tx)));
            let amount: u32 = self.status(Status::Amount(Direction::Tx));
            assert(self.history() =~= sent + staged_burst(bytes, scratch_ptr, amount));
            if !is_complete(amount, len) {
                assert(copy_stalled(
                    old(self).history(),
                    self.history(),
                    address,
                    tx_buffer@,
                    scratch_ptr,
                    rx,
                    k,
                ));
                return Err(Error::Transmit);
            }
            assert(self.history() =~= opened + staged_bursts(
                tx_buffer@,
                scratch_ptr,
                (k + 1) as nat,
            ));
            offset += len;
            proof {
                k = k + 1;
            }
        }
        let ghost sent = self.history();
        self.command(Command::Start(Direction::Rx));
        self.wait(Condition { event: Event::Last(Direction::Rx), or_anack: false });
        self.command(Command::ClearEvent(Event::Last(Direction::Rx)));
        self.command(Command::Stop);
        self.wait(Condition { event: Event::Stopped, or_anack: false });
        self.command(Command::ClearEvent(Event::Stopped));
        self.fence();
        let rx_amount: u32 = self.status(Status::Amount(Direction::Rx));
        assert(self.history() =~= sent + copy_closing(rx_amount));
        copy_outcome(is_complete(rx_amount, rx.len))
    }

    /// Copy data into RAM and write to an I2C slave, then read data from the
    /// slave without triggering a stop condition between the two.
    ///
    /// `tx_buffer` may lie anywhere and have any length; `rx_buffer` must
    /// hold at most [`EASY_DMA_SIZE`] bytes. The staging buffer lives for this
    /// call only.
    pub fn copy_write_then_read(
        &mut self,
        address: u8,
        tx_buffer: &[u8],
        rx_buffer: &mut [u8],
    ) -> (r: Result<(), Error>)
        ensures
            exists|scratch: usize, rx: Descriptor|
                rx.len == old(rx_buffer)@.len() && #[trigger] copied(
                    old(self).history(),
                    final(self).history(),
                    address,
                    tx_buffer@,
                    scratch,
                    rx,
                    r,
                ),
            old(rx_buffer)@.len() > EASY_DMA_SIZE ==> (r matches Err(Error::RxBufferTooLong)),
            refused(r) <==> old(rx_buffer)@.len() > EASY_DMA_SIZE,
            refused(r) ==> *final(self) == *old(self),
            refused(r) ==> final(rx_buffer)@ == old(rx_buffer)@,
            (r matches Err(Error::Transmit)) ==> final(rx_buffer)@ == old(rx_buffer)@,
            (r matches Err(Error::Transmit)) ==> final(self).phase() is Tx,
            (r matches Err(Error::Receive)) || r is Ok ==> final(self).phase() is Idle,
            old(self).at_rest() ==> final(self).at_rest(),
            final(self).drove_since(*old(self)),
            !(r matches Err(Error::AddressNack)),
    {
        let rx = Descriptor::of_mut(rx_buffer);
        let mut scratch = [0u8; FORCE_COPY_BUFFER_SIZE];
        let located = Descriptor::of(&scratch);
        self.copy_write_then_read_dma(address, tx_buffer, &mut scratch, located.ptr, rx)
    }

    /// Writes `bytes` to the slave at `address` through `scratch`, which the
    /// DMA engine finds at `scratch_ptr`: each window is staged and written
    /// in a transaction of its own, and the first failure ends the loop.
    ///
    /// A staging buffer that the DMA engine cannot reach is found at the
    /// first window, before any register is touched.
    pub fn copy_write_dma(
        &mut self,
        address: u8,
        bytes: &[u8],
        scratch: &mut [u8; FORCE_COPY_BUFFER_SIZE],
        scratch_ptr: usize,
    ) -> (r: Result<(), Error>)
        ensures
            copy_written(
                old(self).history(),
                final(self).history(),
                address,
                bytes@,
                scratch_ptr,
                r,
            ),
            refused(r) <==> bytes@.len() > 0 && !(Descriptor {
                ptr: scratch_ptr,
                len: window(bytes@, 0).len() as usize,
            }).in_ram(),
            refused(r) ==> (r matches Err(Error::DMABufferNotInDataMemory)),
            refused(r) ==> final(self).peripheral() == old(self).peripheral(),
            !(r matches Err(Error::Receive)),
            bytes@.len() == 0 ==> r is Ok && *final(self) == *old(self),
            bytes@.len() > 0 && !refused(r) ==> final(self).phase() is Idle,
            old(self).at_rest() ==> final(self).at_rest(),
            final(self).drove_since(*old(self)),
    {
        proof {
            self.lemma_drove_nothing();
        }
        let n: usize = bytes.len();
        let mut offset: usize = 0;
        let ghost mut k: nat = 0;
        let ghost before = self.history();
        assert(before + staged_writes(address, bytes@, scratch_ptr, 0) =~= before);
        while offset < n
            invariant
                n == bytes@.len(),
                k <= windows(bytes@),
                offset <= n,
                offset < n ==> offset == k * FORCE_COPY_BUFFER_SIZE,
                offset == n ==> k == windows(bytes@),
                self.history() == old(self).history() + staged_writes(
                    address,
                    bytes@,
                    scratch_ptr,
                    k,
                ),
                k > 0 ==> self.phase() is Idle,
                k > 0 ==> (Descriptor {
                    ptr: scratch_ptr,
                    len: window(bytes@, 0).len() as usize,
                }).in_ram(),
                k == 0 ==> *self == *old(self),
                old(self).at_rest() ==> self.at_rest(),
                self.drove_since(*old(self)),
            decreases n - offset,
        {
            let len: usize = window_len(n, offset);
            let ghost chunk = bytes@.subrange(offset as int, offset + len);
            assert(chunk == window(bytes@, k));
            assert(len <= window(bytes@, 0).len());
            let ghost sent = self.history();
            self.stage(scratch, bytes, offset, len);
            let staged = Descriptor { ptr: scratch_ptr, len };
            let ghost staged_log = self.peripheral().log();
            let ghost staged_history = self.history();
            let written = self.write_dma(address, staged);
            proof {
                lemma_kept_pace_twice(
                    old(self).peripheral().log(),
                    old(self).history(),
                    staged_log,
                    staged_history,
                    self.peripheral().log(),
                    self.history(),
                );
            }
            match written {
                Ok(()) => {},
                Err(e) => {
                    assert(copy_write_stalled(
                        old(self).history(),
                        self.history(),
                        address,
                        bytes@,
                        scratch_ptr,
                        Err::<(), Error>(e),
                        k,
                    ));
                    return Err(e);
                },
            }
            assert(self.history() =~= sent + staged_write(address, chunk, scratch_ptr));
            assert(self.history() =~= old(self).history() + staged_writes(
                address,
                bytes@,
                scratch_ptr,
                (k + 1) as nat,
            ));
            offset += len;
            proof {
                k = k + 1;
            }
        }
        Ok(())
    }

    /// Copies `bytes` into RAM and writes them to the slave at `address`, one
    /// transaction for each window of [`FORCE_COPY_BUFFER_SIZE`] bytes. The
    /// staging buffer lives for this call only.
    pub fn copy_write(&mut self, address: u8, bytes: &[u8]) -> (r: Result<(), Error>)
        ensures
            exists|scratch: usize| #[trigger]
                copy_written(
                    old(self).history(),
                    final(self).history(),
                    address,
                    bytes@,
                    scratch,
                    r,
                ),
            refused(r) ==> (r matches Err(Error::DMABufferNotInDataMemory)),
            refused(r) ==> final(self).peripheral() == old(self).peripheral(),
            !(r matches Err(Error::Receive)),
            bytes@.len() == 0 ==> r is Ok && *final(self) == *old(self),
            bytes@.len() > 0 && !refused(r) ==> final(self).phase() is Idle,
            old(self).at_rest() ==> final(self).at_rest(),
            final(self).drove_since(*old(self)),
    {
        let mut scratch = [0u8; FORCE_COPY_BUFFER_SIZE];
        let located = Descriptor::of(&scratch);
        self.copy_write_dma(address, bytes, &mut scratch, located.ptr)
    }
}

} // verus!
