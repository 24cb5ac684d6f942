//! The driver handle and its transactions.
//!
//! Each transaction comes in two forms. The one that takes buffers borrows
//! them for the whole call and finds out where they lie. The one named
//! `..._dma` takes descriptors and hands their addresses to the peripheral as
//! they are: its caller answers for the memory behind them, and its contract
//! says exactly what is done for each address.
use crate::chunks::copy_window;
use crate::error::{refused, Error};
use crate::fence::compiler_fence_seq_cst;
use crate::gpio::{PinMode, Pins};
use crate::memory::Descriptor;
use crate::outcome::{combined_outcome, is_complete, single_outcome};
use crate::protocol::{
    bring_up, burst_steps, combined, combined_closing, combined_opening, nack_abort,
    receive_steps, single_result, single_steps, stop_steps, was_read, written,
};
use crate::registers::{Command, Condition, Direction, Event, Frequency, Instance, Status};
use crate::target_constants::{EASY_DMA_SIZE, FORCE_COPY_BUFFER_SIZE};
use crate::trace::{
    advance, follows, kept_pace, lemma_kept_pace_push, lemma_kept_pace_start, lemma_orderly_push,
    lemma_phase_after_push, orderly, phase_after, read_value, Phase, Step,
};
use vstd::prelude::*;

verus! {

/// Interface to a TWIM instance.
///
/// The handle owns the peripheral: it is made from it by [`Twim::new`] and
/// gives it back in [`Twim::free`]. It cannot be copied, so no two handles
/// write the same registers. TWIM shares its address space with the SPIM,
/// SPIS, SPI, TWIS and TWI instance of the same number, which the caller must
/// have disabled.
///
/// Every operation blocks until the transaction is over. There is no
/// timeout: a slave that never answers keeps the caller waiting.
pub struct Twim<T> {
    peripheral: T,
    history: Ghost<Seq<Step>>,
}

impl<T: Instance> Twim<T> {
    /// Everything the handle did to the peripheral since it was made.
    pub closed spec fn history(&self) -> Seq<Step> {
        self.history@
    }

    /// The peripheral that the handle owns.
    pub closed spec fn peripheral(&self) -> T {
        self.peripheral
    }

    /// The logical state that the handle's history leaves the bus in.
    pub open spec fn phase(&self) -> Phase {
        phase_after(self.history())
    }

    /// Since the handle was as `before`, its peripheral was asked for the
    /// register steps that its history gained, those and no others, in that
    /// order.
    pub open spec fn drove_since(&self, before: Self) -> bool {
        kept_pace(
            before.peripheral().log(),
            before.history(),
            self.peripheral().log(),
            self.history(),
        )
    }

    /// Whatever stretch the peripheral's log kept pace over when the handle
    /// was as `before`, it keeps pace over still, to where the handle is now.
    pub open spec fn paces_on(&self, before: Self) -> bool {
        forall|log: Seq<Step>, history: Seq<Step>| #[trigger]
            kept_pace(log, history, before.peripheral().log(), before.history()) ==> kept_pace(
                log,
                history,
                self.peripheral().log(),
                self.history(),
            )
    }

    /// Where nothing was done since, the peripheral was asked for nothing.
    pub proof fn lemma_drove_nothing(&self)
        ensures
            self.drove_since(*self),
    {
        lemma_kept_pace_start(self.peripheral().log(), self.history());
    }

    /// Between two operations: all that the handle did so far took the bus
    /// along the edges of its state machine, and no transaction is under way,
    /// or one was left standing in its transmit phase.
    pub open spec fn at_rest(&self) -> bool {
        orderly(self.history()) && (self.phase() is Idle || self.phase() is Tx)
    }

    /// Emits a full compiler fence.
    pub(crate) fn fence(&mut self)
        ensures
            final(self).history() == old(self).history().push(Step::Fence),
            final(self).phase() == old(self).phase(),
            final(self).peripheral() == old(self).peripheral(),
            orderly(final(self).history()) == (orderly(old(self).history()) && follows(
                old(self).phase(),
                final(self).phase(),
            )),
            final(self).paces_on(*old(self)),
    {
        compiler_fence_seq_cst();
        proof {
            lemma_phase_after_push(self.history@, Step::Fence);
            assert forall|log: Seq<Step>, history: Seq<Step>| #[trigger]
                kept_pace(log, history, self.peripheral.log(), self.history@) implies kept_pace(
                log,
                history,
                self.peripheral.log(),
                self.history@.push(Step::Fence),
            ) by {
                let asked = self.peripheral.log();
                lemma_kept_pace_push(log, history, asked, self.history@, Step::Fence);
            }
            lemma_orderly_push(self.history@, Step::Fence);
            self.history@ = self.history@.push(Step::Fence);
        }
    }

    /// Writes one register, or triggers one task.
    pub(crate) fn command(&mut self, command: Command)
        ensures
            final(self).history() == old(self).history().push(Step::Write(command)),
            final(self).phase() == advance(old(self).phase(), Step::Write(command)),
            orderly(final(self).history()) == (orderly(old(self).history()) && follows(
                old(self).phase(),
                final(self).phase(),
            )),
            final(self).peripheral().log() == old(self).peripheral().log().push(
                Step::Write(command),
            ),
            final(self).paces_on(*old(self)),
    {
        let ghost asked = self.peripheral.log();
        self.peripheral.apply(command);
        proof {
            lemma_phase_after_push(self.history@, Step::Write(command));
            assert forall|log: Seq<Step>, history: Seq<Step>| #[trigger]
                kept_pace(log, history, asked, self.history@) implies kept_pace(
                log,
                history,
                self.peripheral.log(),
                self.history@.push(Step::Write(command)),
            ) by {
                lemma_kept_pace_push(log, history, asked, self.history@, Step::Write(command));
            }
            lemma_orderly_push(self.history@, Step::Write(command));
            self.history@ = self.history@.push(Step::Write(command));
        }
    }

    /// Reads one register.
    pub(crate) fn status(&mut self, status: Status) -> (value: u32)
        ensures
            final(self).history() == old(self).history().push(Step::Read(status, value)),
            final(self).phase() == old(self).phase(),
            orderly(final(self).history()) == (orderly(old(self).history()) && follows(
                old(self).phase(),
                final(self).phase(),
            )),
            final(self).peripheral().log() == old(self).peripheral().log().push(
                Step::Read(status, value),
            ),
            final(self).paces_on(*old(self)),
    {
        let ghost asked = self.peripheral.log();
        let value: u32 = self.peripheral.read(status);
        proof {
            lemma_phase_after_push(self.history@, Step::Read(status, value));
            assert forall|log: Seq<Step>, history: Seq<Step>| #[trigger]
                kept_pace(log, history, asked, self.history@) implies kept_pace(
                log,
                history,
                self.peripheral.log(),
                self.history@.push(Step::Read(status, value)),
            ) by {
                lemma_kept_pace_push(log, history, asked, self.history@, Step::Read(status, value));
            }
            lemma_orderly_push(self.history@, Step::Read(status, value));
            self.history@ = self.history@.push(Step::Read(status, value));
        }
        value
    }

    /// Waits until `condition` holds.
    pub(crate) fn wait(&mut self, condition: Condition)
        ensures
            final(self).history() == old(self).history().push(Step::Wait(condition)),
            final(self).phase() == advance(old(self).phase(), Step::Wait(condition)),
            orderly(final(self).history()) == (orderly(old(self).history()) && follows(
                old(self).phase(),
                final(self).phase(),
            )),
            final(self).peripheral().log() == old(self).peripheral().log().push(
                Step::Wait(condition),
            ),
            final(self).paces_on(*old(self)),
    {
        let ghost asked = self.peripheral.log();
        self.peripheral.wait_for(condition);
        proof {
            lemma_phase_after_push(self.history@, Step::Wait(condition));
            assert forall|log: Seq<Step>, history: Seq<Step>| #[trigger]
                kept_pace(log, history, asked, self.history@) implies kept_pace(
                log,
                history,
                self.peripheral.log(),
                self.history@.push(Step::Wait(condition)),
            ) by {
                lemma_kept_pace_push(log, history, asked, self.history@, Step::Wait(condition));
            }
            lemma_orderly_push(self.history@, Step::Wait(condition));
            self.history@ = self.history@.push(Step::Wait(condition));
        }
    }

    /// Copies `len` bytes of `source`, from `offset` on, to the start of the
    /// staging buffer.
    pub(crate) fn stage(
        &mut self,
        scratch: &mut [u8; FORCE_COPY_BUFFER_SIZE],
        source: &[u8],
        offset: usize,
        len: usize,
    )
        requires
            len <= FORCE_COPY_BUFFER_SIZE,
            offset + len <= source@.len(),
        ensures
            final(self).history() == old(self).history().push(
                Step::Stage(source@.subrange(offset as int, offset + len)),
            ),
            final(self).phase() == old(self).phase(),
            final(self).peripheral() == old(self).peripheral(),
            final(scratch)@.take(len as int) == source@.subrange(offset as int, offset + len),
            orderly(final(self).history()) == (orderly(old(self).history()) && follows(
                old(self).phase(),
                final(self).phase(),
            )),
            final(self).paces_on(*old(self)),
    {
        copy_window(scratch, source, offset, len);
        proof {
            let step = Step::Stage(source@.subrange(offset as int, offset + len));
            lemma_phase_after_push(self.history@, step);
            assert forall|log: Seq<Step>, history: Seq<Step>| #[trigger]
                kept_pace(log, history, self.peripheral.log(), self.history@) implies kept_pace(
                log,
                history,
                self.peripheral.log(),
                self.history@.push(step),
            ) by {
                lemma_kept_pace_push(log, history, self.peripheral.log(), self.history@, step);
            }
            lemma_orderly_push(self.history@, step);
            self.history@ = self.history@.push(step);
        }
    }

    /// Takes ownership of the peripheral and of the two pins, puts the pins
    /// into bus mode, connects them, enables the peripheral and sets the bus
    /// frequency. This cannot fail. The pins are not given back.
    pub fn new(twim: T, pins: Pins, frequency: Frequency) -> (r: Self)
        ensures
            r.history() == bring_up(pins, frequency),
            r.peripheral().log() == twim.log() + bring_up(pins, frequency),
            r.phase() is Idle,
            r.at_rest(),
    {
        let mut r = Twim { peripheral: twim, history: Ghost(Seq::empty()) };
        assert(r.phase() is Idle);
        let mode = PinMode::bus();
        r.command(Command::ConfigurePin { port: pins.scl.port(), pin: pins.scl.pin(), mode });
        r.command(Command::ConfigurePin { port: pins.sda.port(), pin: pins.sda.pin(), mode });
        r.command(Command::SelectScl { port: pins.scl.port(), pin: pins.scl.pin() });
        r.command(Command::SelectSda { port: pins.sda.port(), pin: pins.sda.pin() });
        r.command(Command::Enable);
        r.command(Command::SetFrequency(frequency));
        assert(r.history() =~= bring_up(pins, frequency));
        assert(r.peripheral().log() =~= twim.log() + bring_up(pins, frequency));
        r
    }

    /// Return the raw interface to the underlying TWIM peripheral. No
    /// register is touched.
    pub fn free(self) -> (r: T)
        ensures
            r == self.peripheral(),
    {
        self.peripheral
    }

    /// One DMA burst: programs address, pointer and length, clears the
    /// address-NACK flag, starts the burst, waits for its last byte or an
    /// address NACK, stops the bus, and says whether as many bytes were moved
    /// as the buffer holds.
    fn burst(&mut self, direction: Direction, address: u8, buffer: Descriptor) -> (complete: bool)
        requires
            buffer.len <= EASY_DMA_SIZE,
        ensures
            final(self).history() == old(self).history() + burst_steps(
                direction,
                address,
                buffer,
                read_value(final(self).history().last()),
            ),
            complete == (read_value(final(self).history().last()) == buffer.len),
            final(self).phase() is Idle,
            old(self).at_rest() ==> final(self).at_rest(),
            final(self).drove_since(*old(self)),
    {
        proof {
            self.lemma_drove_nothing();
        }
        self.fence();
        self.command(Command::SetAddress(address));
        self.command(Command::SetPtr(direction, buffer.ptr));
        self.command(Command::SetMaxcnt(direction, buffer.len));
        self.command(Command::ClearAnack);
        self.command(Command::Start(direction));
        self.wait(Condition { event: Event::Last(direction), or_anack: true });
        self.command(Command::ClearEvent(Event::Last(direction)));
        self.command(Command::Stop);
        self.wait(Condition { event: Event::Stopped, or_anack: false });
        self.command(Command::ClearEvent(Event::Stopped));
        self.fence();
        let amount: u32 = self.status(Status::Amount(direction));
        assert(self.history() =~= old(self).history() + burst_steps(
            direction,
            address,
            buffer,
            amount,
        ));
        is_complete(amount, buffer.len)
    }

    /// Reads the address-NACK flag and settles the result of a transaction
    /// of one burst.
    fn settle(&mut self, direction: Direction, complete: bool) -> (r: Result<(), Error>)
        ensures
            final(self).history() == old(self).history().push(
                Step::Read(Status::Anack, read_value(final(self).history().last())),
            ),
            final(self).phase() == old(self).phase(),
            orderly(final(self).history()) == orderly(old(self).history()),
            final(self).paces_on(*old(self)),
            r == single_result(direction, complete, read_value(final(self).history().last())),
    {
        let anack: u32 = self.status(Status::Anack);
        single_outcome(direction, complete, anack)
    }

    /// Writes the buffer that `tx` describes to the slave at `address`, in
    /// one burst that ends with a stop condition.
    ///
    /// The buffer must lie in RAM, which is tested first, and hold at most
    /// [`EASY_DMA_SIZE`] bytes. A request that fails either test is refused
    /// with the handle as it was. Any other leaves the bus idle.
    pub fn write_dma(&mut self, address: u8, tx: Descriptor) -> (r: Result<(), Error>)
        ensures
            written(old(self).history(), final(self).history(), address, tx, r),
            !tx.in_ram() ==> (r matches Err(Error::DMABufferNotInDataMemory)),
            tx.in_ram() && tx.len > EASY_DMA_SIZE ==> (r matches Err(Error::TxBufferTooLong)),
            refused(r) <==> !tx.in_ram() || tx.len > EASY_DMA_SIZE,
            refused(r) ==> *final(self) == *old(self),
            !refused(r) ==> final(self).phase() is Idle,
            old(self).at_rest() ==> final(self).at_rest(),
            final(self).drove_since(*old(self)),
            r is Ok ==> final(self).history()[final(self).history().len() - 2] == Step::Read(
                Status::Amount(Direction::Tx),
                tx.len as u32,
            ),
    {
        proof {
            self.lemma_drove_nothing();
        }
        if !tx.is_in_ram() {
            return Err(Error::DMABufferNotInDataMemory);
        }
        if tx.len > EASY_DMA_SIZE {
            return Err(Error::TxBufferTooLong);
        }
        let complete = self.burst(Direction::Tx, address, tx);
        let r = self.settle(Direction::Tx, complete);
        proof {
            let after = self.history();
            let amount = read_value(after[after.len() - 2]);
            let anack = read_value(after[after.len() - 1]);
            assert(after =~= old(self).history() + single_steps(
                Direction::Tx,
                address,
                tx,
                amount,
                anack,
            ));
        }
        r
    }

    /// Reads from the slave at `address` into the buffer that `rx`
    /// describes, in one burst that ends with a stop condition.
    ///
    /// The buffer must hold at most [`EASY_DMA_SIZE`] bytes, else the request
    /// is refused with the handle as it was. Where the buffer lies is not
    /// tested.
    pub fn read_dma(&mut self, address: u8, rx: Descriptor) -> (r: Result<(), Error>)
        ensures
            was_read(old(self).history(), final(self).history(), address, rx, r),
            rx.len > EASY_DMA_SIZE ==> (r matches Err(Error::RxBufferTooLong)),
            refused(r) <==> rx.len > EASY_DMA_SIZE,
            refused(r) ==> *final(self) == *old(self),
            !refused(r) ==> final(self).phase() is Idle,
            old(self).at_rest() ==> final(self).at_rest(),
            final(self).drove_since(*old(self)),
            !(r matches Err(Error::DMABufferNotInDataMemory)),
            r is Ok ==> final(self).history()[final(self).history().len() - 2] == Step::Read(
                Status::Amount(Direction::Rx),
                rx.len as u32,
            ),
    {
        proof {
            self.lemma_drove_nothing();
        }
        if rx.len > EASY_DMA_SIZE {
            return Err(Error::RxBufferTooLong);
        }
        let complete = self.burst(Direction::Rx, address, rx);
        let r = self.settle(Direction::Rx, complete);
        proof {
            let after = self.history();
            let amount = read_value(after[after.len() - 2]);
            let anack = read_value(after[after.len() - 1]);
            assert(after =~= old(self).history() + single_steps(
                Direction::Rx,
                address,
                rx,
                amount,
                anack,
            ));
        }
        r
    }

    /// The first half of a write followed by a read: programs both
    /// descriptors, clears the address-NACK flag and runs the transmit burst
    /// to its last byte, or to an address NACK, with no stop.
    fn open_combined(&mut self, address: u8, tx: Descriptor, rx: Descriptor)
        ensures
            final(self).history() == old(self).history() + combined_opening(address, tx, rx),
            final(self).phase() is Tx,
            old(self).at_rest() ==> orderly(final(self).history()),
            final(self).paces_on(*old(self)),
    {
        self.fence();
        self.command(Command::SetAddress(address));
        self.command(Command::SetPtr(Direction::Tx, tx.ptr));
        self.command(Command::SetMaxcnt(Direction::Tx, tx.len));
        self.command(Command::SetPtr(Direction::Rx, rx.ptr));
        self.command(Command::SetMaxcnt(Direction::Rx, rx.len));
        self.command(Command::ClearAnack);
        self.command(Command::Start(Direction::Tx));
        self.wait(Condition { event: Event::Last(Direction::Tx), or_anack: true });
        self.command(Command::ClearEvent(Event::Last(Direction::Tx)));
        assert(self.history() =~= old(self).history() + combined_opening(address, tx, rx));
    }

    /// Stops the bus in mid transaction: triggers the stop task, waits for
    /// the stop condition and resets its event.
    fn stop_bus(&mut self)
        requires
            old(self).phase() is Tx,
        ensures
            final(self).history() == old(self).history() + stop_steps(),
            final(self).phase() is Idle,
            orderly(final(self).history()) == orderly(old(self).history()),
            final(self).paces_on(*old(self)),
    {
        self.command(Command::Stop);
        self.wait(Condition { event: Event::Stopped, or_anack: false });
        self.command(Command::ClearEvent(Event::Stopped));
        assert(self.history() =~= old(self).history() + stop_steps());
    }

    /// The second half of a write followed by a read: starts the receive
    /// burst with no stop before it, waits for its last byte, stops the bus,
    /// resets all three events and reads both amounts, the transmitted one
    /// first.
    fn receive(&mut self) -> (amounts: (u32, u32))
        requires
            old(self).phase() is Tx,
        ensures
            final(self).history() == old(self).history() + receive_steps(amounts.0, amounts.1),
            final(self).phase() is Idle,
            orderly(final(self).history()) == orderly(old(self).history()),
            final(self).paces_on(*old(self)),
    {
        self.command(Command::Start(Direction::Rx));
        self.wait(Condition { event: Event::Last(Direction::Rx), or_anack: false });
        self.command(Command::ClearEvent(Event::Last(Direction::Rx)));
        self.command(Command::Stop);
        self.wait(Condition { event: Event::Stopped, or_anack: false });
        self.command(Command::ClearEvent(Event::Last(Direction::Tx)));
        self.command(Command::ClearEvent(Event::Last(Direction::Rx)));
        self.command(Command::ClearEvent(Event::Stopped));
        self.fence();
        let tx_amount: u32 = self.status(Status::Amount(Direction::Tx));
        let rx_amount: u32 = self.status(Status::Amount(Direction::Rx));
        assert(self.history() =~= old(self).history() + receive_steps(tx_amount, rx_amount));
        (tx_amount, rx_amount)
    }

    /// Writes the buffer that `tx` describes to the slave at `address`, then
    /// reads from it into the buffer that `rx` describes, with no stop
    /// between the two.
    ///
    /// The source must lie in RAM, which is tested first; then both buffers
    /// must hold at most [`EASY_DMA_SIZE`] bytes, the source's length being
    /// tested before the destination's. If the slave does not acknowledge its
    /// address, the bus is stopped at once and the receive burst is never
    /// started. If both amounts are wrong, `Transmit` is reported.
    pub fn write_then_read_dma(&mut self, address: u8, tx: Descriptor, rx: Descriptor) -> (r:
        Result<(), Error>)
        ensures
            combined(old(self).history(), final(self).history(), address, tx, rx, r),
            !tx.in_ram() ==> (r matches Err(Error::DMABufferNotInDataMemory)),
            tx.in_ram() && tx.len > EASY_DMA_SIZE ==> (r matches Err(Error::TxBufferTooLong)),
            tx.in_ram() && tx.len <= EASY_DMA_SIZE && rx.len > EASY_DMA_SIZE ==> (r matches Err(
                Error::RxBufferTooLong,
            )),
            refused(r) <==> !tx.in_ram() || tx.len > EASY_DMA_SIZE || rx.len > EASY_DMA_SIZE,
            refused(r) ==> *final(self) == *old(self),
            !refused(r) ==> final(self).phase() is Idle,
            old(self).at_rest() ==> final(self).at_rest(),
            final(self).drove_since(*old(self)),
            (r matches Err(Error::AddressNack)) ==> ({
                let before = old(self).history();
                let after = final(self).history();
                after == before + combined_opening(address, tx, rx) + nack_abort(
                    read_value(after[before.len() as int + 10]),
                )
            }),
            r is Ok ==> final(self).history()[final(self).history().len() - 2] == Step::Read(
                Status::Amount(Direction::Tx),
                tx.len as u32,
            ) && final(self).history().last() == Step::Read(
                Status::Amount(Direction::Rx),
                rx.len as u32,
            ),
    {
        proof {
            self.lemma_drove_nothing();
        }
        if !tx.is_in_ram() {
            return Err(Error::DMABufferNotInDataMemory);
        }
        if tx.len > EASY_DMA_SIZE {
            return Err(Error::TxBufferTooLong);
        }
        if rx.len > EASY_DMA_SIZE {
            return Err(Error::RxBufferTooLong);
        }
        self.open_combined(address, tx, rx);
        let ghost opened = self.history();

        let anack: u32 = self.status(Status::Anack);
        if anack != 0 {
            self.stop_bus();
            assert(self.history() =~= opened + nack_abort(anack));
            return Err(Error::AddressNack);
        }
        let (tx_amount, rx_amount) = self.receive();
        assert(self.history() =~= opened + combined_closing(anack, tx_amount, rx_amount));
        combined_outcome(is_complete(tx_amount, tx.len), is_complete(rx_amount, rx.len))
    }

    /// Write to an I2C slave.
    ///
    /// The buffer must lie in RAM and hold at most [`EASY_DMA_SIZE`] bytes.
    /// Where it lies is known only when the program runs, so the contract
    /// speaks of some descriptor of the buffer's length; [`Twim::write_dma`]
    /// says what holds for each.
    pub fn write(&mut self, address: u8, buffer: &[u8]) -> (r: Result<(), Error>)
        ensures
            exists|tx: Descriptor|
                tx.len == buffer@.len() && #[trigger] written(
                    old(self).history(),
                    final(self).history(),
                    address,
                    tx,
                    r,
                ),
            buffer@.len() > EASY_DMA_SIZE ==> refused(r),
            refused(r) ==> *final(self) == *old(self),
            !refused(r) ==> final(self).phase() is Idle,
            old(self).at_rest() ==> final(self).at_rest(),
            final(self).drove_since(*old(self)),
            !(r matches Err(Error::RxBufferTooLong)) && !(r matches Err(Error::Receive)),
            r is Ok ==> final(self).history()[final(self).history().len() - 2] == Step::Read(
                Status::Amount(Direction::Tx),
                buffer@.len() as u32,
            ),
    {
        let tx = Descriptor::of(buffer);
        self.write_dma(address, tx)
    }

    /// Read from an I2C slave.
    ///
    /// The buffer must hold at most [`EASY_DMA_SIZE`] bytes. It is not asked
    /// where it lies: what can be written to is in RAM. A request that is
    /// refused and a slave that does not acknowledge its address leave the
    /// buffer as it was. Else the bytes arrive by DMA, and nothing is said
    /// here of what the buffer then holds.
    pub fn read(&mut self, address: u8, buffer: &mut [u8]) -> (r: Result<(), Error>)
        ensures
            exists|rx: Descriptor|
                rx.len == old(buffer)@.len() && #[trigger] was_read(
                    old(self).history(),
                    final(self).history(),
                    address,
                    rx,
                    r,
                ),
            old(buffer)@.len() > EASY_DMA_SIZE ==> (r matches Err(Error::RxBufferTooLong)),
            refused(r) <==> old(buffer)@.len() > EASY_DMA_SIZE,
            refused(r) ==> *final(self) == *old(self) && final(buffer)@ == old(buffer)@,
            (r matches Err(Error::AddressNack)) ==> final(buffer)@ == old(buffer)@,
            !refused(r) ==> final(self).phase() is Idle,
            old(self).at_rest() ==> final(self).at_rest(),
            final(self).drove_since(*old(self)),
            !(r matches Err(Error::DMABufferNotInDataMemory)),
            r is Ok ==> final(self).history()[final(self).history().len() - 2] == Step::Read(
                Status::Amount(Direction::Rx),
                old(buffer)@.len() as u32,
            ),
    {
        let rx = Descriptor::of_mut(buffer);
        self.read_dma(address, rx)
    }

    /// Write data to an I2C slave, then read data from the slave without
    /// triggering a stop condition between the two.
    ///
    /// `wr_buffer` must lie in RAM, and both buffers must hold at most
    /// [`EASY_DMA_SIZE`] bytes. Whenever the transaction ends before the
    /// receive burst is started, `rd_buffer` holds what it held.
    pub fn write_then_read(&mut self, address: u8, wr_buffer: &[u8], rd_buffer: &mut [u8]) -> (r:
        Result<(), Error>)
        ensures
            exists|tx: Descriptor, rx: Descriptor|
                tx.len == wr_buffer@.len() && rx.len == old(rd_buffer)@.len()
                    && #[trigger] combined(
                    old(self).history(),
                    final(self).history(),
                    address,
                    tx,
                    rx,
                    r,
                ),
            wr_buffer@.len() > EASY_DMA_SIZE ==> refused(r),
            old(rd_buffer)@.len() > EASY_DMA_SIZE ==> refused(r),
            refused(r) ==> *final(self) == *old(self),
            !refused(r) ==> final(self).phase() is Idle,
            old(self).at_rest() ==> final(self).at_rest(),
            final(self).drove_since(*old(self)),
            refused(r) ==> final(rd_buffer)@ == old(rd_buffer)@,
            (r matches Err(Error::AddressNack)) ==> final(rd_buffer)@ == old(rd_buffer)@,
    {
        let tx = Descriptor::of(wr_buffer);
        let rx = Descriptor::of_mut(rd_buffer);
        self.write_then_read_dma(address, tx, rx)
    }
}

} // verus!
