//! The register sequences of the transactions, as specifications.
//!
//! Each operation of the driver extends the handle's history by one of the
//! sequences below. The values that the peripheral handed back are part of
//! the history, and the operation's result is a function of them.
use crate::chunks::{chunk, chunk_count, chunk_len};
use crate::error::Error;
use crate::gpio::{PinMode, Pins};
use crate::memory::Descriptor;
use crate::registers::{Command, Condition, Direction, Event, Frequency, Status};
use crate::target_constants::{EASY_DMA_SIZE, FORCE_COPY_BUFFER_SIZE};
use crate::trace::{read_value, Step};
use vstd::prelude::*;

verus! {

/// The wait for the last byte in `direction`, cut short by an address NACK
/// if `or_anack` is set.
pub open spec fn last_byte(direction: Direction, or_anack: bool) -> Condition {
    Condition { event: Event::Last(direction), or_anack }
}

/// The wait for the stop condition.
pub open spec fn stopped() -> Condition {
    Condition { event: Event::Stopped, or_anack: false }
}

/// The error that a wrong transferred amount in `direction` is reported as.
pub open spec fn short_transfer(direction: Direction) -> Error {
    match direction {
        Direction::Tx => Error::Transmit,
        Direction::Rx => Error::Receive,
    }
}

/// What initialization does: both pins, and no other, are put into
/// [`PinMode::bus`], the clock line first; then the pins are selected, the
/// peripheral is enabled and the frequency set.
pub open spec fn bring_up(pins: Pins, frequency: Frequency) -> Seq<Step> {
    seq![
        Step::Write(
            Command::ConfigurePin {
                port: pins.scl.port(),
                pin: pins.scl.pin(),
                mode: PinMode::bus(),
            },
        ),
        Step::Write(
            Command::ConfigurePin {
                port: pins.sda.port(),
                pin: pins.sda.pin(),
                mode: PinMode::bus(),
            },
        ),
        Step::Write(Command::SelectScl { port: pins.scl.port(), pin: pins.scl.pin() }),
        Step::Write(Command::SelectSda { port: pins.sda.port(), pin: pins.sda.pin() }),
        Step::Write(Command::Enable),
        Step::Write(Command::SetFrequency(frequency)),
    ]
}

/// One DMA burst in one direction, from the opening fence to the read of the
/// transferred amount, which was `amount`.
pub open spec fn burst_steps(
    direction: Direction,
    address: u8,
    buffer: Descriptor,
    amount: u32,
) -> Seq<Step> {
    seq![
        Step::Fence,
        Step::Write(Command::SetAddress(address)),
        Step::Write(Command::SetPtr(direction, buffer.ptr)),
        Step::Write(Command::SetMaxcnt(direction, buffer.len)),
        Step::Write(Command::ClearAnack),
        Step::Write(Command::Start(direction)),
        Step::Wait(last_byte(direction, true)),
        Step::Write(Command::ClearEvent(Event::Last(direction))),
        Step::Write(Command::Stop),
        Step::Wait(stopped()),
        Step::Write(Command::ClearEvent(Event::Stopped)),
        Step::Fence,
        Step::Read(Status::Amount(direction), amount),
    ]
}

/// A transaction of one burst: the burst, then the read of the address-NACK
/// flag, which held `anack`.
pub open spec fn single_steps(
    direction: Direction,
    address: u8,
    buffer: Descriptor,
    amount: u32,
    anack: u32,
) -> Seq<Step> {
    burst_steps(direction, address, buffer, amount).push(Step::Read(Status::Anack, anack))
}

/// The result of a transaction of one burst, from whether the burst moved
/// as many bytes as its buffer holds and from what the address-NACK flag
/// held: an address NACK comes before a wrong amount.
pub open spec fn single_result(direction: Direction, complete: bool, anack: u32) -> Result<
    (),
    Error,
> {
    if anack != 0 {
        Err(Error::AddressNack)
    } else if !complete {
        Err(short_transfer(direction))
    } else {
        Ok(())
    }
}

/// A transaction of one burst took the history from `before` to `after` and
/// gave `r`.
pub open spec fn single(
    before: Seq<Step>,
    after: Seq<Step>,
    direction: Direction,
    address: u8,
    buffer: Descriptor,
    r: Result<(), Error>,
) -> bool {
    let amount = read_value(after[after.len() - 2]);
    let anack = read_value(after[after.len() - 1]);
    &&& after == before + single_steps(direction, address, buffer, amount, anack)
    &&& r == single_result(direction, amount == buffer.len, anack)
}

/// A write of the buffer that `tx` describes took the history from `before`
/// to `after` and gave `r`.
///
/// A buffer out of the DMA engine's reach is refused first, then one that is
/// too long, both before any step is taken.
pub open spec fn written(
    before: Seq<Step>,
    after: Seq<Step>,
    address: u8,
    tx: Descriptor,
    r: Result<(), Error>,
) -> bool {
    if !tx.in_ram() {
        after == before && (r matches Err(Error::DMABufferNotInDataMemory))
    } else if tx.len > EASY_DMA_SIZE {
        after == before && (r matches Err(Error::TxBufferTooLong))
    } else {
        single(before, after, Direction::Tx, address, tx, r)
    }
}

/// A read into the buffer that `rx` describes took the history from `before`
/// to `after` and gave `r`.
///
/// Where the buffer lies plays no part: what can be written to is in RAM.
pub open spec fn was_read(
    before: Seq<Step>,
    after: Seq<Step>,
    address: u8,
    rx: Descriptor,
    r: Result<(), Error>,
) -> bool {
    if rx.len > EASY_DMA_SIZE {
        after == before && (r matches Err(Error::RxBufferTooLong))
    } else {
        single(before, after, Direction::Rx, address, rx, r)
    }
}

/// The first part of a write followed by a read: both descriptors are
/// programmed, then the transmit burst runs to its last byte, or to an
/// address NACK, with no stop.
pub open spec fn combined_opening(address: u8, tx: Descriptor, rx: Descriptor) -> Seq<Step> {
    seq![
        Step::Fence,
        Step::Write(Command::SetAddress(address)),
        Step::Write(Command::SetPtr(Direction::Tx, tx.ptr)),
        Step::Write(Command::SetMaxcnt(Direction::Tx, tx.len)),
        Step::Write(Command::SetPtr(Direction::Rx, rx.ptr)),
        Step::Write(Command::SetMaxcnt(Direction::Rx, rx.len)),
        Step::Write(Command::ClearAnack),
        Step::Write(Command::Start(Direction::Tx)),
        Step::Wait(last_byte(Direction::Tx, true)),
        Step::Write(Command::ClearEvent(Event::Last(Direction::Tx))),
    ]
}

/// The stop sequence: the stop task, the wait for the stop condition, and
/// the reset of its event.
pub open spec fn stop_steps() -> Seq<Step> {
    seq![
        Step::Write(Command::Stop),
        Step::Wait(stopped()),
        Step::Write(Command::ClearEvent(Event::Stopped)),
    ]
}

/// How a write followed by a read ends when the address was not
/// acknowledged: the flag is read as `anack`, and the bus is stopped at
/// once. No receive burst is started.
pub open spec fn nack_abort(anack: u32) -> Seq<Step> {
    seq![Step::Read(Status::Anack, anack)] + stop_steps()
}

/// The second half of a write followed by a read: the receive burst is
/// started with no stop before it, the bus is stopped after its last byte,
/// all three events are reset and both amounts are read.
pub open spec fn receive_steps(tx_amount: u32, rx_amount: u32) -> Seq<Step> {
    seq![
        Step::Write(Command::Start(Direction::Rx)),
        Step::Wait(last_byte(Direction::Rx, false)),
        Step::Write(Command::ClearEvent(Event::Last(Direction::Rx))),
        Step::Write(Command::Stop),
        Step::Wait(stopped()),
        Step::Write(Command::ClearEvent(Event::Last(Direction::Tx))),
        Step::Write(Command::ClearEvent(Event::Last(Direction::Rx))),
        Step::Write(Command::ClearEvent(Event::Stopped)),
        Step::Fence,
        Step::Read(Status::Amount(Direction::Tx), tx_amount),
        Step::Read(Status::Amount(Direction::Rx), rx_amount),
    ]
}

/// How a write followed by a read goes on when the address was
/// acknowledged: the flag is read as `anack`, then the receive burst runs.
pub open spec fn combined_closing(anack: u32, tx_amount: u32, rx_amount: u32) -> Seq<Step> {
    seq![Step::Read(Status::Anack, anack)] + receive_steps(tx_amount, rx_amount)
}

/// The result of a write followed by a read that ran both bursts, from
/// whether each moved as many bytes as its buffer holds: a wrong transmit
/// amount comes before a wrong receive amount.
pub open spec fn combined_result(tx_complete: bool, rx_complete: bool) -> Result<(), Error> {
    if !tx_complete {
        Err(Error::Transmit)
    } else if !rx_complete {
        Err(Error::Receive)
    } else {
        Ok(())
    }
}

/// A write of the buffer that `tx` describes, followed without a stop by a
/// read into the buffer that `rx` describes, took the history from `before`
/// to `after` and gave `r`.
pub open spec fn combined(
    before: Seq<Step>,
    after: Seq<Step>,
    address: u8,
    tx: Descriptor,
    rx: Descriptor,
    r: Result<(), Error>,
) -> bool {
    if !tx.in_ram() {
        after == before && (r matches Err(Error::DMABufferNotInDataMemory))
    } else if tx.len > EASY_DMA_SIZE {
        after == before && (r matches Err(Error::TxBufferTooLong))
    } else if rx.len > EASY_DMA_SIZE {
        after == before && (r matches Err(Error::RxBufferTooLong))
    } else {
        let opened = before + combined_opening(address, tx, rx);
        let anack = read_value(after[opened.len() as int]);
        if anack != 0 {
            after == opened + nack_abort(anack) && (r matches Err(Error::AddressNack))
        } else {
            let tx_amount = read_value(after[after.len() - 2]);
            let rx_amount = read_value(after[after.len() - 1]);
            &&& after == opened + combined_closing(anack, tx_amount, rx_amount)
            &&& r == combined_result(tx_amount == tx.len, rx_amount == rx.len)
        }
    }
}

/// Window `i` of a source, as the staging buffer holds it.
pub open spec fn window(source: Seq<u8>, i: nat) -> Seq<u8> {
    chunk(source, FORCE_COPY_BUFFER_SIZE as nat, i)
}

/// Number of windows that a source is sent in.
pub open spec fn windows(source: Seq<u8>) -> nat {
    chunk_count(source.len(), FORCE_COPY_BUFFER_SIZE as nat)
}

/// How a copied write followed by a read begins: the receive descriptor is
/// programmed once, for the whole transaction.
pub open spec fn copy_opening(address: u8, rx: Descriptor) -> Seq<Step> {
    seq![
        Step::Fence,
        Step::Write(Command::SetAddress(address)),
        Step::Write(Command::SetPtr(Direction::Rx, rx.ptr)),
        Step::Write(Command::SetMaxcnt(Direction::Rx, rx.len)),
    ]
}

/// One window sent from the staging buffer at `scratch`: `bytes` are staged,
/// the transmit descriptor is pointed at them, the burst runs to its last
/// byte and the amount is read as `amount`. There is no look at the
/// address-NACK flag and no stop.
pub open spec fn staged_burst(bytes: Seq<u8>, scratch: usize, amount: u32) -> Seq<Step> {
    seq![
        Step::Stage(bytes),
        Step::Write(Command::SetPtr(Direction::Tx, scratch)),
        Step::Write(Command::SetMaxcnt(Direction::Tx, bytes.len() as usize)),
        Step::Write(Command::Start(Direction::Tx)),
        Step::Wait(last_byte(Direction::Tx, false)),
        Step::Write(Command::ClearEvent(Event::Last(Direction::Tx))),
        Step::Read(Status::Amount(Direction::Tx), amount),
    ]
}

/// The first `k` windows of `source`, each sent whole.
pub open spec fn staged_bursts(source: Seq<u8>, scratch: usize, k: nat) -> Seq<Step>
    decreases k,
{
    if k == 0 {
        Seq::empty()
    } else {
        let sent = (k - 1) as nat;
        staged_bursts(source, scratch, sent) + staged_burst(
            window(source, sent),
            scratch,
            window(source, sent).len() as u32,
        )
    }
}

/// How a copied write followed by a read ends: the receive burst, the stop,
/// and the read of the received amount, which was `rx_amount`.
pub open spec fn copy_closing(rx_amount: u32) -> Seq<Step> {
    seq![
        Step::Write(Command::Start(Direction::Rx)),
        Step::Wait(last_byte(Direction::Rx, false)),
        Step::Write(Command::ClearEvent(Event::Last(Direction::Rx))),
        Step::Write(Command::Stop),
        Step::Wait(stopped()),
        Step::Write(Command::ClearEvent(Event::Stopped)),
        Step::Fence,
        Step::Read(Status::Amount(Direction::Rx), rx_amount),
    ]
}

/// The result of a copied write followed by a read that sent every window,
/// from whether the receive burst filled its buffer.
pub open spec fn copy_result(rx_complete: bool) -> Result<(), Error> {
    if !rx_complete {
        Err(Error::Receive)
    } else {
        Ok(())
    }
}

/// A copied write followed by a read came to its end at window `k`: the
/// windows before it were sent whole, and of window `k` another amount was
/// sent than it holds. No later window was staged.
pub open spec fn copy_stalled(
    before: Seq<Step>,
    after: Seq<Step>,
    address: u8,
    source: Seq<u8>,
    scratch: usize,
    rx: Descriptor,
    k: nat,
) -> bool {
    let amount = read_value(after.last());
    &&& k < windows(source)
    &&& amount != window(source, k).len()
    &&& after == before + copy_opening(address, rx) + staged_bursts(source, scratch, k)
        + staged_burst(window(source, k), scratch, amount)
}

/// A write of `source`, window by window through the staging buffer at
/// `scratch`, followed by a read into the buffer that `rx` describes, took
/// the history from `before` to `after` and gave `r`.
///
/// The source may lie anywhere and have any length. Each window's amount is
/// read before the next window is staged, and the first wrong one ends the
/// transaction, with no stop.
pub open spec fn copied(
    before: Seq<Step>,
    after: Seq<Step>,
    address: u8,
    source: Seq<u8>,
    scratch: usize,
    rx: Descriptor,
    r: Result<(), Error>,
) -> bool {
    if rx.len > EASY_DMA_SIZE {
        after == before && (r matches Err(Error::RxBufferTooLong))
    } else if (r matches Err(Error::Transmit)) {
        exists|k: nat| #[trigger] copy_stalled(before, after, address, source, scratch, rx, k)
    } else {
        let rx_amount = read_value(after.last());
        &&& after == before + copy_opening(address, rx) + staged_bursts(
            source,
            scratch,
            windows(source),
        ) + copy_closing(rx_amount)
        &&& r == copy_result(rx_amount == rx.len)
    }
}

/// One window written from the staging buffer at `scratch` in a transaction
/// of its own, which succeeded.
pub open spec fn staged_write(address: u8, bytes: Seq<u8>, scratch: usize) -> Seq<Step> {
    seq![Step::Stage(bytes)] + single_steps(
        Direction::Tx,
        address,
        Descriptor { ptr: scratch, len: bytes.len() as usize },
        bytes.len() as u32,
        0,
    )
}

/// The first `k` windows of `source`, each written in a transaction of its
/// own, which succeeded.
pub open spec fn staged_writes(address: u8, source: Seq<u8>, scratch: usize, k: nat) -> Seq<
    Step,
>
    decreases k,
{
    if k == 0 {
        Seq::empty()
    } else {
        let sent = (k - 1) as nat;
        staged_writes(address, source, scratch, sent) + staged_write(
            address,
            window(source, sent),
            scratch,
        )
    }
}

/// A copied write came to its end at window `k`: the windows before it were
/// written, window `k` was staged, and its write failed with `r`.
pub open spec fn copy_write_stalled(
    before: Seq<Step>,
    after: Seq<Step>,
    address: u8,
    source: Seq<u8>,
    scratch: usize,
    r: Result<(), Error>,
    k: nat,
) -> bool {
    &&& k < windows(source)
    &&& r is Err
    &&& written(
        (before + staged_writes(address, source, scratch, k)).push(
            Step::Stage(window(source, k)),
        ),
        after,
        address,
        Descriptor { ptr: scratch, len: window(source, k).len() as usize },
        r,
    )
}

/// A write of `source`, window by window through the staging buffer at
/// `scratch`, each window in a transaction of its own, took the history from
/// `before` to `after` and gave `r`. The first window whose write fails ends
/// it, with that write's error.
pub open spec fn copy_written(
    before: Seq<Step>,
    after: Seq<Step>,
    address: u8,
    source: Seq<u8>,
    scratch: usize,
    r: Result<(), Error>,
) -> bool {
    if r is Ok {
        after == before + staged_writes(address, source, scratch, windows(source))
    } else {
        exists|k: nat| #[trigger]
            copy_write_stalled(before, after, address, source, scratch, r, k)
    }
}

/// The write that serves any source: directly where the DMA engine reaches
/// it, else through the staging buffer.
pub open spec fn generic_written(
    before: Seq<Step>,
    after: Seq<Step>,
    address: u8,
    source: Seq<u8>,
    tx: Descriptor,
    scratch: usize,
    r: Result<(), Error>,
) -> bool {
    if tx.in_ram() {
        written(before, after, address, tx, r)
    } else {
        copy_written(before, after, address, source, scratch, r)
    }
}

/// The write followed by a read that serves any source: directly where the
/// DMA engine reaches it, else through the staging buffer.
pub open spec fn write_read_done(
    before: Seq<Step>,
    after: Seq<Step>,
    address: u8,
    source: Seq<u8>,
    tx: Descriptor,
    scratch: usize,
    rx: Descriptor,
    r: Result<(), Error>,
) -> bool {
    if tx.in_ram() {
        combined(before, after, address, tx, rx, r)
    } else {
        copied(before, after, address, source, scratch, rx, r)
    }
}


} // verus!
