//! The register-level surface of the peripheral, by role.
//!
//! The driver never touches a register itself. It asks an [`Instance`] to do
//! so, one access at a time, naming the register by its role, and the
//! peripheral logs each access.
use crate::gpio::{PinMode, Port};
use crate::trace::Step;
use vstd::prelude::*;

verus! {

/// Bus clock frequency.
#[derive(Debug, Copy, Clone, Eq, PartialEq)]
pub enum Frequency {
    /// 100 kbps
    K100,
    /// 250 kbps
    K250,
    /// 400 kbps
    K400,
}

/// The two EasyDMA channels.
#[derive(Debug, Copy, Clone, Eq, PartialEq)]
pub enum Direction {
    /// Memory to bus, through `TXD`.
    Tx,
    /// Bus to memory, through `RXD`.
    Rx,
}

/// The completion events the driver waits for.
#[derive(Debug, Copy, Clone, Eq, PartialEq)]
pub enum Event {
    /// `EVENTS_LASTTX` or `EVENTS_LASTRX`: the last byte of the burst in that
    /// direction is under way.
    Last(Direction),
    /// `EVENTS_STOPPED`: the stop condition is on the bus.
    Stopped,
}

/// What a busy-wait waits for.
#[derive(Debug, Copy, Clone, Eq, PartialEq)]
pub struct Condition {
    /// The event that ends the wait.
    pub event: Event,
    /// Whether a set address-NACK flag ends the wait as well.
    pub or_anack: bool,
}

impl Condition {
    /// Whether the wait is over, given whether the event register is set and
    /// whether the address-NACK flag is set.
    pub open spec fn spec_met(&self, event_fired: bool, anack: bool) -> bool {
        event_fired || (self.or_anack && anack)
    }

    /// Decides one round of a busy-wait: an [`Instance`] polls the event
    /// register and the address-NACK flag and goes on polling until this
    /// returns `true`.
    #[verifier::when_used_as_spec(spec_met)]
    pub fn met(&self, event_fired: bool, anack: bool) -> (r: bool)
        ensures
            r == self.spec_met(event_fired, anack),
    {
        event_fired || (self.or_anack && anack)
    }
}

/// The registers the driver reads.
#[derive(Debug, Copy, Clone, Eq, PartialEq)]
pub enum Status {
    /// `ERRORSRC.ANACK`: non-zero when the slave did not acknowledge its
    /// address.
    Anack,
    /// `TXD.AMOUNT` or `RXD.AMOUNT`: bytes moved by the last burst in that
    /// direction.
    Amount(Direction),
}

/// The register writes and task triggers the driver issues.
#[derive(Debug, Copy, Clone, Eq, PartialEq)]
pub enum Command {
    /// The pin's configuration register: puts the pin into `mode`.
    ConfigurePin { port: Port, pin: u8, mode: PinMode },
    /// `PSEL.SCL`: connects the clock line to a pin.
    SelectScl { port: Port, pin: u8 },
    /// `PSEL.SDA`: connects the data line to a pin.
    SelectSda { port: Port, pin: u8 },
    /// `ENABLE`: switches the peripheral on.
    Enable,
    /// `FREQUENCY`
    SetFrequency(Frequency),
    /// `ADDRESS`: the slave the next transaction speaks to.
    SetAddress(u8),
    /// `TXD.PTR` or `RXD.PTR`: where the burst's buffer starts.
    SetPtr(Direction, usize),
    /// `TXD.MAXCNT` or `RXD.MAXCNT`: how many bytes the burst's buffer holds.
    SetMaxcnt(Direction, usize),
    /// Writes one to `ERRORSRC.ANACK`, which clears the flag.
    ClearAnack,
    /// `TASKS_STARTTX` or `TASKS_STARTRX`
    Start(Direction),
    /// `TASKS_STOP`
    Stop,
    /// Resets an event register.
    ClearEvent(Event),
}

/// One TWIM peripheral.
///
/// A peripheral has a log of everything it was asked for, and each method
/// adds to it the one step it was called for: that is what the driver's
/// contracts rest on. Nothing is assumed of what a read returns: the driver
/// decides on whatever comes back.
///
/// An implementation in verified code defines [`Instance::log`] and proves
/// the three clauses. One in ordinary Rust has no ghost state to define it
/// with and leaves it out; it is trusted to do, on each call, the one thing
/// it was asked for.
pub trait Instance {
    /// Everything this peripheral was asked for, in order.
    open spec fn log(&self) -> Seq<Step> {
        arbitrary()
    }

    /// Writes one register or triggers one task.
    fn apply(&mut self, command: Command)
        ensures
            final(self).log() == old(self).log().push(Step::Write(command)),
    ;

    /// Reads one register.
    fn read(&mut self, status: Status) -> (value: u32)
        ensures
            final(self).log() == old(self).log().push(Step::Read(status, value)),
    ;

    /// Polls until [`Condition::met`] says that `condition` holds. There is no
    /// time limit: a slave that never answers keeps the caller here.
    fn wait_for(&mut self, condition: Condition)
        ensures
            final(self).log() == old(self).log().push(Step::Wait(condition)),
    ;
}

} // verus!
