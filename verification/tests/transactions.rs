//! The transactions, run against a simulated peripheral and slave.
use nrf_twim::error::Error;
use nrf_twim::gpio::{Pin, PinDirection, PinMode, Pins, Port};
use nrf_twim::memory::Descriptor;
use nrf_twim::registers::{Command, Condition, Direction, Event, Frequency, Instance, Status};
use nrf_twim::target_constants::{EASY_DMA_SIZE, FORCE_COPY_BUFFER_SIZE, SRAM_LOWER};
use nrf_twim::twim::Twim;

/// Number of register writes that initialization makes.
const BRING_UP: usize = 6;

/// One thing the driver asked of the simulated peripheral.
#[derive(Debug, Clone, Copy, PartialEq, Eq)]
enum Seen {
    Write(Command),
    Read(Status),
    Wait(Condition),
}

/// A peripheral with a slave behind it. The slave acknowledges its address
/// unless `nack` is set. A burst moves as many bytes as the descriptor asks
/// for, less what `tx_short` or `rx_short` says; `tx_short_from` delays the
/// shortfall to a later transmit burst.
#[derive(Debug)]
struct Sim {
    seen: Vec<Seen>,
    nack: bool,
    tx_short: u32,
    tx_short_from: usize,
    rx_short: u32,
    tx_bursts: usize,
    tx_maxcnt: usize,
    rx_maxcnt: usize,
    tx_amount: u32,
    rx_amount: u32,
    anack: bool,
    last_tx: bool,
    last_rx: bool,
    stopped: bool,
}

impl Sim {
    fn acking() -> Sim {
        Sim {
            seen: Vec::new(),
            nack: false,
            tx_short: 0,
            tx_short_from: 0,
            rx_short: 0,
            tx_bursts: 0,
            tx_maxcnt: 0,
            rx_maxcnt: 0,
            tx_amount: 0,
            rx_amount: 0,
            anack: false,
            last_tx: false,
            last_rx: false,
            stopped: false,
        }
    }

    fn nacking() -> Sim {
        let mut sim = Sim::acking();
        sim.nack = true;
        sim
    }

    /// What the driver asked for once initialization was over.
    fn since_bring_up(&self) -> &[Seen] {
        &self.seen[BRING_UP..]
    }

    fn count(&self, wanted: Seen) -> usize {
        self.since_bring_up().iter().filter(|s| **s == wanted).count()
    }

    /// The lengths of the transmit bursts, in order.
    fn tx_lengths(&self) -> Vec<usize> {
        let mut out: Vec<usize> = Vec::new();
        for s in self.since_bring_up().iter() {
            if let Seen::Write(Command::SetMaxcnt(Direction::Tx, n)) = s {
                out.push(*n);
            }
        }
        out
    }

    fn fired(&self, event: Event) -> bool {
        match event {
            Event::Last(Direction::Tx) => self.last_tx,
            Event::Last(Direction::Rx) => self.last_rx,
            Event::Stopped => self.stopped,
        }
    }
}

impl Instance for Sim {
    fn apply(&mut self, command: Command) {
        self.seen.push(Seen::Write(command));
        match command {
            Command::SetMaxcnt(Direction::Tx, n) => self.tx_maxcnt = n,
            Command::SetMaxcnt(Direction::Rx, n) => self.rx_maxcnt = n,
            Command::ClearAnack => self.anack = false,
            Command::Start(Direction::Tx) => {
                if self.nack {
                    self.anack = true;
                    self.tx_amount = 0;
                } else {
                    let short: u32 =
                        if self.tx_bursts >= self.tx_short_from { self.tx_short } else { 0 };
                    self.tx_amount = (self.tx_maxcnt as u32).saturating_sub(short);
                    self.last_tx = true;
                }
                self.tx_bursts += 1;
            }
            Command::Start(Direction::Rx) => {
                if self.nack {
                    self.anack = true;
                    self.rx_amount = 0;
                } else {
                    self.rx_amount = (self.rx_maxcnt as u32).saturating_sub(self.rx_short);
                    self.last_rx = true;
                }
            }
            Command::Stop => self.stopped = true,
            Command::ClearEvent(Event::Last(Direction::Tx)) => self.last_tx = false,
            Command::ClearEvent(Event::Last(Direction::Rx)) => self.last_rx = false,
            Command::ClearEvent(Event::Stopped) => self.stopped = false,
            _ => {}
        }
    }

    fn read(&mut self, status: Status) -> u32 {
        self.seen.push(Seen::Read(status));
        match status {
            Status::Anack => u32::from(self.anack),
            Status::Amount(Direction::Tx) => self.tx_amount,
            Status::Amount(Direction::Rx) => self.rx_amount,
        }
    }

    fn wait_for(&mut self, condition: Condition) {
        self.seen.push(Seen::Wait(condition));
        let mut polls: u32 = 0;
        while !condition.met(self.fired(condition.event), self.anack) {
            polls += 1;
            assert!(polls < 1000, "the simulated peripheral never meets {:?}", condition);
        }
    }
}

fn pins() -> Pins {
    Pins { scl: Pin::new(Port::Port0, 26).unwrap(), sda: Pin::new(Port::Port0, 27).unwrap() }
}

fn handle(sim: Sim) -> Twim<Sim> {
    Twim::new(sim, pins(), Frequency::K100)
}

/// A descriptor of `len` bytes that lie in RAM.
fn in_ram(len: usize) -> Descriptor {
    Descriptor { ptr: SRAM_LOWER + 0x100, len }
}

/// A descriptor of `len` bytes that lie in flash.
fn in_flash(len: usize) -> Descriptor {
    Descriptor { ptr: 0x0001_0000, len }
}

const START_TX: Seen = Seen::Write(Command::Start(Direction::Tx));
const START_RX: Seen = Seen::Write(Command::Start(Direction::Rx));
const STOP: Seen = Seen::Write(Command::Stop);

fn wait_last(direction: Direction, or_anack: bool) -> Seen {
    Seen::Wait(Condition { event: Event::Last(direction), or_anack })
}

fn wait_stopped() -> Seen {
    Seen::Wait(Condition { event: Event::Stopped, or_anack: false })
}

fn clear(event: Event) -> Seen {
    Seen::Write(Command::ClearEvent(event))
}

/// The requests of one burst and of the two reads that settle it.
fn single(direction: Direction, address: u8, buffer: Descriptor) -> Vec<Seen> {
    vec![
        Seen::Write(Command::SetAddress(address)),
        Seen::Write(Command::SetPtr(direction, buffer.ptr)),
        Seen::Write(Command::SetMaxcnt(direction, buffer.len)),
        Seen::Write(Command::ClearAnack),
        Seen::Write(Command::Start(direction)),
        wait_last(direction, true),
        clear(Event::Last(direction)),
        STOP,
        wait_stopped(),
        clear(Event::Stopped),
        Seen::Read(Status::Amount(direction)),
        Seen::Read(Status::Anack),
    ]
}

#[test]
fn new_configures_pins_then_peripheral() {
    let mode: PinMode = PinMode {
        direction: PinDirection::Input,
        pull_up: true,
        output_drive: false,
        input_buffer: false,
    };
    assert_eq!(PinMode::bus(), mode);
    let sim: Sim = Twim::new(Sim::acking(), pins(), Frequency::K400).free();
    assert_eq!(
        sim.seen,
        vec![
            Seen::Write(Command::ConfigurePin { port: Port::Port0, pin: 26, mode }),
            Seen::Write(Command::ConfigurePin { port: Port::Port0, pin: 27, mode }),
            Seen::Write(Command::SelectScl { port: Port::Port0, pin: 26 }),
            Seen::Write(Command::SelectSda { port: Port::Port0, pin: 27 }),
            Seen::Write(Command::Enable),
            Seen::Write(Command::SetFrequency(Frequency::K400)),
        ]
    );
    assert_eq!(sim.seen.len(), BRING_UP);
}

#[test]
fn free_returns_the_peripheral_untouched() {
    let mut sim: Sim = Sim::acking();
    sim.rx_short = 7;
    let twim: Twim<Sim> = handle(sim);
    let sim: Sim = twim.free();
    assert_eq!(sim.rx_short, 7);
    assert_eq!(sim.seen.len(), BRING_UP);
}

#[test]
fn write_three_bytes_to_acking_slave() {
    let mut twim: Twim<Sim> = handle(Sim::acking());
    let data: [u8; 3] = [0x01, 0x02, 0x03];
    let r = twim.write_dma(0x50, in_ram(data.len()));
    assert_eq!(r, Ok(()));
    let sim: Sim = twim.free();
    assert_eq!(sim.tx_amount, 3);
    assert_eq!(sim.since_bring_up(), single(Direction::Tx, 0x50, in_ram(3)).as_slice());
}

#[test]
fn write_too_long_touches_no_register() {
    let mut twim: Twim<Sim> = handle(Sim::acking());
    let r = twim.write_dma(0x50, in_ram(261));
    assert_eq!(r, Err(Error::TxBufferTooLong));
    let sim: Sim = twim.free();
    assert!(sim.since_bring_up().is_empty());
}

#[test]
fn write_of_longest_burst_is_accepted() {
    let mut twim: Twim<Sim> = handle(Sim::acking());
    assert_eq!(EASY_DMA_SIZE, 255);
    assert_eq!(twim.write_dma(0x50, in_ram(EASY_DMA_SIZE)), Ok(()));
    assert_eq!(twim.write_dma(0x50, in_ram(EASY_DMA_SIZE + 1)), Err(Error::TxBufferTooLong));
    let sim: Sim = twim.free();
    assert_eq!(sim.count(START_TX), 1);
    assert_eq!(sim.tx_amount, 255);
}

#[test]
fn write_of_no_bytes_still_addresses_the_slave() {
    let mut twim: Twim<Sim> = handle(Sim::acking());
    assert_eq!(twim.write_dma(0x50, in_ram(0)), Ok(()));
    let sim: Sim = twim.free();
    assert_eq!(sim.count(START_TX), 1);
    assert_eq!(sim.count(STOP), 1);
}

#[test]
fn write_from_flash_is_refused_before_any_start() {
    let mut twim: Twim<Sim> = handle(Sim::acking());
    let r = twim.write_dma(0x50, in_flash(3));
    assert_eq!(r, Err(Error::DMABufferNotInDataMemory));
    let sim: Sim = twim.free();
    assert!(sim.since_bring_up().is_empty());
}

#[test]
fn write_checks_residency_before_length() {
    let mut twim: Twim<Sim> = handle(Sim::acking());
    let r = twim.write_dma(0x50, in_flash(1000));
    assert_eq!(r, Err(Error::DMABufferNotInDataMemory));
    assert!(twim.free().since_bring_up().is_empty());
}

#[test]
fn write_to_absent_slave_is_nacked_after_a_stop() {
    let mut twim: Twim<Sim> = handle(Sim::nacking());
    let r = twim.write_dma(0x50, in_ram(3));
    assert_eq!(r, Err(Error::AddressNack));
    let sim: Sim = twim.free();
    assert_eq!(sim.count(STOP), 1);
    assert_eq!(sim.since_bring_up(), single(Direction::Tx, 0x50, in_ram(3)).as_slice());
}

#[test]
fn write_cut_short_is_a_transmit_error() {
    let mut sim: Sim = Sim::acking();
    sim.tx_short = 1;
    let mut twim: Twim<Sim> = handle(sim);
    assert_eq!(twim.write_dma(0x50, in_ram(3)), Err(Error::Transmit));
    let sim: Sim = twim.free();
    assert_eq!(sim.tx_amount, 2);
    assert_eq!(sim.count(STOP), 1);
}

#[test]
fn write_of_host_buffer_is_refused() {
    // A buffer of the test process does not lie in the chip's RAM.
    let mut twim: Twim<Sim> = handle(Sim::acking());
    let data: [u8; 3] = [0x01, 0x02, 0x03];
    assert!(!Descriptor::of(&data).is_in_ram());
    assert_eq!(twim.write(0x50, &data), Err(Error::DMABufferNotInDataMemory));
    assert!(twim.free().since_bring_up().is_empty());
}

#[test]
fn read_fills_the_buffer() {
    let mut twim: Twim<Sim> = handle(Sim::acking());
    let mut buf: [u8; 8] = [0; 8];
    let rx: Descriptor = Descriptor::of_mut(&mut buf);
    assert_eq!(twim.read(0x20, &mut buf), Ok(()));
    let sim: Sim = twim.free();
    assert_eq!(sim.rx_amount, 8);
    assert_eq!(sim.since_bring_up(), single(Direction::Rx, 0x20, rx).as_slice());
}

#[test]
fn read_never_asks_where_the_buffer_lies() {
    let mut twim: Twim<Sim> = handle(Sim::acking());
    assert_eq!(twim.read_dma(0x20, in_flash(4)), Ok(()));
    assert_eq!(twim.read_dma(0x20, in_ram(4)), Ok(()));
    assert_eq!(twim.free().count(START_RX), 2);
}

#[test]
fn read_too_long_touches_no_register() {
    let mut twim: Twim<Sim> = handle(Sim::acking());
    let mut buf: [u8; 256] = [0x5a; 256];
    assert_eq!(twim.read(0x20, &mut buf), Err(Error::RxBufferTooLong));
    assert_eq!(twim.read_dma(0x20, in_ram(EASY_DMA_SIZE + 1)), Err(Error::RxBufferTooLong));
    assert!(twim.free().since_bring_up().is_empty());
    assert!(buf.iter().all(|b| *b == 0x5a));
}

#[test]
fn read_short_amount_is_a_receive_error() {
    let mut sim: Sim = Sim::acking();
    sim.rx_short = 2;
    let mut twim: Twim<Sim> = handle(sim);
    let mut buf: [u8; 4] = [0; 4];
    assert_eq!(twim.read(0x20, &mut buf), Err(Error::Receive));
    let sim: Sim = twim.free();
    assert_eq!(sim.rx_amount, 2);
    assert_eq!(sim.count(STOP), 1);
}

#[test]
fn read_from_absent_slave_is_nacked() {
    let mut twim: Twim<Sim> = handle(Sim::nacking());
    let mut buf: [u8; 4] = [9, 8, 7, 6];
    assert_eq!(twim.read(0x20, &mut buf), Err(Error::AddressNack));
    let sim: Sim = twim.free();
    assert_eq!(sim.count(wait_last(Direction::Rx, true)), 1);
    assert_eq!(sim.count(STOP), 1);
    assert_eq!(sim.rx_amount, 0);
    assert_eq!(buf, [9, 8, 7, 6]);
}

#[test]
fn write_read_sent_short_leaves_destination() {
    // The source lies in the test process, so it is copied.
    let mut sim: Sim = Sim::acking();
    sim.tx_short = 1;
    let mut twim: Twim<Sim> = handle(sim);
    let mut buf: [u8; 4] = [9, 8, 7, 6];
    assert_eq!(twim.write_read(0x20, &[1, 2, 3], &mut buf), Err(Error::Transmit));
    let sim: Sim = twim.free();
    assert_eq!(sim.count(START_RX), 0);
    assert_eq!(sim.count(STOP), 0);
    assert_eq!(buf, [9, 8, 7, 6]);

    let mut twim: Twim<Sim> = handle(Sim::acking());
    let mut long: [u8; 256] = [5; 256];
    assert_eq!(twim.write_read(0x20, &[1, 2, 3], &mut long), Err(Error::RxBufferTooLong));
    assert!(twim.free().since_bring_up().is_empty());
    assert!(long.iter().all(|b| *b == 5));
}

#[test]
fn write_then_read_runs_both_bursts_without_a_stop_between() {
    let mut twim: Twim<Sim> = handle(Sim::acking());
    let tx: Descriptor = in_ram(1);
    let rx: Descriptor = Descriptor { ptr: SRAM_LOWER + 0x200, len: 4 };
    assert_eq!(twim.write_then_read_dma(0x20, tx, rx), Ok(()));
    let sim: Sim = twim.free();
    assert_eq!(
        sim.since_bring_up(),
        vec![
            Seen::Write(Command::SetAddress(0x20)),
            Seen::Write(Command::SetPtr(Direction::Tx, tx.ptr)),
            Seen::Write(Command::SetMaxcnt(Direction::Tx, 1)),
            Seen::Write(Command::SetPtr(Direction::Rx, rx.ptr)),
            Seen::Write(Command::SetMaxcnt(Direction::Rx, 4)),
            Seen::Write(Command::ClearAnack),
            START_TX,
            wait_last(Direction::Tx, true),
            clear(Event::Last(Direction::Tx)),
            Seen::Read(Status::Anack),
            START_RX,
            wait_last(Direction::Rx, false),
            clear(Event::Last(Direction::Rx)),
            STOP,
            wait_stopped(),
            clear(Event::Last(Direction::Tx)),
            clear(Event::Last(Direction::Rx)),
            clear(Event::Stopped),
            Seen::Read(Status::Amount(Direction::Tx)),
            Seen::Read(Status::Amount(Direction::Rx)),
        ]
        .as_slice()
    );
    assert_eq!(sim.tx_amount, 1);
    assert_eq!(sim.rx_amount, 4);
}

#[test]
fn write_then_read_nack_stops_once_and_starts_no_receive() {
    let mut twim: Twim<Sim> = handle(Sim::nacking());
    let rx: Descriptor = Descriptor { ptr: SRAM_LOWER + 0x200, len: 4 };
    let r = twim.write_then_read_dma(0x20, in_ram(1), rx);
    assert_eq!(r, Err(Error::AddressNack));
    let sim: Sim = twim.free();
    assert_eq!(sim.count(STOP), 1);
    assert_eq!(sim.count(START_RX), 0);
    assert_eq!(sim.since_bring_up().last(), Some(&clear(Event::Stopped)));
}

#[test]
fn write_then_read_refusals_touch_no_register() {
    let mut twim: Twim<Sim> = handle(Sim::acking());
    assert_eq!(
        twim.write_then_read_dma(0x20, in_flash(1), in_ram(4)),
        Err(Error::DMABufferNotInDataMemory)
    );
    assert_eq!(
        twim.write_then_read_dma(0x20, in_ram(256), in_ram(4)),
        Err(Error::TxBufferTooLong)
    );
    assert_eq!(
        twim.write_then_read_dma(0x20, in_ram(1), in_ram(256)),
        Err(Error::RxBufferTooLong)
    );
    assert_eq!(
        twim.write_then_read_dma(0x20, in_ram(256), in_ram(256)),
        Err(Error::TxBufferTooLong)
    );
    assert_eq!(
        twim.write_then_read_dma(0x20, in_flash(256), in_ram(256)),
        Err(Error::DMABufferNotInDataMemory)
    );
    assert!(twim.free().since_bring_up().is_empty());
}

#[test]
fn write_then_read_of_host_buffer_leaves_destination() {
    let mut twim: Twim<Sim> = handle(Sim::acking());
    let mut rd: [u8; 4] = [0; 4];
    let r = twim.write_then_read(0x20, &[0xAA], &mut rd);
    assert_eq!(r, Err(Error::DMABufferNotInDataMemory));
    assert_eq!(rd, [0, 0, 0, 0]);
    assert!(twim.free().since_bring_up().is_empty());
}

#[test]
fn write_then_read_reports_transmit_before_receive() {
    let mut sim: Sim = Sim::acking();
    sim.tx_short = 1;
    sim.rx_short = 1;
    let mut twim: Twim<Sim> = handle(sim);
    assert_eq!(twim.write_then_read_dma(0x20, in_ram(2), in_ram(4)), Err(Error::Transmit));
    assert_eq!(twim.free().count(STOP), 1);

    let mut sim: Sim = Sim::acking();
    sim.rx_short = 1;
    let mut twim: Twim<Sim> = handle(sim);
    assert_eq!(twim.write_then_read_dma(0x20, in_ram(2), in_ram(4)), Err(Error::Receive));
    assert_eq!(twim.free().count(STOP), 1);
}

/// A source of `n` bytes, each one telling its index.
fn source(n: usize) -> Vec<u8> {
    let mut v: Vec<u8> = Vec::new();
    for i in 0..n {
        v.push((i % 251) as u8);
    }
    v
}

#[test]
fn copy_write_then_read_sends_window_by_window() {
    let mut twim: Twim<Sim> = handle(Sim::acking());
    let src: Vec<u8> = source(600);
    let mut scratch: [u8; FORCE_COPY_BUFFER_SIZE] = [0; FORCE_COPY_BUFFER_SIZE];
    let scratch_ptr: usize = SRAM_LOWER + 0x400;
    let rx: Descriptor = in_ram(4);
    let r = twim.copy_write_then_read_dma(0x20, &src, &mut scratch, scratch_ptr, rx);
    assert_eq!(r, Ok(()));
    let sim: Sim = twim.free();
    assert_eq!(sim.tx_lengths(), vec![255, 255, 90]);
    assert_eq!(sim.count(START_TX), 3);
    assert_eq!(sim.count(START_RX), 1);
    assert_eq!(sim.count(STOP), 1);
    assert_eq!(sim.count(Seen::Write(Command::SetPtr(Direction::Tx, scratch_ptr))), 3);
    assert_eq!(sim.count(Seen::Write(Command::SetPtr(Direction::Rx, rx.ptr))), 1);
    assert_eq!(sim.count(Seen::Read(Status::Amount(Direction::Tx))), 3);
    assert_eq!(sim.count(Seen::Read(Status::Anack)), 0);
    // The last window lies at the start of the staging buffer, what is left
    // of the one before it behind.
    assert_eq!(&scratch[..90], &src[510..600]);
    assert_eq!(&scratch[90..], &src[255 + 90..510]);
}

#[test]
fn copy_write_then_read_requests_in_order() {
    let mut twim: Twim<Sim> = handle(Sim::acking());
    let src: Vec<u8> = source(256);
    let mut scratch: [u8; FORCE_COPY_BUFFER_SIZE] = [0; FORCE_COPY_BUFFER_SIZE];
    let scratch_ptr: usize = SRAM_LOWER + 0x400;
    let rx: Descriptor = in_ram(2);
    assert_eq!(twim.copy_write_then_read_dma(0x21, &src, &mut scratch, scratch_ptr, rx), Ok(()));
    let sim: Sim = twim.free();
    let mut expected: Vec<Seen> = vec![
        Seen::Write(Command::SetAddress(0x21)),
        Seen::Write(Command::SetPtr(Direction::Rx, rx.ptr)),
        Seen::Write(Command::SetMaxcnt(Direction::Rx, 2)),
    ];
    for len in [255usize, 1usize] {
        expected.push(Seen::Write(Command::SetPtr(Direction::Tx, scratch_ptr)));
        expected.push(Seen::Write(Command::SetMaxcnt(Direction::Tx, len)));
        expected.push(START_TX);
        expected.push(wait_last(Direction::Tx, false));
        expected.push(clear(Event::Last(Direction::Tx)));
        expected.push(Seen::Read(Status::Amount(Direction::Tx)));
    }
    expected.push(START_RX);
    expected.push(wait_last(Direction::Rx, false));
    expected.push(clear(Event::Last(Direction::Rx)));
    expected.push(STOP);
    expected.push(wait_stopped());
    expected.push(clear(Event::Stopped));
    expected.push(Seen::Read(Status::Amount(Direction::Rx)));
    assert_eq!(sim.since_bring_up(), expected.as_slice());
    assert_eq!(scratch[0], src[255]);
}

#[test]
fn copy_write_then_read_window_counts() {
    for (n, lengths) in [
        (0usize, vec![]),
        (1usize, vec![1usize]),
        (254usize, vec![254usize]),
        (255usize, vec![255usize]),
        (256usize, vec![255usize, 1usize]),
        (510usize, vec![255usize, 255usize]),
        (511usize, vec![255usize, 255usize, 1usize]),
    ] {
        let mut twim: Twim<Sim> = handle(Sim::acking());
        let src: Vec<u8> = source(n);
        let mut scratch: [u8; FORCE_COPY_BUFFER_SIZE] = [0; FORCE_COPY_BUFFER_SIZE];
        let r = twim.copy_write_then_read_dma(0x20, &src, &mut scratch, 0x2000_0400, in_ram(1));
        assert_eq!(r, Ok(()));
        let sim: Sim = twim.free();
        assert_eq!(sim.tx_lengths(), lengths);
        assert_eq!(sim.count(START_RX), 1);
    }
}

#[test]
fn copy_write_then_read_stops_at_short_window() {
    let mut sim: Sim = Sim::acking();
    sim.tx_short = 1;
    sim.tx_short_from = 1;
    let mut twim: Twim<Sim> = handle(sim);
    let src: Vec<u8> = source(600);
    let mut scratch: [u8; FORCE_COPY_BUFFER_SIZE] = [0; FORCE_COPY_BUFFER_SIZE];
    let r = twim.copy_write_then_read_dma(0x20, &src, &mut scratch, 0x2000_0400, in_ram(4));
    assert_eq!(r, Err(Error::Transmit));
    let sim: Sim = twim.free();
    assert_eq!(sim.tx_lengths(), vec![255, 255]);
    assert_eq!(sim.count(START_RX), 0);
    assert_eq!(sim.count(STOP), 0);
    assert_eq!(sim.since_bring_up().last(), Some(&Seen::Read(Status::Amount(Direction::Tx))));
    // The third window was never staged.
    assert_eq!(&scratch[..], &src[255..510]);
}

#[test]
fn copy_write_then_read_checks_only_the_destination_length() {
    let mut twim: Twim<Sim> = handle(Sim::acking());
    let src: Vec<u8> = source(3);
    let mut scratch: [u8; FORCE_COPY_BUFFER_SIZE] = [0; FORCE_COPY_BUFFER_SIZE];
    let r = twim.copy_write_then_read_dma(0x20, &src, &mut scratch, 0x2000_0400, in_ram(256));
    assert_eq!(r, Err(Error::RxBufferTooLong));
    assert!(twim.free().since_bring_up().is_empty());
    assert_eq!(scratch, [0u8; FORCE_COPY_BUFFER_SIZE]);
}

#[test]
fn copy_write_then_read_short_receive() {
    let mut sim: Sim = Sim::acking();
    sim.rx_short = 3;
    let mut twim: Twim<Sim> = handle(sim);
    let mut rd: [u8; 4] = [0; 4];
    assert_eq!(twim.copy_write_then_read(0x20, &[1, 2, 3], &mut rd), Err(Error::Receive));
    let sim: Sim = twim.free();
    assert_eq!(sim.tx_lengths(), vec![3]);
    assert_eq!(sim.rx_amount, 1);
    assert_eq!(sim.count(STOP), 1);
}

#[test]
fn copy_write_then_read_takes_any_source() {
    let mut twim: Twim<Sim> = handle(Sim::acking());
    let src: Vec<u8> = source(1000);
    let mut rd: [u8; 255] = [0; 255];
    assert_eq!(twim.copy_write_then_read(0x20, &src, &mut rd), Ok(()));
    let sim: Sim = twim.free();
    assert_eq!(sim.tx_lengths(), vec![255, 255, 255, 235]);
    assert_eq!(sim.rx_amount, 255);
}

#[test]
fn copy_write_writes_each_window_in_its_own_transaction() {
    let mut twim: Twim<Sim> = handle(Sim::acking());
    let src: Vec<u8> = source(300);
    let mut scratch: [u8; FORCE_COPY_BUFFER_SIZE] = [0; FORCE_COPY_BUFFER_SIZE];
    let scratch_ptr: usize = SRAM_LOWER + 0x400;
    assert_eq!(twim.copy_write_dma(0x50, &src, &mut scratch, scratch_ptr), Ok(()));
    let sim: Sim = twim.free();
    let mut expected: Vec<Seen> =
        single(Direction::Tx, 0x50, Descriptor { ptr: scratch_ptr, len: 255 });
    expected.extend(single(Direction::Tx, 0x50, Descriptor { ptr: scratch_ptr, len: 45 }));
    assert_eq!(sim.since_bring_up(), expected.as_slice());
    assert_eq!(&scratch[..45], &src[255..300]);
}

#[test]
fn copy_write_ends_at_first_failure() {
    let mut sim: Sim = Sim::acking();
    sim.tx_short = 5;
    sim.tx_short_from = 1;
    let mut twim: Twim<Sim> = handle(sim);
    let src: Vec<u8> = source(700);
    let mut scratch: [u8; FORCE_COPY_BUFFER_SIZE] = [0; FORCE_COPY_BUFFER_SIZE];
    assert_eq!(twim.copy_write_dma(0x50, &src, &mut scratch, 0x2000_0400), Err(Error::Transmit));
    let sim: Sim = twim.free();
    assert_eq!(sim.tx_lengths(), vec![255, 255]);
    assert_eq!(sim.count(STOP), 2);

    let mut twim: Twim<Sim> = handle(Sim::nacking());
    assert_eq!(
        twim.copy_write_dma(0x50, &src, &mut scratch, 0x2000_0400),
        Err(Error::AddressNack)
    );
    assert_eq!(twim.free().tx_lengths(), vec![255]);
}

#[test]
fn copy_write_needs_its_staging_buffer_in_ram() {
    let mut twim: Twim<Sim> = handle(Sim::acking());
    let mut scratch: [u8; FORCE_COPY_BUFFER_SIZE] = [0; FORCE_COPY_BUFFER_SIZE];
    let r = twim.copy_write_dma(0x50, &[1, 2, 3], &mut scratch, 0x0001_0000);
    assert_eq!(r, Err(Error::DMABufferNotInDataMemory));
    assert!(twim.free().since_bring_up().is_empty());
    assert_eq!(&scratch[..3], &[1, 2, 3]);

    // On the host the staging buffer lies outside the chip's RAM too.
    let mut twim: Twim<Sim> = handle(Sim::acking());
    assert_eq!(twim.copy_write(0x50, &[1, 2, 3]), Err(Error::DMABufferNotInDataMemory));
    assert_eq!(twim.copy_write(0x50, &[]), Ok(()));
    assert!(twim.free().since_bring_up().is_empty());
}
