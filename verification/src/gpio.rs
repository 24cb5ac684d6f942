//! The two pins that carry the bus.
use vstd::prelude::*;

verus! {

/// A GPIO port. The nRF52832 has one.
#[derive(Debug, Copy, Clone, Eq, PartialEq)]
pub enum Port {
    Port0,
}

/// Number of pins on one port.
pub const PINS_PER_PORT: u8 = 32;

/// One GPIO pin, owned by whoever holds the value. It is neither `Clone` nor
/// `Copy`: handing it to the driver gives the pin away.
#[derive(Debug)]
pub struct Pin {
    port: Port,
    pin: u8,
}

impl Pin {
    #[verifier::type_invariant]
    spec fn in_range(self) -> bool {
        self.pin < PINS_PER_PORT
    }

    /// The port the pin is on.
    pub closed spec fn spec_port(&self) -> Port {
        self.port
    }

    /// The pin's number within its port.
    pub closed spec fn spec_pin(&self) -> u8 {
        self.pin
    }

    /// The pin with number `pin` on `port`, if the port has such a pin.
    pub fn new(port: Port, pin: u8) -> (r: Option<Pin>)
        ensures
            r is Some <==> pin < PINS_PER_PORT,
            r matches Some(p) ==> p.spec_port() == port && p.spec_pin() == pin,
    {
        if pin < PINS_PER_PORT {
            Some(Pin { port, pin })
        } else {
            None
        }
    }

    #[verifier::when_used_as_spec(spec_port)]
    pub fn port(&self) -> (r: Port)
        ensures
            r == self.spec_port(),
    {
        self.port
    }

    #[verifier::when_used_as_spec(spec_pin)]
    pub fn pin(&self) -> (r: u8)
        ensures
            r == self.spec_pin(),
            r < PINS_PER_PORT,
    {
        proof {
            use_type_invariant(self);
        }
        self.pin
    }
}

/// Which way a pin faces.
#[derive(Debug, Copy, Clone, Eq, PartialEq)]
pub enum PinDirection {
    Input,
    Output,
}

/// The electrical mode of a pin, as its configuration register holds it.
#[derive(Debug, Copy, Clone, Eq, PartialEq)]
pub struct PinMode {
    /// Whether the pin is an input or an output.
    pub direction: PinDirection,
    /// Whether the pull-up resistor is enabled.
    pub pull_up: bool,
    /// Whether the pin's output drives the line high.
    pub output_drive: bool,
    /// Whether the pin's input buffer is enabled.
    pub input_buffer: bool,
}

impl PinMode {
    /// The electrically neutral mode that both bus lines are put in: input
    /// mode, pull-up enabled, output drive disabled, input buffering
    /// disabled.
    pub open spec fn spec_bus() -> PinMode {
        PinMode {
            direction: PinDirection::Input,
            pull_up: true,
            output_drive: false,
            input_buffer: false,
        }
    }

    /// The mode that initialization writes to both pins.
    #[verifier::when_used_as_spec(spec_bus)]
    pub fn bus() -> (r: PinMode)
        ensures
            r == PinMode::spec_bus(),
    {
        PinMode {
            direction: PinDirection::Input,
            pull_up: true,
            output_drive: false,
            input_buffer: false,
        }
    }
}

/// The pins used by the TWIM peripheral.
pub struct Pins {
    /// Serial clock line.
    pub scl: Pin,
    /// Serial data line.
    pub sda: Pin,
}

} // verus!
