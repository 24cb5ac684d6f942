//! Blocking master-mode driver for the TWIM peripheral, an I2C-compatible
//! two-wire controller with EasyDMA.
//!
//! The driver reaches the hardware only through the [`registers::Instance`]
//! trait, whose methods log what the peripheral was asked for. The handle
//! keeps, as ghost state, the history of all it did: those register steps,
//! and between them its fences and staging copies. The contracts of the
//! transaction operations give the history that an operation adds, and say
//! that the peripheral's log gained the register steps of it.
pub mod adapters;
pub mod chunks;
pub mod error;
mod fence;
pub mod gpio;
pub mod lemmas;
pub mod memory;
pub mod outcome;
pub mod protocol;
pub mod registers;
pub mod staged;
pub mod target_constants;
pub mod trace;
pub mod twim;
