[package]
name = "nrf_twim"
version = "0.1.0"
edition = "2021"
publish = false

[dependencies]
embedded-hal = "0.2.4"
nrf52832-pac = "0.9.0"
