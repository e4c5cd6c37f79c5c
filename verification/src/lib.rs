//! The verified core of a usbmuxd-compatible relay daemon: framing and
//! reassembly of the USB multiplexing protocol, connection tracking, device
//! discovery, the client protocol and its access rules, configuration, and
//! the lockdown exchange. Input and output live outside this library.
pub mod bytes;
pub mod cli;
pub mod config;
pub mod daemon;
pub mod dates;
pub mod device;
pub mod driver;
pub mod error;
pub mod metrics;
pub mod platform;
pub mod plists;
pub mod security;
pub mod service;
pub mod setup;
pub mod text;
pub mod tunnel;
