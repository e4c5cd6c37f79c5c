//! The daemon's state and rules.
pub mod address;
pub mod conn_table;
pub mod connection;
pub mod device_manager;
pub mod device_scanner;
pub mod lifecycle;
pub mod mux;
pub mod pair_records;
pub mod protocol;
pub mod relay;
pub mod session;
pub mod transport;
pub mod usb;
