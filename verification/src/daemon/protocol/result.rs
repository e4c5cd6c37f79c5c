//! Result codes in `Result`/`Number` answers. Those up to 3 are usbmuxd's.
use vstd::prelude::*;

verus! {

/// The operation succeeded.
pub const OK: u32 = 0;

/// A badly formed or unknown command.
pub const BAD_COMMAND: u32 = 1;

/// The device is not known.
pub const BAD_DEVICE: u32 = 2;

/// The device refused the connection, or it failed otherwise.
pub const CONNECTION_REFUSED: u32 = 3;

/// A lockdown connection needs a pair record, and there is none.
pub const PAIR_RECORD_REQUIRED: u32 = 8;

} // verus!
