//! What can go wrong for a command of the client.
use crate::text::joined;
use vstd::prelude::*;

verus! {

#[derive(Debug)]
pub enum RelayError {
    /// The daemon could not be reached; the text says why.
    Connection(String),
    DeviceNotFound(String),
    NoDevices,
}

impl RelayError {
    /// The message shown for the error.
    pub open spec fn text(self) -> Seq<char> {
        match self {
            RelayError::Connection(m) => "usbmuxd connection failed: "@ + m@,
            RelayError::DeviceNotFound(m) => "device not found: "@ + m@,
            RelayError::NoDevices => "no devices connected"@,
        }
    }

    /// The message shown for the error.
    pub fn to_text(&self) -> (s: String)
        ensures
            s@ == self.text(),
    {
        match self {
            RelayError::Connection(m) => joined("usbmuxd connection failed: ", m.as_str()),
            RelayError::DeviceNotFound(m) => joined("device not found: ", m.as_str()),
            RelayError::NoDevices => "no devices connected".to_owned(),
        }
    }
}

/// What errors say.
pub proof fn what_errors_say(m: String)
    ensures
        RelayError::Connection(m).text() == "usbmuxd connection failed: "@ + m@,
        RelayError::DeviceNotFound(m).text() == "device not found: "@ + m@,
        RelayError::NoDevices.text() == "no devices connected"@,
{
}

} // verus!
