//! What can go wrong with a device.
use crate::text::joined;
use vstd::prelude::*;

verus! {

#[derive(Debug)]
pub enum DeviceError {
    /// The daemon could not be reached; the text says why.
    Connection(String),
    NotAccessible,
}

impl DeviceError {
    /// The message shown for the error.
    pub open spec fn text(self) -> Seq<char> {
        match self {
            DeviceError::Connection(m) => "usbmuxd connection failed: "@ + m@,
            DeviceError::NotAccessible => "device not paired or not accessible"@,
        }
    }

    /// The message shown for the error.
    pub fn to_text(&self) -> (s: String)
        ensures
            s@ == self.text(),
    {
        match self {
            DeviceError::Connection(m) => joined("usbmuxd connection failed: ", m.as_str()),
            DeviceError::NotAccessible => "device not paired or not accessible".to_owned(),
        }
    }
}

/// What errors say.
pub proof fn what_device_errors_say(m: String)
    ensures
        DeviceError::Connection(m).text() == "usbmuxd connection failed: "@ + m@,
        DeviceError::NotAccessible.text() == "device not paired or not accessible"@,
{
}

} // verus!
