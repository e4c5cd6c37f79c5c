//! The daemon as a Windows service.
use crate::text;
use vstd::prelude::*;

verus! {

pub const SERVICE_NAME: &'static str = "meridian-relay";

pub const SERVICE_DISPLAY: &'static str = "Meridian Relay (iOS USB mux)";

pub const SERVICE_DESC: &'static str =
    "Cross-platform usbmuxd-compatible USB multiplexing relay for iOS devices.";

/// How often, in milliseconds, it is looked whether the service is to stop.
pub const STOP_POLL_MS: u64 = 250;

/// What the service manager asks of the service.
#[derive(Debug, Clone, Copy, PartialEq, Eq, Structural)]
pub enum Control {
    Stop,
    Shutdown,
    Interrogate,
    Other,
}

/// How the service takes it.
#[derive(Debug, Clone, Copy, PartialEq, Eq, Structural)]
pub enum ControlStep {
    /// Stop soon.
    Stop,
    /// Nothing is to be done.
    Acknowledge,
    /// The service does not know how.
    Decline,
}

/// Decides how the service takes a request of the service manager.
pub fn on_control(control: Control) -> (step: ControlStep)
    ensures
        step == match control {
            Control::Stop => ControlStep::Stop,
            Control::Shutdown => ControlStep::Stop,
            Control::Interrogate => ControlStep::Acknowledge,
            Control::Other => ControlStep::Decline,
        },
{
    match control {
        Control::Stop | Control::Shutdown => ControlStep::Stop,
        Control::Interrogate => ControlStep::Acknowledge,
        Control::Other => ControlStep::Decline,
    }
}

/// With what the service manager starts the program.
pub fn launch_arguments() -> (args: Vec<String>)
    ensures
        text::text_views(args@) == seq!["daemon"@, "--service-run"@],
{
    let mut args: Vec<String> = Vec::new();
    args.push("daemon".to_owned());
    args.push("--service-run".to_owned());
    assert(text::text_views(args@) =~= seq!["daemon"@, "--service-run"@]);
    args
}

} // verus!
