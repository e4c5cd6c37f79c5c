//! Defaults on Linux and macOS.
use crate::platform::PeerIdentity;
use crate::text;
use crate::text::{joined, strip_prefix};
use vstd::prelude::*;

verus! {

pub const OS_NAME: &'static str = "unix";

/// Where clients reach the daemon by default.
pub fn default_endpoint() -> (s: String)
    ensures
        s@ == "/var/run/usbmuxd"@,
{
    "/var/run/usbmuxd".to_owned()
}

pub fn default_lockdown_dir() -> (s: String)
    ensures
        s@ == "/var/lib/lockdown"@,
{
    "/var/lib/lockdown".to_owned()
}

pub fn default_config_path() -> (s: String)
    ensures
        s@ == "/etc/meridian-relay.toml"@,
{
    "/etc/meridian-relay.toml".to_owned()
}

pub fn default_log_dir() -> (s: String)
    ensures
        s@ == "/var/log"@,
{
    "/var/log".to_owned()
}

/// The identity of a client on a transport that names none.
pub fn anonymous_peer() -> (p: PeerIdentity)
    ensures
        p.credentials is None,
        p.sid is None,
{
    PeerIdentity::anonymous()
}

/// Endpoints are protected by file modes here, not by descriptors.
pub fn default_pipe_security() -> (s: String)
    ensures
        s@ == Seq::<char>::empty(),
{
    String::new()
}

/// The address to report readiness to, from the text that the service
/// manager hands over: `@` stands for the zero of the abstract namespace.
pub fn notify_address(socket: &str) -> (s: String)
    ensures
        s@ == if text::has_prefix(socket@, "@"@) {
            "\0"@ + socket@.skip("@"@.len() as int)
        } else {
            socket@
        },
{
    match strip_prefix(socket, "@") {
        Some(name) => joined("\0", name.as_str()),
        None => socket.to_owned(),
    }
}

} // verus!
