//! What differs between operating systems, as plain values.
pub mod unix;
pub mod windows;

use crate::security::PeerCredentials;
use crate::text;
use vstd::prelude::*;

verus! {

/// The family of operating systems that the daemon runs on.
#[derive(Debug, Clone, Copy, PartialEq, Eq, Structural)]
pub enum Platform {
    Unix,
    Windows,
}

/// `std::path::is_separator` says whether a character separates the parts of
/// a path on this system. Which characters do is up to the system, and not
/// said.
pub assume_specification[ std::path::is_separator ](c: char) -> (b: bool)
;

/// The family of a system, by whether the backslash separates the parts of a
/// path on it.
pub open spec fn platform_of(backslash: bool) -> Platform {
    if backslash {
        Platform::Windows
    } else {
        Platform::Unix
    }
}

/// The family of this system.
pub fn native_platform() -> (p: Platform)
    ensures
        exists|b: bool| #[trigger]
            call_ensures(std::path::is_separator, ('\\',), b) && p == platform_of(b),
{
    if std::path::is_separator('\\') {
        Platform::Windows
    } else {
        Platform::Unix
    }
}

/// How a client proved its identity.
#[derive(Debug, Clone)]
pub struct PeerIdentity {
    pub credentials: Option<PeerCredentials>,
    /// The client's security identifier on Windows; `None` on unix.
    pub sid: Option<String>,
}

impl PeerIdentity {
    /// A client of whom nothing is known.
    pub fn anonymous() -> (p: Self)
        ensures
            p.credentials is None,
            p.sid is None,
    {
        PeerIdentity { credentials: None, sid: None }
    }

    /// The identity with a process number added; zero adds nothing.
    pub fn with_pid(self, pid: u32) -> (p: Self)
        ensures
            text::opt_view(p.sid) == text::opt_view(self.sid),
            p.credentials == if pid == 0 {
                self.credentials
            } else {
                match self.credentials {
                    Some(c) => Some(PeerCredentials { pid: Some(pid), ..c }),
                    None => Some(PeerCredentials { uid: 0, gid: 0, pid: Some(pid) }),
                }
            },
    {
        if pid == 0 {
            return self;
        }
        let credentials = match self.credentials {
            Some(c) => PeerCredentials { uid: c.uid, gid: c.gid, pid: Some(pid) },
            None => PeerCredentials { uid: 0, gid: 0, pid: Some(pid) },
        };
        PeerIdentity { credentials: Some(credentials), sid: self.sid }
    }
}

/// Only on Windows does the backslash separate the parts of a path.
pub proof fn backslashes_tell_the_platform()
    ensures
        platform_of(true) == Platform::Windows,
        platform_of(false) == Platform::Unix,
{
}

} // verus!
