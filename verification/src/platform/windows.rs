//! Defaults on Windows, below the directory of program data.
use crate::platform::PeerIdentity;
use crate::text::{chars_of, joined};
use vstd::prelude::*;

verus! {

pub const OS_NAME: &'static str = "windows";

/// Well-known security identifiers, as descriptors write them.
pub const SID_SYSTEM: &'static str = "SY";

pub const SID_ADMINISTRATORS: &'static str = "BA";

pub const SID_AUTHENTICATED_USERS: &'static str = "AU";

/// The descriptor of the daemon's pipe: the system, administrators and
/// interactive users have full access.
pub const DEFAULT_PIPE_SDDL: &'static str = "D:P(A;;GA;;;SY)(A;;GA;;;BA)(A;;GA;;;IU)";

/// The descriptor of secret files: the system and administrators only.
pub const SECRET_FILE_SDDL: &'static str = "D:P(A;;FA;;;SY)(A;;FA;;;BA)";

/// Where clients reach the daemon by default.
pub fn default_endpoint() -> (s: String)
    ensures
        s@ == "pipe:meridian-relay"@,
{
    "pipe:meridian-relay".to_owned()
}

/// The directory of program data, given the variable that names it.
pub fn program_data(variable: Option<String>) -> (s: String)
    ensures
        s@ == match variable {
            Some(v) => v@,
            None => "C:\\ProgramData"@,
        },
{
    match variable {
        Some(v) => v,
        None => "C:\\ProgramData".to_owned(),
    }
}

/// A name below a directory: with a backslash between them unless the
/// directory is empty or ends with a separator.
pub open spec fn below(dir: Seq<char>, name: Seq<char>) -> Seq<char> {
    if dir.len() == 0 || dir.last() == '\\' || dir.last() == '/' {
        dir + name
    } else {
        dir + "\\"@ + name
    }
}

/// A name below a directory.
pub fn join(dir: &str, name: &str) -> (s: String)
    ensures
        s@ == below(dir@, name@),
{
    let cs = chars_of(dir);
    let n: usize = cs.len();
    if n == 0 || cs[n - 1] == '\\' || cs[n - 1] == '/' {
        joined(dir, name)
    } else {
        let mut s = joined(dir, "\\");
        s.append(name);
        s
    }
}

pub fn default_lockdown_dir(program_data: &str) -> (s: String)
    ensures
        s@ == below(below(program_data@, "Apple"@), "Lockdown"@),
{
    join(join(program_data, "Apple").as_str(), "Lockdown")
}

pub fn default_config_path(program_data: &str) -> (s: String)
    ensures
        s@ == below(below(program_data@, "Meridian"@), "config.toml"@),
{
    join(join(program_data, "Meridian").as_str(), "config.toml")
}

pub fn default_log_dir(program_data: &str) -> (s: String)
    ensures
        s@ == below(below(program_data@, "Meridian"@), "Logs"@),
{
    join(join(program_data, "Meridian").as_str(), "Logs")
}

/// The identity of a client on a transport that names none.
pub fn anonymous_peer() -> (p: PeerIdentity)
    ensures
        p.credentials is None,
        p.sid is None,
{
    PeerIdentity::anonymous()
}

/// The descriptor that the daemon's pipe gets by default.
pub fn default_pipe_security() -> (s: String)
    ensures
        s@ == DEFAULT_PIPE_SDDL@,
{
    DEFAULT_PIPE_SDDL.to_owned()
}

/// A backslash stands between a directory and what is below it, and never two
/// separators.
pub proof fn one_separator_stands_between(dir: Seq<char>, name: Seq<char>)
    ensures
        dir.len() > 0 && dir.last() != '\\' && dir.last() != '/' ==> below(dir, name) == dir
            + "\\"@ + name,
        below(dir.push('\\'), name) == dir.push('\\') + name,
        below(dir.push('/'), name) == dir.push('/') + name,
        below(seq![], name) == name,
{
    assert(Seq::<char>::empty() + name =~= name);
}

} // verus!
