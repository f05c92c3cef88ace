//! The platform the tool runs on.
use vstd::prelude::*;

use crate::text::{trim, trimmed};

verus! {

/// The operating system, architecture, kernel version and host name.
#[derive(Debug, Clone)]
pub struct PlatformInfo {
    pub operating_system: String,
    pub architecture: String,
    pub kernel: Option<String>,
    pub hostname: Option<String>,
}

/// The one-line description of a platform.
pub open spec fn platform_summary(info: PlatformInfo) -> Seq<char> {
    info.operating_system@ + " "@ + info.architecture@ + " | kernel "@ + match info.kernel {
        Some(k) => k@,
        None => "unknown"@,
    }
}

impl PlatformInfo {
    /// Describes the platform in one line; an unknown kernel shows as
    /// `unknown`.
    pub fn summary(&self) -> (r: String)
        ensures
            r@ == platform_summary(*self),
    {
        let mut r = String::from_str(self.operating_system.as_str());
        r.append(" ");
        r.append(self.architecture.as_str());
        r.append(" | kernel ");
        match &self.kernel {
            Some(kernel) => r.append(kernel.as_str()),
            None => r.append("unknown"),
        }
        r
    }
}

/// The value a command printed: nothing when the command failed or printed
/// only white space, else its output trimmed.
pub open spec fn printed_value(succeeded: bool, stdout: Seq<char>) -> Option<Seq<char>> {
    if !succeeded || trimmed(stdout).len() == 0 {
        None
    } else {
        Some(trimmed(stdout))
    }
}

/// Reads the value a command printed, such as the kernel version from
/// `uname -r` or the host name from `hostname`.
pub fn command_output_value(succeeded: bool, stdout: &str) -> (r: Option<String>)
    ensures
        r is None <==> printed_value(succeeded, stdout@) is None,
        r matches Some(v) ==> printed_value(succeeded, stdout@) == Some(v@),
        !succeeded ==> r is None,
        r matches Some(v) ==> v@ == trimmed(stdout@) && v@.len() > 0,
        succeeded && r is None ==> trimmed(stdout@).len() == 0,
{
    if !succeeded {
        return None;
    }
    let value = trim(stdout);
    if value.as_str().is_empty() {
        None
    } else {
        Some(value)
    }
}

/// The host name the environment gives: the value of `HOSTNAME` when it is
/// set and not empty.
pub fn hostname_from_environment(value: Option<String>) -> (r: Option<String>)
    ensures
        r is None <==> (value is None || value.unwrap()@.len() == 0),
        r matches Some(h) ==> value == Some(h),
{
    match value {
        Some(hostname) => if hostname.as_str().is_empty() {
            None
        } else {
            Some(hostname)
        },
        None => None,
    }
}

} // verus!
