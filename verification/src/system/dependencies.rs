//! The external commands the tool relies on.
use vstd::prelude::*;

verus! {

/// An external command the tool may use.
#[derive(Debug, Clone)]
pub struct Dependency {
    pub name: String,
    pub command: String,
    pub required: bool,
}

/// Whether a command was found.
#[derive(Debug, Clone)]
pub struct DependencyStatus {
    pub dependency: Dependency,
    pub available: bool,
}

/// Whether a dependency has the given name and command, and is optional.
pub open spec fn is_optional_dependency(d: Dependency, name: Seq<char>, command: Seq<char>) -> bool {
    &&& d.name@ == name
    &&& d.command@ == command
    &&& !d.required
}

fn optional_dependency(name: &str, command: &str) -> (d: Dependency)
    ensures
        is_optional_dependency(d, name@, command@),
{
    Dependency { name: String::from_str(name), command: String::from_str(command), required: false }
}

/// The commands the tool looks for: `ping`, `ip` and `hostname`, all
/// optional.
pub fn default_dependencies() -> (r: Vec<Dependency>)
    ensures
        r@.len() == 3,
        is_optional_dependency(r@[0], "Ping"@, "ping"@),
        is_optional_dependency(r@[1], "IP"@, "ip"@),
        is_optional_dependency(r@[2], "Hostname"@, "hostname"@),
{
    let mut r: Vec<Dependency> = Vec::new();
    r.push(optional_dependency("Ping", "ping"));
    r.push(optional_dependency("IP", "ip"));
    r.push(optional_dependency("Hostname", "hostname"));
    r
}

/// The word shown for a dependency's status.
pub open spec fn status_text(status: DependencyStatus) -> Seq<char> {
    if status.available {
        "available"@
    } else if status.dependency.required {
        "missing"@
    } else {
        "optional"@
    }
}

impl DependencyStatus {
    /// `available` when the command was found; otherwise `missing` for a
    /// required command and `optional` for one the tool can do without.
    pub fn status_string(&self) -> (r: &'static str)
        ensures
            r@ == status_text(*self),
    {
        if self.available {
            "available"
        } else if self.dependency.required {
            "missing"
        } else {
            "optional"
        }
    }
}

} // verus!
