use red_robin::system::dependencies::{default_dependencies, Dependency, DependencyStatus};
use red_robin::system::platform::{command_output_value, hostname_from_environment, PlatformInfo};

#[test]
fn default_dependencies_are_optional_tools() {
    let deps = default_dependencies();
    let listed: Vec<(&str, &str, bool)> = deps
        .iter()
        .map(|d| (d.name.as_str(), d.command.as_str(), d.required))
        .collect();
    assert_eq!(
        listed,
        vec![("Ping", "ping", false), ("IP", "ip", false), ("Hostname", "hostname", false)]
    );
}

fn status(required: bool, available: bool) -> DependencyStatus {
    DependencyStatus {
        dependency: Dependency { name: "X".to_string(), command: "x".to_string(), required },
        available,
    }
}

#[test]
fn status_strings() {
    assert_eq!(status(true, true).status_string(), "available");
    assert_eq!(status(false, true).status_string(), "available");
    assert_eq!(status(true, false).status_string(), "missing");
    assert_eq!(status(false, false).status_string(), "optional");
}

#[test]
fn platform_summary() {
    let mut info = PlatformInfo {
        operating_system: "linux".to_string(),
        architecture: "x86_64".to_string(),
        kernel: Some("6.1.0".to_string()),
        hostname: None,
    };
    assert_eq!(info.summary(), "linux x86_64 | kernel 6.1.0");
    info.kernel = None;
    assert_eq!(info.summary(), "linux x86_64 | kernel unknown");
}

#[test]
fn command_output_is_trimmed_and_needs_success() {
    assert_eq!(command_output_value(true, "6.1.0-13-amd64\n").as_deref(), Some("6.1.0-13-amd64"));
    assert_eq!(command_output_value(false, "6.1.0\n"), None);
    assert_eq!(command_output_value(true, " \n\t"), None);
    assert_eq!(command_output_value(true, ""), None);
}

#[test]
fn hostname_from_environment_needs_a_value() {
    assert_eq!(hostname_from_environment(Some("box".to_string())).as_deref(), Some("box"));
    assert_eq!(hostname_from_environment(Some(String::new())), None);
    assert_eq!(hostname_from_environment(None), None);
}
