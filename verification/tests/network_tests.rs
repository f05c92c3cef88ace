use red_robin::network::gateway::default_route_fields;
use red_robin::network::interface::{
    interface_from_sysfs, operstate_is_up, sort_interfaces, NetworkInterface,
};
use red_robin::network::reachability::Reachability;
use red_robin::network::resolver::nameserver_entries;

#[test]
fn parses_default_route() {
    let output = "default via 192.168.1.1 dev eth0 proto dhcp metric 100\n";

    let route = default_route_fields(output).unwrap();

    assert_eq!(route.via, "192.168.1.1");

    assert_eq!(route.device.as_deref(), Some("eth0"));
}

#[test]
fn default_route_needs_a_default_line_with_via() {
    assert!(default_route_fields("").is_none());
    assert!(default_route_fields("10.0.0.0/8 via 10.0.0.1 dev eth1\n").is_none());
    assert!(default_route_fields("default dev wg0 scope link\n").is_none());
    assert!(default_route_fields("default via\n").is_none());
}

#[test]
fn default_route_takes_first_default_line_and_optional_device() {
    let output = "10.0.0.0/8 via 10.0.0.1 dev eth1\n  default   via 172.16.0.1\r\ndefault via 1.2.3.4 dev eth9\n";
    let route = default_route_fields(output).unwrap();
    assert_eq!(route.via, "172.16.0.1");
    assert_eq!(route.device, None);

    let route = default_route_fields("default via fe80::1 dev").unwrap();
    assert_eq!(route.via, "fe80::1");
    assert_eq!(route.device, None);
}

#[test]
fn parses_resolvers() {
    let contents = "\
nameserver 1.1.1.1
nameserver 8.8.8.8
nameserver 2606:4700:4700::1111
";

    let resolvers = nameserver_entries(contents);

    assert_eq!(resolvers.len(), 3);

    assert_eq!(resolvers[0], "1.1.1.1");

    assert_eq!(resolvers[1], "8.8.8.8");

    assert_eq!(resolvers[2], "2606:4700:4700::1111");
}

#[test]
fn resolver_entries_skip_comments_and_other_options() {
    let contents = "# nameserver 9.9.9.9\n\n   \nsearch example.com\nnameserver\n\tnameserver   10.0.0.53  # local\noptions ndots:2\nnameserver not-an-address";
    let entries = nameserver_entries(contents);
    assert_eq!(entries, vec!["10.0.0.53".to_string(), "not-an-address".to_string()]);
}

#[test]
fn operstate_is_read_trimmed() {
    assert!(operstate_is_up("up\n"));
    assert!(operstate_is_up("  up "));
    assert!(!operstate_is_up("down\n"));
    assert!(!operstate_is_up("upper"));
    assert!(!operstate_is_up(""));
}

#[test]
fn interfaces_are_built_from_sysfs_files() {
    let eth = interface_from_sysfs(
        "eth0".to_string(),
        Some("up\n".to_string()),
        Some("aa:bb:cc:dd:ee:ff\n".to_string()),
    );
    assert_eq!(eth.name, "eth0");
    assert!(eth.is_up);
    assert_eq!(eth.mac_address.as_deref(), Some("aa:bb:cc:dd:ee:ff"));

    let lo = interface_from_sysfs("lo".to_string(), None, None);
    assert!(!lo.is_up);
    assert!(lo.mac_address.is_none());
}

fn interface(name: &str, is_up: bool) -> NetworkInterface {
    NetworkInterface { name: name.to_string(), is_up, mac_address: None }
}

#[test]
fn interfaces_sort_by_name_keeping_ties_in_order() {
    let sorted = sort_interfaces(vec![
        interface("wlan0", true),
        interface("eth1", true),
        interface("lo", true),
        interface("eth0", false),
        interface("lo", false),
        interface("Eth", true),
        interface("é", true),
    ]);
    let names: Vec<(&str, bool)> = sorted.iter().map(|i| (i.name.as_str(), i.is_up)).collect();
    assert_eq!(
        names,
        vec![
            ("Eth", true),
            ("eth0", false),
            ("eth1", true),
            ("lo", true),
            ("lo", false),
            ("wlan0", true),
            ("é", true),
        ]
    );
    assert!(sort_interfaces(Vec::new()).is_empty());
}

#[test]
fn only_reachable_is_reachable() {
    assert!(Reachability::Reachable.is_reachable());
    assert!(!Reachability::Unreachable.is_reachable());
    assert!(!Reachability::Timeout.is_reachable());
}
