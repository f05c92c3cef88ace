use red_robin::config::{default_config, Config, Settings, TestConfig};
use red_robin::output::overall_rating;
use red_robin::ratings::Rating;
use red_robin::runner::{outcome_for_kind, run_single_test, Runner};

fn test(name: &str, test_type: &str, target: Option<&str>) -> TestConfig {
    TestConfig {
        name: name.to_string(),
        test_type: test_type.to_string(),
        target: target.map(|t| t.to_string()),
        server: None,
        domain: None,
        url: None,
        address: None,
        port: None,
    }
}

#[test]
fn icmp_tests_report_their_target() {
    let result = run_single_test(&Settings::default(), &test("Google DNS", "ICMP", Some("8.8.8.8")));
    assert_eq!(result.name, "Google DNS");
    assert_eq!(result.rating, "YUCK");
    assert!(!result.success);
    assert_eq!(result.statistics, "ICMP target: 8.8.8.8 | tester pending");
    assert_eq!(result.message.as_deref(), Some("not yet implemented"));

    let missing = run_single_test(&Settings::default(), &test("None", "icmp", None));
    assert_eq!(missing.statistics, "No target");
    assert_eq!(missing.message.as_deref(), Some("missing target"));
}

#[test]
fn pending_testers_are_named() {
    let cases = [
        ("dns", "DNS tester not yet implemented"),
        ("HTTP", "HTTP tester not yet implemented"),
        ("https", "HTTPS tester not yet implemented"),
        ("Tcp", "TCP tester not yet implemented"),
        ("udp", "UDP tester not yet implemented"),
        ("tls", "TLS tester not yet implemented"),
        ("tor", "Tor tester not yet implemented"),
        ("onion", "Onion-service tester not yet implemented"),
        ("I2P", "I2P tester not yet implemented"),
    ];
    for (kind, label) in cases {
        let result = run_single_test(&Settings::default(), &test("t", kind, None));
        assert_eq!(result.statistics, label);
        assert_eq!(result.message.as_deref(), Some("pending"));
        assert_eq!(result.rating, "YUCK");
        assert!(!result.success);
    }
}

#[test]
fn unknown_types_are_reported_lowercased() {
    let result = run_single_test(&Settings::default(), &test("t", "Carrier-PIGEON", None));
    assert_eq!(result.statistics, "Unknown");
    assert_eq!(result.message.as_deref(), Some("Unsupported test type: carrier-pigeon"));
}

#[test]
fn runner_returns_one_result_per_test_in_order() {
    let config = Config {
        settings: Settings::default(),
        tests: vec![test("first", "dns", None), test("second", "icmp", Some("1.1.1.1")), test("third", "ftp", None)],
    };
    let results = Runner::new(config).run();
    let names: Vec<&str> = results.iter().map(|r| r.name.as_str()).collect();
    assert_eq!(names, vec!["first", "second", "third"]);
    assert_eq!(overall_rating(&results), Some(Rating::Yuck));
}

#[test]
fn builtin_run_rates_yuck_while_testers_are_pending() {
    let results = Runner::new(default_config()).run();
    assert_eq!(results.len(), 3);
    assert!(results.iter().all(|r| !r.success));
    assert_eq!(results[2].statistics, "ICMP target: 9.9.9.9 | tester pending");
    assert_eq!(overall_rating(&results), Some(Rating::Yuck));
}

#[test]
fn dispatch_takes_the_type_as_given() {
    let settings = Settings::default();
    let icmp = test("Edge", "whatever", Some("10.0.0.1"));
    let placeholder = outcome_for_kind(&settings, &icmp, "icmp");
    assert_eq!(placeholder.name, "Edge");
    assert_eq!(placeholder.statistics, "ICMP target: 10.0.0.1 | tester pending");
    assert_eq!(placeholder.message.as_deref(), Some("not yet implemented"));

    let upper = outcome_for_kind(&settings, &icmp, "ICMP");
    assert_eq!(upper.statistics, "Unknown");
    assert_eq!(upper.message.as_deref(), Some("Unsupported test type: ICMP"));

    let dns = outcome_for_kind(&settings, &icmp, "dns");
    assert_eq!(dns.statistics, "DNS tester not yet implemented");
    assert_eq!(dns.rating, "YUCK");
    assert!(!dns.success);
}
