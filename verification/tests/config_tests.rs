use red_robin::config::{
    default_config, default_meh_latency, default_parallel, default_retries, default_timeout,
    default_true, default_yum_latency, load_config, Config, ConfigError, RatingConfig, Settings,
    TestConfig,
};

fn icmp_test(name: &str, test_type: &str) -> TestConfig {
    TestConfig {
        name: name.to_string(),
        test_type: test_type.to_string(),
        target: Some("1.1.1.1".to_string()),
        server: None,
        domain: None,
        url: None,
        address: None,
        port: None,
    }
}

#[test]
fn valid_config_passes_validation() {
    let config = Config {
        settings: Settings::default(),
        tests: vec![TestConfig {
            name: "Google DNS".to_string(),
            test_type: "icmp".to_string(),
            target: Some("8.8.8.8".to_string()),
            server: None,
            domain: None,
            url: None,
            address: None,
            port: None,
        }],
    };

    assert!(config.validate().is_ok());
}

#[test]
fn empty_tests_fail_validation() {
    let config = Config {
        settings: Settings::default(),
        tests: Vec::new(),
    };

    assert!(config.validate().is_err());
}

#[test]
fn zero_timeout_fails_validation() {
    let mut settings = Settings::default();
    settings.timeout_seconds = 0;

    let config = Config {
        settings,
        tests: vec![TestConfig {
            name: "Test".to_string(),
            test_type: "icmp".to_string(),
            target: Some("1.1.1.1".to_string()),
            server: None,
            domain: None,
            url: None,
            address: None,
            port: None,
        }],
    };

    assert!(config.validate().is_err());
}

#[test]
fn invalid_rating_thresholds_fail_validation() {
    let settings = Settings {
        rating: RatingConfig {
            yum_max_latency_ms: 500,
            meh_max_latency_ms: 100,
        },
        ..Settings::default()
    };

    let config = Config {
        settings,
        tests: vec![TestConfig {
            name: "Test".to_string(),
            test_type: "icmp".to_string(),
            target: Some("1.1.1.1".to_string()),
            server: None,
            domain: None,
            url: None,
            address: None,
            port: None,
        }],
    };

    assert!(config.validate().is_err());
}

#[test]
fn empty_test_name_fails_validation() {
    let config = Config {
        settings: Settings::default(),
        tests: vec![TestConfig {
            name: "   ".to_string(),
            test_type: "icmp".to_string(),
            target: Some("1.1.1.1".to_string()),
            server: None,
            domain: None,
            url: None,
            address: None,
            port: None,
        }],
    };

    assert!(config.validate().is_err());
}

#[test]
fn empty_test_type_fails_validation() {
    let config = Config {
        settings: Settings::default(),
        tests: vec![TestConfig {
            name: "Test".to_string(),
            test_type: "   ".to_string(),
            target: Some("1.1.1.1".to_string()),
            server: None,
            domain: None,
            url: None,
            address: None,
            port: None,
        }],
    };

    assert!(config.validate().is_err());
}

#[test]
fn each_validation_error_names_its_cause() {
    let mut config = Config { settings: Settings::default(), tests: Vec::new() };
    assert_eq!(config.validate(), Err(ConfigError::NoTests));

    config.tests.push(icmp_test("Test", "icmp"));
    config.settings.timeout_seconds = 0;
    assert_eq!(config.validate(), Err(ConfigError::ZeroTimeout));

    config.settings.timeout_seconds = 3;
    config.settings.rating.yum_max_latency_ms = 500;
    assert_eq!(config.validate(), Err(ConfigError::RatingThresholdsOutOfOrder));

    config.settings.rating.meh_max_latency_ms = 500;
    assert_eq!(config.validate(), Err(ConfigError::RatingThresholdsOutOfOrder));

    config.settings.rating.yum_max_latency_ms = 100;
    assert_eq!(config.validate(), Ok(()));

    config.tests.push(icmp_test("Other", "\t\n"));
    assert_eq!(
        config.validate(),
        Err(ConfigError::MissingTestType { name: "Other".to_string() })
    );

    config.tests.insert(0, icmp_test("\u{3000}", "icmp"));
    assert_eq!(config.validate(), Err(ConfigError::EmptyTestName));
}

#[test]
fn checks_come_in_order() {
    let mut settings = Settings::default();
    settings.timeout_seconds = 0;
    settings.rating.yum_max_latency_ms = 900;
    let config = Config { settings, tests: Vec::new() };
    assert_eq!(config.validate(), Err(ConfigError::NoTests));
}

#[test]
fn error_messages() {
    assert_eq!(ConfigError::NoTests.message(), "Configuration contains no tests");
    assert_eq!(
        ConfigError::ZeroTimeout.message(),
        "timeout_seconds must be greater than zero"
    );
    assert_eq!(
        ConfigError::RatingThresholdsOutOfOrder.message(),
        "yum_max_latency_ms must be lower than meh_max_latency_ms"
    );
    assert_eq!(ConfigError::EmptyTestName.message(), "A test has an empty name");
    assert_eq!(
        ConfigError::MissingTestType { name: "DNS".to_string() }.message(),
        "Test 'DNS' does not specify a test type"
    );
}

#[test]
fn defaults_are_documented_values() {
    assert_eq!(default_timeout(), 3);
    assert_eq!(default_retries(), 2);
    assert!(default_parallel());
    assert!(default_true());
    assert_eq!(default_yum_latency(), 100);
    assert_eq!(default_meh_latency(), 500);

    let settings = Settings::default();
    assert_eq!(settings.timeout_seconds, 3);
    assert_eq!(settings.retries, 2);
    assert!(settings.parallel);
    assert!(settings.show_statistics);
    assert!(settings.show_failed_tests);
    assert_eq!(settings.rating.yum_max_latency_ms, 100);
    assert_eq!(settings.rating.meh_max_latency_ms, 500);

    let rating = RatingConfig::default();
    assert_eq!(rating.yum_max_latency_ms, 100);
    assert_eq!(rating.meh_max_latency_ms, 500);
}

#[test]
fn builtin_config_lists_three_resolvers_and_is_valid() {
    let config = default_config();
    assert!(config.validate().is_ok());
    let expected = [
        ("Google DNS", "8.8.8.8"),
        ("Cloudflare DNS", "1.1.1.1"),
        ("Quad9 DNS", "9.9.9.9"),
    ];
    assert_eq!(config.tests.len(), 3);
    for (test, (name, target)) in config.tests.iter().zip(expected) {
        assert_eq!(test.name, name);
        assert_eq!(test.test_type, "icmp");
        assert_eq!(test.target.as_deref(), Some(target));
        assert!(test.server.is_none() && test.domain.is_none() && test.url.is_none());
        assert!(test.address.is_none() && test.port.is_none());
    }
}

#[test]
fn load_config_uses_builtin_without_file() {
    let config = load_config(None).unwrap();
    assert_eq!(config.tests.len(), 3);
    assert_eq!(config.tests[0].name, "Google DNS");
}

#[test]
fn load_config_validates_a_file() {
    let valid = Config { settings: Settings::default(), tests: vec![icmp_test("Mine", "tcp")] };
    let loaded = load_config(Some(valid)).unwrap();
    assert_eq!(loaded.tests.len(), 1);
    assert_eq!(loaded.tests[0].name, "Mine");

    let invalid = Config { settings: Settings::default(), tests: Vec::new() };
    assert_eq!(load_config(Some(invalid)).unwrap_err(), ConfigError::NoTests);
}
