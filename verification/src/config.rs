//! The tool's configuration: global settings, rating thresholds and the list
//! of connection tests, with their defaults and their validation.
use vstd::prelude::*;

use crate::text::{is_blank, is_blank_text, lemma_not_blank};

verus! {

/// The whole configuration.
#[derive(Debug, Clone)]
pub struct Config {
    pub settings: Settings,
    pub tests: Vec<TestConfig>,
}

/// Global settings.
#[derive(Debug, Clone)]
pub struct Settings {
    pub timeout_seconds: u64,
    pub retries: u32,
    pub parallel: bool,
    pub show_statistics: bool,
    pub show_failed_tests: bool,
    pub rating: RatingConfig,
}

/// Latency thresholds, in milliseconds, of the `Yum` and `Meh` ratings.
#[derive(Debug, Clone)]
pub struct RatingConfig {
    pub yum_max_latency_ms: u64,
    pub meh_max_latency_ms: u64,
}

/// One connection test.
#[derive(Debug, Clone)]
pub struct TestConfig {
    pub name: String,
    pub test_type: String,
    pub target: Option<String>,
    pub server: Option<String>,
    pub domain: Option<String>,
    pub url: Option<String>,
    pub address: Option<String>,
    pub port: Option<u16>,
}

/// Why a configuration is refused.
#[derive(Debug, Clone, PartialEq, Eq)]
pub enum ConfigError {
    /// The configuration lists no test.
    NoTests,
    /// `timeout_seconds` is zero.
    ZeroTimeout,
    /// `yum_max_latency_ms` is not below `meh_max_latency_ms`.
    RatingThresholdsOutOfOrder,
    /// A test's name is empty or only white space.
    EmptyTestName,
    /// The named test's type is empty or only white space.
    MissingTestType { name: String },
}

pub open spec fn default_rating_config() -> RatingConfig {
    RatingConfig { yum_max_latency_ms: 100, meh_max_latency_ms: 500 }
}

pub open spec fn default_settings() -> Settings {
    Settings {
        timeout_seconds: 3,
        retries: 2,
        parallel: true,
        show_statistics: true,
        show_failed_tests: true,
        rating: default_rating_config(),
    }
}

/// The default of `timeout_seconds`.
pub fn default_timeout() -> (r: u64)
    ensures
        r == default_settings().timeout_seconds,
{
    3
}

/// The default of `retries`.
pub fn default_retries() -> (r: u32)
    ensures
        r == default_settings().retries,
{
    2
}

/// The default of `parallel`.
pub fn default_parallel() -> (r: bool)
    ensures
        r == default_settings().parallel,
{
    true
}

/// The default of `show_statistics` and `show_failed_tests`.
pub fn default_true() -> (r: bool)
    ensures
        r,
{
    true
}

/// The default of `yum_max_latency_ms`.
pub fn default_yum_latency() -> (r: u64)
    ensures
        r == default_rating_config().yum_max_latency_ms,
{
    100
}

/// The default of `meh_max_latency_ms`.
pub fn default_meh_latency() -> (r: u64)
    ensures
        r == default_rating_config().meh_max_latency_ms,
{
    500
}

impl Default for RatingConfig {
    fn default() -> (r: Self)
        ensures
            r == default_rating_config(),
    {
        RatingConfig {
            yum_max_latency_ms: default_yum_latency(),
            meh_max_latency_ms: default_meh_latency(),
        }
    }
}

impl Default for Settings {
    fn default() -> (r: Self)
        ensures
            r == default_settings(),
    {
        Settings {
            timeout_seconds: default_timeout(),
            retries: default_retries(),
            parallel: default_parallel(),
            show_statistics: true,
            show_failed_tests: true,
            rating: RatingConfig::default(),
        }
    }
}

/// What is wrong with one test's entry, if anything.
pub open spec fn entry_error(test: TestConfig) -> Option<ConfigError> {
    if is_blank_text(test.name@) {
        Some(ConfigError::EmptyTestName)
    } else if is_blank_text(test.test_type@) {
        Some(ConfigError::MissingTestType { name: test.name })
    } else {
        None
    }
}

/// What is wrong with the first faulty entry of a list of tests, if any.
pub open spec fn first_entry_error(tests: Seq<TestConfig>) -> Option<ConfigError>
    decreases tests.len(),
{
    if tests.len() == 0 {
        None
    } else {
        match entry_error(tests[0]) {
            Some(e) => Some(e),
            None => first_entry_error(tests.drop_first()),
        }
    }
}

/// The outcome of validating a configuration: the first of its checks that
/// fails, in the order the tool makes them, or success.
pub open spec fn validation_result(config: Config) -> Result<(), ConfigError> {
    if config.tests@.len() == 0 {
        Err(ConfigError::NoTests)
    } else if config.settings.timeout_seconds == 0 {
        Err(ConfigError::ZeroTimeout)
    } else if config.settings.rating.yum_max_latency_ms
        >= config.settings.rating.meh_max_latency_ms {
        Err(ConfigError::RatingThresholdsOutOfOrder)
    } else {
        match first_entry_error(config.tests@) {
            Some(e) => Err(e),
            None => Ok(()),
        }
    }
}

/// Whether a test has a name and a type that are not blank.
pub open spec fn entry_complete(test: TestConfig) -> bool {
    !is_blank_text(test.name@) && !is_blank_text(test.test_type@)
}

/// There is no faulty entry exactly when every test has a name and a type
/// that are not blank.
pub proof fn lemma_no_entry_error_iff_complete(tests: Seq<TestConfig>)
    ensures
        first_entry_error(tests) is None <==> forall|i: int|
            0 <= i < tests.len() ==> entry_complete(#[trigger] tests[i]),
    decreases tests.len(),
{
    if tests.len() > 0 {
        let rest = tests.drop_first();
        lemma_no_entry_error_iff_complete(rest);
        if entry_complete(tests[0]) {
            if forall|i: int| 0 <= i < rest.len() ==> entry_complete(#[trigger] rest[i]) {
                assert forall|i: int| 0 <= i < tests.len() implies entry_complete(
                    #[trigger] tests[i],
                ) by {
                    if i > 0 {
                        assert(tests[i] == rest[i - 1]);
                    }
                }
            } else {
                let k = choose|k: int| 0 <= k < rest.len() && !entry_complete(#[trigger] rest[k]);
                assert(tests[k + 1] == rest[k]);
            }
        }
    }
}

/// An empty-name error comes from a test with a blank name, every test
/// before it being complete.
pub proof fn lemma_empty_name_error_source(tests: Seq<TestConfig>)
    requires
        first_entry_error(tests) == Some(ConfigError::EmptyTestName),
    ensures
        exists|i: int|
            0 <= i < tests.len() && is_blank_text((#[trigger] tests[i]).name@) && forall|j: int|
                0 <= j < i ==> entry_complete(#[trigger] tests[j]),
    decreases tests.len(),
{
    let rest = tests.drop_first();
    if entry_complete(tests[0]) {
        lemma_empty_name_error_source(rest);
        let i = choose|i: int|
            0 <= i < rest.len() && is_blank_text((#[trigger] rest[i]).name@) && forall|j: int|
                0 <= j < i ==> entry_complete(#[trigger] rest[j]);
        assert(tests[i + 1] == rest[i]);
        assert forall|j: int| 0 <= j < i + 1 implies entry_complete(#[trigger] tests[j]) by {
            if j > 0 {
                assert(tests[j] == rest[j - 1]);
            }
        }
    } else {
        assert(is_blank_text(tests[0].name@));
    }
}

/// A missing-type error names a test whose name is not blank but whose
/// type is, every test before it being complete.
pub proof fn lemma_missing_type_error_source(tests: Seq<TestConfig>, name: String)
    requires
        first_entry_error(tests) == Some(ConfigError::MissingTestType { name }),
    ensures
        exists|i: int|
            0 <= i < tests.len() && !is_blank_text((#[trigger] tests[i]).name@) && is_blank_text(
                tests[i].test_type@,
            ) && name == tests[i].name && forall|j: int|
                0 <= j < i ==> entry_complete(#[trigger] tests[j]),
    decreases tests.len(),
{
    let rest = tests.drop_first();
    if entry_complete(tests[0]) {
        lemma_missing_type_error_source(rest, name);
        let i = choose|i: int|
            0 <= i < rest.len() && !is_blank_text((#[trigger] rest[i]).name@) && is_blank_text(
                rest[i].test_type@,
            ) && name == rest[i].name && forall|j: int|
                0 <= j < i ==> entry_complete(#[trigger] rest[j]);
        assert(tests[i + 1] == rest[i]);
        assert forall|j: int| 0 <= j < i + 1 implies entry_complete(#[trigger] tests[j]) by {
            if j > 0 {
                assert(tests[j] == rest[j - 1]);
            }
        }
    } else {
        assert(!is_blank_text(tests[0].name@));
    }
}

impl Config {
    /// Checks the configuration: it must list a test, have a nonzero
    /// timeout, a `Yum` threshold below the `Meh` one, and give every test
    /// a name and a type that are not blank.
    pub fn validate(&self) -> (r: Result<(), ConfigError>)
        ensures
            r == validation_result(*self),
            r is Ok <==> {
                &&& self.tests@.len() > 0
                &&& self.settings.timeout_seconds > 0
                &&& self.settings.rating.yum_max_latency_ms
                    < self.settings.rating.meh_max_latency_ms
                &&& forall|i: int|
                    0 <= i < self.tests@.len() ==> !is_blank_text((#[trigger] self.tests@[i]).name@)
                        && !is_blank_text(self.tests@[i].test_type@)
            },
            r is Ok ==> forall|i: int|
                0 <= i < self.tests@.len() ==> entry_complete(#[trigger] self.tests@[i]),
            r == Err::<(), ConfigError>(ConfigError::NoTests) <==> self.tests@.len() == 0,
            r == Err::<(), ConfigError>(ConfigError::ZeroTimeout) <==> (self.tests@.len() > 0
                && self.settings.timeout_seconds == 0),
            r == Err::<(), ConfigError>(ConfigError::RatingThresholdsOutOfOrder) <==> (
            self.tests@.len() > 0 && self.settings.timeout_seconds > 0
                && self.settings.rating.yum_max_latency_ms
                >= self.settings.rating.meh_max_latency_ms),
            r == Err::<(), ConfigError>(ConfigError::EmptyTestName) ==> exists|i: int|
                0 <= i < self.tests@.len() && is_blank_text((#[trigger] self.tests@[i]).name@),
            r matches Err(ConfigError::MissingTestType { name }) ==> exists|i: int|
                0 <= i < self.tests@.len() && is_blank_text((#[trigger] self.tests@[i]).test_type@)
                    && name == self.tests@[i].name,
    {
        proof {
            lemma_no_entry_error_iff_complete(self.tests@);
            if let Some(e) = first_entry_error(self.tests@) {
                match e {
                    ConfigError::EmptyTestName => lemma_empty_name_error_source(self.tests@),
                    ConfigError::MissingTestType { name } => lemma_missing_type_error_source(
                        self.tests@,
                        name,
                    ),
                    _ => {},
                }
            }
        }
        if self.tests.len() == 0 {
            return Err(ConfigError::NoTests);
        }
        if self.settings.timeout_seconds == 0 {
            return Err(ConfigError::ZeroTimeout);
        }
        if self.settings.rating.yum_max_latency_ms >= self.settings.rating.meh_max_latency_ms {
            return Err(ConfigError::RatingThresholdsOutOfOrder);
        }
        let mut i: usize = 0;
        assert(self.tests@.skip(0) =~= self.tests@);
        while i < self.tests.len()
            invariant
                i <= self.tests@.len(),
                self.tests@.len() > 0,
                self.settings.timeout_seconds != 0,
                self.settings.rating.yum_max_latency_ms < self.settings.rating.meh_max_latency_ms,
                first_entry_error(self.tests@) == first_entry_error(self.tests@.skip(i as int)),
            decreases self.tests.len() - i,
        {
            let test = &self.tests[i];
            proof {
                let rest = self.tests@.skip(i as int);
                assert(rest[0] == self.tests@[i as int]);
                assert(rest.drop_first() =~= self.tests@.skip(i + 1));
            }
            if is_blank(test.name.as_str()) {
                return Err(ConfigError::EmptyTestName);
            }
            if is_blank(test.test_type.as_str()) {
                return Err(ConfigError::MissingTestType { name: test.name.clone() });
            }
            i = i + 1;
        }
        assert(self.tests@.skip(i as int).len() == 0);
        Ok(())
    }
}

impl ConfigError {
    /// The message shown for the error.
    pub fn message(&self) -> (text: String)
        ensures
            text@ == config_error_message(*self),
    {
        match self {
            ConfigError::NoTests => String::from_str("Configuration contains no tests"),
            ConfigError::ZeroTimeout => String::from_str(
                "timeout_seconds must be greater than zero",
            ),
            ConfigError::RatingThresholdsOutOfOrder => String::from_str(
                "yum_max_latency_ms must be lower than meh_max_latency_ms",
            ),
            ConfigError::EmptyTestName => String::from_str("A test has an empty name"),
            ConfigError::MissingTestType { name } => {
                let mut text = String::from_str("Test '");
                text.append(name.as_str());
                text.append("' does not specify a test type");
                text
            },
        }
    }
}

/// The message of each configuration error.
pub open spec fn config_error_message(e: ConfigError) -> Seq<char> {
    match e {
        ConfigError::NoTests => "Configuration contains no tests"@,
        ConfigError::ZeroTimeout => "timeout_seconds must be greater than zero"@,
        ConfigError::RatingThresholdsOutOfOrder =>
            "yum_max_latency_ms must be lower than meh_max_latency_ms"@,
        ConfigError::EmptyTestName => "A test has an empty name"@,
        ConfigError::MissingTestType { name } => "Test '"@ + name@
            + "' does not specify a test type"@,
    }
}

/// Whether a test entry is the built-in ICMP test of the given name and
/// target, with no other field set.
pub open spec fn is_builtin_icmp_test(test: TestConfig, name: Seq<char>, target: Seq<char>) -> bool {
    &&& test.name@ == name
    &&& test.test_type@ == "icmp"@
    &&& test.target matches Some(t) && t@ == target
    &&& test.server is None
    &&& test.domain is None
    &&& test.url is None
    &&& test.address is None
    &&& test.port is None
}

/// Whether a configuration is the built-in one: default settings and ICMP
/// tests of three public DNS resolvers.
pub open spec fn is_builtin_config(config: Config) -> bool {
    &&& config.settings == default_settings()
    &&& config.tests@.len() == 3
    &&& is_builtin_icmp_test(config.tests@[0], "Google DNS"@, "8.8.8.8"@)
    &&& is_builtin_icmp_test(config.tests@[1], "Cloudflare DNS"@, "1.1.1.1"@)
    &&& is_builtin_icmp_test(config.tests@[2], "Quad9 DNS"@, "9.9.9.9"@)
}

fn builtin_icmp_test(name: &str, target: &str) -> (test: TestConfig)
    ensures
        is_builtin_icmp_test(test, name@, target@),
{
    TestConfig {
        name: String::from_str(name),
        test_type: String::from_str("icmp"),
        target: Some(String::from_str(target)),
        server: None,
        domain: None,
        url: None,
        address: None,
        port: None,
    }
}

/// The configuration used when no configuration file exists.
pub fn default_config() -> (config: Config)
    ensures
        is_builtin_config(config),
{
    let mut tests: Vec<TestConfig> = Vec::new();
    tests.push(builtin_icmp_test("Google DNS", "8.8.8.8"));
    tests.push(builtin_icmp_test("Cloudflare DNS", "1.1.1.1"));
    tests.push(builtin_icmp_test("Quad9 DNS", "9.9.9.9"));
    Config { settings: Settings::default(), tests }
}

/// The configuration the tool runs with: the one read from a configuration
/// file, once it passes validation, or the built-in one when there is no
/// file to read.
pub fn load_config(from_file: Option<Config>) -> (r: Result<Config, ConfigError>)
    ensures
        from_file is None ==> (r matches Ok(c) && is_builtin_config(c)),
        from_file matches Some(c) ==> match validation_result(c) {
            Ok(_) => r == Ok::<Config, ConfigError>(c),
            Err(e) => r == Err::<Config, ConfigError>(e),
        },
        from_file matches Some(c) ==> (r is Ok <==> {
            &&& c.tests@.len() > 0
            &&& c.settings.timeout_seconds > 0
            &&& c.settings.rating.yum_max_latency_ms < c.settings.rating.meh_max_latency_ms
            &&& forall|i: int| 0 <= i < c.tests@.len() ==> entry_complete(#[trigger] c.tests@[i])
        }),
        from_file matches Some(c) ==> (r is Ok ==> r == Ok::<Config, ConfigError>(c)),
{
    match from_file {
        Some(config) => match config.validate() {
            Ok(()) => Ok(config),
            Err(e) => Err(e),
        },
        None => Ok(default_config()),
    }
}

/// The built-in configuration passes validation.
pub proof fn lemma_builtin_config_is_valid(config: Config)
    requires
        is_builtin_config(config),
    ensures
        validation_result(config) is Ok,
{
    reveal_strlit("Google DNS");
    reveal_strlit("Cloudflare DNS");
    reveal_strlit("Quad9 DNS");
    reveal_strlit("icmp");
    let tests = config.tests@;
    lemma_not_blank(tests[0].name@, 0);
    lemma_not_blank(tests[1].name@, 0);
    lemma_not_blank(tests[2].name@, 0);
    lemma_not_blank(tests[0].test_type@, 0);
    lemma_not_blank(tests[1].test_type@, 0);
    lemma_not_blank(tests[2].test_type@, 0);
    let t1 = tests.drop_first();
    let t2 = t1.drop_first();
    let t3 = t2.drop_first();
    assert(t1[0] == tests[1]);
    assert(t2[0] == tests[2]);
    assert(t3.len() == 0);
    assert(first_entry_error(t3) is None);
    assert(first_entry_error(t2) is None);
    assert(first_entry_error(t1) is None);
    assert(first_entry_error(tests) is None);
}

} // verus!
