//! Running the configured connection tests.
use vstd::prelude::*;

use crate::config::{Config, Settings, TestConfig};
use crate::output::{lemma_all_failed_rates_yuck, overall};
use crate::ratings::Rating;
use crate::result::TestResult;
use crate::text::{lowercase, text_equals, to_lowercase};

verus! {

/// The label of a test type whose tester is still pending, if the type is
/// one of those.
pub open spec fn pending_tester_label(kind: Seq<char>) -> Option<Seq<char>> {
    if kind == "dns"@ {
        Some("DNS tester not yet implemented"@)
    } else if kind == "http"@ {
        Some("HTTP tester not yet implemented"@)
    } else if kind == "https"@ {
        Some("HTTPS tester not yet implemented"@)
    } else if kind == "tcp"@ {
        Some("TCP tester not yet implemented"@)
    } else if kind == "udp"@ {
        Some("UDP tester not yet implemented"@)
    } else if kind == "tls"@ {
        Some("TLS tester not yet implemented"@)
    } else if kind == "tor"@ {
        Some("Tor tester not yet implemented"@)
    } else if kind == "onion"@ {
        Some("Onion-service tester not yet implemented"@)
    } else if kind == "i2p"@ {
        Some("I2P tester not yet implemented"@)
    } else {
        None
    }
}

/// The statistics text and the message of an ICMP test's result: it needs a
/// target, and its tester is still pending.
pub open spec fn icmp_texts(target: Option<String>) -> (Seq<char>, Seq<char>) {
    match target {
        None => ("No target"@, "missing target"@),
        Some(target) => ("ICMP target: "@ + target@ + " | tester pending"@, "not yet implemented"@),
    }
}

/// The statistics text and the message of a test's result, given its type
/// in lower case.
pub open spec fn kind_texts(test: TestConfig, kind: Seq<char>) -> (Seq<char>, Seq<char>) {
    if kind == "icmp"@ {
        icmp_texts(test.target)
    } else {
        match pending_tester_label(kind) {
            Some(label) => (label, "pending"@),
            None => ("Unknown"@, "Unsupported test type: "@ + kind),
        }
    }
}

/// The statistics text and the message of a test's result. The test type is
/// matched without regard to case.
pub open spec fn outcome_texts(test: TestConfig) -> (Seq<char>, Seq<char>) {
    kind_texts(test, lowercase(test.test_type@))
}

/// Whether a result is a failure rated `YUCK` under the test's name, with
/// the given statistics text and message.
pub open spec fn is_failure_of(result: TestResult, test: TestConfig, texts: (Seq<char>, Seq<char>)) -> bool {
    &&& result.name == test.name
    &&& result.rating@ == "YUCK"@
    &&& !result.success
    &&& result.statistics@ == texts.0
    &&& result.message matches Some(m) && m@ == texts.1
}

/// Whether a result is the one the tool reports for a test: the test's
/// name, rated `YUCK`, failed, with the statistics and message of
/// `outcome_texts`.
pub open spec fn is_outcome_of(result: TestResult, test: TestConfig) -> bool {
    is_failure_of(result, test, outcome_texts(test))
}

/// Runs every configured test.
pub struct Runner {
    config: Config,
}

impl Runner {
    /// The configuration the runner works through.
    pub closed spec fn configuration(&self) -> Config {
        self.config
    }

    pub fn new(config: Config) -> (runner: Self)
        ensures
            runner.configuration() == config,
    {
        Runner { config }
    }

    /// Runs the tests one after another and returns their results in the
    /// order of the configuration. Each result depends on its test alone, so
    /// running the tests side by side gives the same list.
    pub fn run(&self) -> (results: Vec<TestResult>)
        ensures
            results@.len() == self.configuration().tests@.len(),
            forall|i: int|
                0 <= i < results@.len() ==> is_outcome_of(
                    #[trigger] results@[i],
                    self.configuration().tests@[i],
                ),
            forall|i: int|
                0 <= i < results@.len() ==> {
                    &&& (#[trigger] results@[i]).name == self.configuration().tests@[i].name
                    &&& !results@[i].success
                    &&& results@[i].rating@ == "YUCK"@
                    &&& results@[i].message is Some
                },
    {
        let mut results: Vec<TestResult> = Vec::new();
        let mut i: usize = 0;
        while i < self.config.tests.len()
            invariant
                i <= self.config.tests@.len(),
                results@.len() == i,
                forall|k: int|
                    0 <= k < i ==> is_outcome_of(#[trigger] results@[k], self.config.tests@[k]),
            decreases self.config.tests.len() - i,
        {
            let result = self.run_test(&self.config.tests[i]);
            results.push(result);
            i = i + 1;
        }
        results
    }

    fn run_test(&self, test: &TestConfig) -> (result: TestResult)
        ensures
            is_outcome_of(result, *test),
    {
        run_single_test(&self.config.settings, test)
    }
}

/// Runs one test. Every tester is still pending, so the result is always a
/// failure that says which tester the test would need.
pub fn run_single_test(settings: &Settings, test: &TestConfig) -> (result: TestResult)
    ensures
        is_outcome_of(result, *test),
        result.name == test.name,
        !result.success,
        result.rating@ == "YUCK"@,
        result.message is Some,
{
    let kind = to_lowercase(test.test_type.as_str());
    outcome_for_kind(settings, test, kind.as_str())
}

/// The result of a test whose type, in lower case, is `kind`: the ICMP
/// placeholder, a pending tester's label, or an unsupported type.
pub fn outcome_for_kind(settings: &Settings, test: &TestConfig, kind: &str) -> (result: TestResult)
    ensures
        is_failure_of(result, *test, kind_texts(*test, kind@)),
        result.name == test.name,
        !result.success,
        result.rating@ == "YUCK"@,
        result.message is Some,
        kind@ == "icmp"@ && test.target is None ==> result.statistics@ == "No target"@,
        kind@ == "icmp"@ && test.target is Some ==> result.statistics@ == "ICMP target: "@
            + test.target.unwrap()@ + " | tester pending"@,
        kind@ != "icmp"@ && pending_tester_label(kind@) is None ==> result.message.unwrap()@
            == "Unsupported test type: "@ + kind@,
{
    if text_equals(kind, "icmp") {
        return run_icmp_placeholder(settings, test);
    }
    let label: Option<&str> = if text_equals(kind, "dns") {
        Some("DNS tester not yet implemented")
    } else if text_equals(kind, "http") {
        Some("HTTP tester not yet implemented")
    } else if text_equals(kind, "https") {
        Some("HTTPS tester not yet implemented")
    } else if text_equals(kind, "tcp") {
        Some("TCP tester not yet implemented")
    } else if text_equals(kind, "udp") {
        Some("UDP tester not yet implemented")
    } else if text_equals(kind, "tls") {
        Some("TLS tester not yet implemented")
    } else if text_equals(kind, "tor") {
        Some("Tor tester not yet implemented")
    } else if text_equals(kind, "onion") {
        Some("Onion-service tester not yet implemented")
    } else if text_equals(kind, "i2p") {
        Some("I2P tester not yet implemented")
    } else {
        None
    };
    match label {
        Some(label) => TestResult::yuck(
            test.name.clone(),
            String::from_str(label),
            String::from_str("pending"),
        ),
        None => {
            let mut message = String::from_str("Unsupported test type: ");
            message.append(kind);
            TestResult::yuck(test.name.clone(), String::from_str("Unknown"), message)
        },
    }
}

/// The ICMP test's result, whatever the test's type: a failure that names
/// the target, or says it is missing, since the ICMP tester is pending.
fn run_icmp_placeholder(settings: &Settings, test: &TestConfig) -> (result: TestResult)
    ensures
        is_failure_of(result, *test, icmp_texts(test.target)),
{
    match &test.target {
        None => TestResult::yuck(
            test.name.clone(),
            String::from_str("No target"),
            String::from_str("missing target"),
        ),
        Some(target) => {
            let mut statistics = String::from_str("ICMP target: ");
            statistics.append(target.as_str());
            statistics.append(" | tester pending");
            TestResult::yuck(
                test.name.clone(),
                statistics,
                String::from_str("not yet implemented"),
            )
        },
    }
}

/// While every tester is pending, a run of at least one test rates `Yuck`
/// overall.
pub proof fn lemma_pending_run_rates_yuck(results: Seq<TestResult>, tests: Seq<TestConfig>)
    requires
        results.len() == tests.len(),
        tests.len() > 0,
        forall|i: int| 0 <= i < results.len() ==> is_outcome_of(#[trigger] results[i], tests[i]),
    ensures
        overall(results) == Some(Rating::Yuck),
{
    assert forall|i: int| 0 <= i < results.len() implies !(#[trigger] results[i]).success by {
        assert(is_outcome_of(results[i], tests[i]));
    }
    lemma_all_failed_rates_yuck(results);
}

} // verus!
