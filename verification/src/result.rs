//! The outcome of one connection test, as the report shows it.
use vstd::prelude::*;

use crate::ratings::{rating_text, Rating};

verus! {

/// The outcome of one connection test.
#[derive(Debug, Clone)]
pub struct TestResult {
    pub name: String,
    pub rating: String,
    pub statistics: String,
    pub success: bool,
    pub message: Option<String>,
}

impl TestResult {
    /// A successful test, with no message.
    pub fn success(name: String, rating: String, statistics: String) -> (r: Self)
        ensures
            r.name == name,
            r.rating == rating,
            r.statistics == statistics,
            r.success,
            r.message is None,
    {
        TestResult { name, rating, statistics, success: true, message: None }
    }

    /// A failed test, with a message that says why.
    pub fn failure(name: String, rating: String, statistics: String, message: String) -> (r: Self)
        ensures
            r.name == name,
            r.rating == rating,
            r.statistics == statistics,
            !r.success,
            r.message == Some(message),
    {
        TestResult { name, rating, statistics, success: false, message: Some(message) }
    }

    /// A successful test rated `YUM`.
    pub fn yum(name: String, statistics: String) -> (r: Self)
        ensures
            r.name == name,
            r.rating@ == "YUM"@,
            r.rating@ == rating_text(Rating::Yum),
            r.statistics == statistics,
            r.success,
            r.message is None,
    {
        Self::success(name, String::from_str("YUM"), statistics)
    }

    /// A successful test rated `MEH`.
    pub fn meh(name: String, statistics: String) -> (r: Self)
        ensures
            r.name == name,
            r.rating@ == "MEH"@,
            r.rating@ == rating_text(Rating::Meh),
            r.statistics == statistics,
            r.success,
            r.message is None,
    {
        Self::success(name, String::from_str("MEH"), statistics)
    }

    /// A failed test rated `YUCK`.
    pub fn yuck(name: String, statistics: String, message: String) -> (r: Self)
        ensures
            r.name == name,
            r.rating@ == "YUCK"@,
            r.rating@ == rating_text(Rating::Yuck),
            r.statistics == statistics,
            !r.success,
            r.message == Some(message),
    {
        Self::failure(name, String::from_str("YUCK"), statistics, message)
    }
}

} // verus!
