use vstd::prelude::*;

use crate::config::RatingConfig;

verus! {

/// How well a connection performed.
#[derive(Debug, Clone, Copy, PartialEq, Eq, Structural)]
pub enum Rating {
    Yum,
    Meh,
    Yuck,
}

/// The text shown for a rating.
pub open spec fn rating_text(rating: Rating) -> Seq<char> {
    match rating {
        Rating::Yum => "YUM"@,
        Rating::Meh => "MEH"@,
        Rating::Yuck => "YUCK"@,
    }
}

/// Ranks ratings from best (0) to worst (2).
pub open spec fn rating_rank(rating: Rating) -> int {
    match rating {
        Rating::Yum => 0,
        Rating::Meh => 1,
        Rating::Yuck => 2,
    }
}

/// The rating of a connection with the given latency, in milliseconds.
pub open spec fn latency_rating(latency_ms: int, config: RatingConfig) -> Rating {
    if latency_ms <= config.yum_max_latency_ms {
        Rating::Yum
    } else if latency_ms <= config.meh_max_latency_ms {
        Rating::Meh
    } else {
        Rating::Yuck
    }
}

impl Rating {
    pub fn as_str(&self) -> (text: &'static str)
        ensures
            text@ == rating_text(*self),
    {
        match self {
            Rating::Yum => "YUM",
            Rating::Meh => "MEH",
            Rating::Yuck => "YUCK",
        }
    }

    /// The rating as an owned string, the same text as `as_str`.
    pub fn to_string(&self) -> (text: String)
        ensures
            text@ == rating_text(*self),
    {
        String::from_str(self.as_str())
    }

    /// Rates a latency against the configured thresholds: at most
    /// `yum_max_latency_ms` is `Yum`, at most `meh_max_latency_ms` is `Meh`,
    /// anything slower is `Yuck`.
    ///
    /// The latency is a whole number of milliseconds. A fractional latency `x`
    /// gets the rating of its ceiling: `x <= t` and `ceil(x) <= t` agree for
    /// every whole threshold `t`.
    pub fn from_latency(latency_ms: u64, config: &RatingConfig) -> (rating: Rating)
        ensures
            rating == latency_rating(latency_ms as int, *config),
            rating == Rating::Yum <==> latency_ms <= config.yum_max_latency_ms,
            rating == Rating::Meh <==> (config.yum_max_latency_ms < latency_ms
                <= config.meh_max_latency_ms),
            rating == Rating::Yuck <==> (latency_ms > config.yum_max_latency_ms && latency_ms
                > config.meh_max_latency_ms),
    {
        proof {
            lemma_latency_rating_thresholds(latency_ms as int, *config);
        }
        if latency_ms <= config.yum_max_latency_ms {
            Rating::Yum
        } else if latency_ms <= config.meh_max_latency_ms {
            Rating::Meh
        } else {
            Rating::Yuck
        }
    }

    /// A connection that only succeeds or fails: `Yum` on success, `Yuck` on
    /// failure.
    pub fn from_success(success: bool) -> (rating: Rating)
        ensures
            rating == (if success { Rating::Yum } else { Rating::Yuck }),
    {
        if success {
            Rating::Yum
        } else {
            Rating::Yuck
        }
    }
}

/// A latency within the `Yum` threshold rates `Yum`; one above it but
/// within the `Meh` threshold rates `Meh`; one above both thresholds rates
/// `Yuck`.
pub proof fn lemma_latency_rating_thresholds(latency_ms: int, config: RatingConfig)
    ensures
        latency_rating(latency_ms, config) == Rating::Yum <==> latency_ms
            <= config.yum_max_latency_ms,
        latency_rating(latency_ms, config) == Rating::Meh <==> (config.yum_max_latency_ms
            < latency_ms <= config.meh_max_latency_ms),
        latency_rating(latency_ms, config) == Rating::Yuck <==> (latency_ms
            > config.yum_max_latency_ms && latency_ms > config.meh_max_latency_ms),
{
}

/// A slower connection never gets a better rating than a faster one.
pub proof fn lemma_latency_rating_monotonic(faster_ms: int, slower_ms: int, config: RatingConfig)
    requires
        faster_ms <= slower_ms,
    ensures
        rating_rank(latency_rating(faster_ms, config)) <= rating_rank(
            latency_rating(slower_ms, config),
        ),
{
}

} // verus!
