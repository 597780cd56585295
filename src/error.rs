//! Errors reported by the library.
use vstd::prelude::*;

verus! {

/// Why a checker could not be built, or why an evaluation was refused.
#[derive(Clone, Debug, PartialEq, Eq)]
pub enum AgentError {
    /// The endpoint address is not a usable URL.
    InvalidUrl(String),
    /// A rule names a bound type that is not one of the four supported ones;
    /// holds the lower-cased name.
    UnsupportedBoundType(String),
    /// A `rate_lower` rule came without a period.
    RateLowerNeedsPeriod,
    /// A `rate_upper` rule came without a period.
    RateUpperNeedsPeriod,
    /// The alerts endpoint answered with a status other than `success`;
    /// holds that status.
    ResponseNotSuccess(String),
}

} // verus!
