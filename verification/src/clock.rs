//! The wall clock, read through chrono.
use vstd::prelude::*;

verus! {

/// `chrono::Utc::now().timestamp()`: the current Unix time in seconds.
/// chrono panics rather than return a time before the Unix epoch or past its
/// supported range (the year 262142), so every returned value lies in
/// `0..=10^13`; nothing else is stated.
#[verifier::external_body]
pub(crate) fn now() -> (t: i64)
    ensures
        0 <= t <= 10_000_000_000_000,
{
    chrono::Utc::now().timestamp()
}

} // verus!
