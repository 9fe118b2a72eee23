//! Time spans, and reading them from text.
use vstd::prelude::*;

use crate::ser::decimal;

verus! {

/// A span of time, counted in nanoseconds.
#[derive(Debug, Clone, Copy, PartialEq, Eq, Structural)]
pub struct Duration {
    pub nanos: u128,
}

impl Duration {
    pub fn from_nanos(n: u64) -> (r: Duration)
        ensures
            r.nanos == n,
    {
        Duration { nanos: n as u128 }
    }

    pub fn from_millis(ms: u64) -> (r: Duration)
        ensures
            r.nanos == ms * 1_000_000,
    {
        Duration { nanos: ms as u128 * 1_000_000 }
    }

    pub fn from_secs(s: u64) -> (r: Duration)
        ensures
            r.nanos == s * 1_000_000_000,
    {
        Duration { nanos: s as u128 * 1_000_000_000 }
    }

    /// Whole milliseconds, rounded down.
    pub fn as_millis(&self) -> (r: u128)
        ensures
            r == self.nanos / 1_000_000,
    {
        self.nanos / 1_000_000
    }

    pub fn as_nanos(&self) -> (r: u128)
        ensures
            r == self.nanos,
    {
        self.nanos
    }
}

/// What `duration_str::parse` makes of `s`, in nanoseconds; `None` where it
/// reports an error.
pub uninterp spec fn duration_nanos_of(s: Seq<char>) -> Option<u128>;

/// `n` milliseconds written as a decimal count with the unit `ms`.
pub open spec fn millis_text(n: nat) -> Seq<char> {
    decimal(n) + "ms"@
}

/// Relies on `duration_str::parse`: its result depends on the text alone, and
/// a decimal count followed by `ms` reads as that many milliseconds when the
/// nanosecond total fits in a `u64`. The crate counts in `u64` nanoseconds,
/// so no result exceeds that.
#[verifier::external_body]
pub(crate) fn parse_duration(s: &str) -> (r: Option<Duration>)
    ensures
        r == match duration_nanos_of(s@) {
            Some(n) => Some(Duration { nanos: n }),
            None => None,
        },
        r matches Some(d) ==> d.nanos <= u64::MAX,
        forall|n: nat|
            s@ == #[trigger] millis_text(n) && n * 1_000_000 <= u64::MAX ==> r == Some(
                Duration { nanos: (n * 1_000_000) as u128 },
            ),
{
    match duration_str::parse(s) {
        Ok(d) => Some(Duration { nanos: d.as_nanos() }),
        Err(_) => None,
    }
}

} // verus!
