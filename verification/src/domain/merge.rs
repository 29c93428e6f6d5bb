//! Last write wins: of two versions of a recipe the one with the later `updated_at` is kept.

use crate::clock::{now_timestamp, LAST_TIMESTAMP};
use crate::domain::error::DomainError;
use vstd::prelude::*;

verus! {

/// The rule by which two versions of a recipe are merged.
pub struct MergePolicy;

/// How far ahead of the clock a timestamp may lie, in seconds.
pub const MAX_FUTURE_SKEW: i64 = 86_400;

/// Whether a version from `remote_ts` replaces one from `local_ts`.
pub open spec fn newer(local_ts: i64, remote_ts: i64) -> bool {
    remote_ts > local_ts
}

/// Whether `ts` is a time that a device whose clock shows `now` can accept.
pub open spec fn sane_timestamp(ts: i64, now: i64) -> bool {
    0 <= ts <= now + MAX_FUTURE_SKEW
}

impl MergePolicy {
    /// Whether `remote_ts` is newer and wins over `local_ts`.
    pub fn remote_wins(local_ts: i64, remote_ts: i64) -> (r: bool)
        ensures
            r == newer(local_ts, remote_ts),
    {
        remote_ts > local_ts
    }

    /// Whether `ts` is sane at the time `now`: not negative, and at most a day ahead.
    pub fn is_valid_timestamp_at(ts: i64, now: i64) -> (r: bool)
        ensures
            r == sane_timestamp(ts, now),
    {
        ts >= 0 && (ts as i128) <= now as i128 + MAX_FUTURE_SKEW as i128
    }

    /// Whether `ts` is sane at this moment.
    ///
    /// The clock decides for the times between a day after its earliest reading and a day after
    /// its latest.
    pub fn is_valid_timestamp(ts: i64) -> (r: bool)
        ensures
            ts < 0 ==> !r,
            0 <= ts <= MAX_FUTURE_SKEW ==> r,
            ts > LAST_TIMESTAMP + MAX_FUTURE_SKEW ==> !r,
            exists|now: i64|
                0 <= now <= LAST_TIMESTAMP && r == #[trigger] sane_timestamp(ts, now),
    {
        let now: i64 = now_timestamp();
        let r = Self::is_valid_timestamp_at(ts, now);
        assert(r == sane_timestamp(ts, now));
        r
    }
}

/// What a merge did.
#[derive(Debug)]
pub struct MergeReport {
    pub upserted: usize,
    pub skipped: usize,
}

impl Default for MergeReport {
    fn default() -> (r: Self)
        ensures
            r.upserted == 0,
            r.skipped == 0,
    {
        MergeReport { upserted: 0, skipped: 0 }
    }
}

impl MergeReport {
    /// Counts a recipe that was taken over.
    pub fn record_upsert(&mut self)
        requires
            old(self).upserted < usize::MAX,
        ensures
            final(self).upserted == old(self).upserted + 1,
            final(self).skipped == old(self).skipped,
    {
        self.upserted += 1;
    }

    /// Counts a recipe that was left as it was.
    pub fn record_skip(&mut self)
        requires
            old(self).skipped < usize::MAX,
        ensures
            final(self).skipped == old(self).skipped + 1,
            final(self).upserted == old(self).upserted,
    {
        self.skipped += 1;
    }
}

/// Accepts every report.
pub fn validate_sync(report: &MergeReport) -> (r: Result<(), DomainError>)
    ensures
        r is Ok,
{
    Ok(())
}

/// Of two versions with different times exactly one wins; of two with the same time the local
/// one stays.
pub proof fn law_one_version_wins(a: i64, b: i64)
    ensures
        !newer(a, a),
        a != b ==> newer(a, b) != newer(b, a),
        newer(a, b) ==> !newer(b, a),
{
}

/// What wins over a version that wins over a third wins over the third.
pub proof fn law_winning_is_transitive(a: i64, b: i64, c: i64)
    requires
        newer(a, b),
        newer(b, c),
    ensures
        newer(a, c),
{
}

/// The later version wins, however close the two are.
pub proof fn law_the_later_version_wins(local_ts: i64, remote_ts: i64)
    ensures
        local_ts < remote_ts <==> newer(local_ts, remote_ts),
{
}

/// A time is sane from zero up to a day ahead of the clock, and at no other time.
pub proof fn law_sane_up_to_a_day_ahead(ts: i64, now: i64)
    ensures
        ts < 0 ==> !sane_timestamp(ts, now),
        0 <= ts && ts - now <= 24 * 60 * 60 ==> sane_timestamp(ts, now),
        ts - now > 24 * 60 * 60 ==> !sane_timestamp(ts, now),
{
}

} // verus!
