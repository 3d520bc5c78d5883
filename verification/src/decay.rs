//! How fast old observations are forgotten.

use vstd::prelude::*;

verus! {

/// How many seconds an hour has.
pub const SECONDS_PER_HOUR: u64 = 3_600;

/// The exponential decay of weights. Histograms and profiles decay alike.
#[derive(Debug, Clone, Copy, PartialEq, Eq, Structural)]
pub struct DecayParams {
    /// The half-life in hours, by its double-precision bits.
    pub half_life_hours: u64,
    /// The length of a bucket in seconds.
    pub bucket_seconds: u64,
}

/// The decay with a half-life in hours, for buckets of so many seconds; a bucket lasts
/// at least one.
pub open spec fn by_hours(half_life_hours: u64, bucket_seconds: u64) -> DecayParams {
    DecayParams {
        half_life_hours,
        bucket_seconds: if bucket_seconds >= 1 {
            bucket_seconds
        } else {
            1
        },
    }
}

impl DecayParams {
    /// The decay with a half-life in hours, given by its bits, for buckets of so many
    /// seconds.
    pub fn from_hours(half_life_hours: u64, bucket_seconds: u64) -> (decay: DecayParams)
        ensures
            decay == by_hours(half_life_hours, bucket_seconds),
    {
        DecayParams {
            half_life_hours,
            bucket_seconds: if bucket_seconds >= 1 {
                bucket_seconds
            } else {
                1
            },
        }
    }

    /// The decay with a half-life in buckets, given by its bits: as many hours, for
    /// buckets of an hour.
    pub fn from_buckets(half_life_buckets: u64) -> (decay: DecayParams)
        ensures
            decay == by_hours(half_life_buckets, SECONDS_PER_HOUR),
    {
        DecayParams::from_hours(half_life_buckets, SECONDS_PER_HOUR)
    }
}

/// The half-life is the one that is set, and so is the length of a bucket, which lasts at
/// least a second.
pub proof fn decay_goes_by_its_settings(half_life_hours: u64, bucket_seconds: u64)
    ensures
        by_hours(half_life_hours, bucket_seconds).half_life_hours == half_life_hours,
        bucket_seconds >= 1 ==> by_hours(half_life_hours, bucket_seconds).bucket_seconds
            == bucket_seconds,
        by_hours(half_life_hours, 0).bucket_seconds == 1,
        SECONDS_PER_HOUR == 3_600,
{
}

/// A half-life in buckets is the same number of hours for buckets of an hour.
pub proof fn a_half_life_in_buckets(buckets: u64, hours: u64, seconds: u64, by_buckets: DecayParams, by_time: DecayParams)
    requires
        call_ensures(DecayParams::from_buckets, (buckets,), by_buckets),
        call_ensures(DecayParams::from_hours, (hours, seconds), by_time),
        seconds >= 1,
    ensures
        by_buckets.half_life_hours == buckets,
        by_buckets.bucket_seconds == 3_600,
        by_time.half_life_hours == hours,
        by_time.bucket_seconds == seconds,
{
}

} // verus!
