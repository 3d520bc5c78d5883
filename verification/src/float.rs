//! Floating-point numbers by their bits.
//!
//! The library stores, moves and compares such numbers, but does not compute
//! with them: what has to be computed is asked of a function that the caller
//! hands in.

use vstd::prelude::*;

use crate::decay::DecayParams;

verus! {

/// Something to be computed. Single-precision numbers are given by their bits in
/// a `u32`, double-precision numbers by their bits in a `u64`.
pub enum FloatOp {
    /// The single-precision weight after `elapsed` buckets of decay: half of it for
    /// every half-life, which lasts at least one bucket.
    Decay {
        /// The weight before.
        weight: u32,
        /// The number of buckets.
        elapsed: u64,
        /// The half-life and the length of a bucket.
        decay: DecayParams,
    },
    /// The single-precision weight plus one.
    Increment {
        /// The weight before.
        weight: u32,
    },
    /// The double-precision total plus a single-precision weight.
    Accumulate {
        /// The total before.
        total: u64,
        /// The weight to add.
        weight: u32,
    },
    /// How a double-precision sum compares with half of a total: 0 if it is
    /// smaller, 1 if it is that half but for rounding, 2 if it is larger.
    ReachesHalf {
        /// The sum.
        cumulative: u64,
        /// The total.
        total: u64,
    },
    /// A double-precision threshold times a factor, which counts as zero if it is
    /// smaller and as one if it is larger.
    ExitThreshold {
        /// The threshold.
        threshold: u64,
        /// The factor.
        factor: u64,
    },
    /// The double-precision Shannon entropy, in bits, of a distribution.
    Entropy {
        /// How often each kind occurs.
        counts: Vec<u64>,
    },
    /// How far a double-precision entropy is from those of the last buckets.
    EntropyZ {
        /// The entropy.
        entropy: u64,
        /// The entropies of the last buckets.
        history: Vec<u64>,
    },
    /// How many events come in a second, in double precision, if so many come in so
    /// many milliseconds.
    PerSecond {
        /// How many events.
        events: u64,
        /// In how many milliseconds.
        interval_ms: u64,
    },
}

/// Computes with floating-point numbers.
pub struct FloatUnit<F: Fn(FloatOp) -> u64> {
    /// The function that computes; where the result is a single-precision number,
    /// its bits are the lower half of what it returns.
    pub eval: F,
}

impl<F: Fn(FloatOp) -> u64> FloatUnit<F> {
    /// Whether everything can be asked.
    pub open spec fn is_total(&self) -> bool {
        forall|op: FloatOp| #[trigger] call_requires(self.eval, (op,))
    }

    /// Whether whatever is asked is answered as the model says.
    pub open spec fn computes(&self, model: spec_fn(FloatOp) -> u64) -> bool {
        forall|op: FloatOp, result: u64| #[trigger]
            call_ensures(self.eval, (op,), result) ==> result == model(op)
    }

    /// Asks for a result.
    pub fn run(&self, op: FloatOp) -> (result: u64)
        requires
            self.is_total(),
        ensures
            call_ensures(self.eval, (op,), result),
            forall|model: spec_fn(FloatOp) -> u64| #[trigger]
                self.computes(model) ==> result == model(op),
    {
        let eval = &self.eval;
        eval(op)
    }
}

/// The bits of the single-precision number 1.
pub const ONE_WEIGHT: u32 = 0x3f80_0000;

/// The bits of the single-precision number 0.001. A smaller weight is forgotten.
pub const NEGLIGIBLE_WEIGHT: u32 = 0x3a83_126f;

/// The bits of the double-precision number 0.
pub const ZERO_TOTAL: u64 = 0;

/// The number without its sign, as its bits.
pub open spec fn magnitude32(bits: u32) -> int {
    if bits >= 0x8000_0000 {
        bits - 0x8000_0000
    } else {
        bits as int
    }
}

/// Whether single-precision bits stand for no number.
pub open spec fn is_nan32(bits: u32) -> bool {
    magnitude32(bits) > 0x7f80_0000
}

/// Where a single-precision number stands among the others; both zeros stand at
/// the same place.
pub open spec fn rank32(bits: u32) -> int {
    if bits >= 0x8000_0000 {
        -magnitude32(bits)
    } else {
        magnitude32(bits)
    }
}

/// Whether the first of two single-precision numbers is at least the second.
pub open spec fn at_least32(a: u32, b: u32) -> bool {
    !is_nan32(a) && !is_nan32(b) && rank32(a) >= rank32(b)
}

/// Where single-precision bits stand in the total order of IEEE 754.
pub open spec fn total_rank32(bits: u32) -> int {
    if bits >= 0x8000_0000 {
        -magnitude32(bits) - 1
    } else {
        magnitude32(bits)
    }
}

/// The number without its sign, as its bits.
pub open spec fn magnitude64(bits: u64) -> int {
    if bits >= 0x8000_0000_0000_0000 {
        bits - 0x8000_0000_0000_0000
    } else {
        bits as int
    }
}

/// Whether double-precision bits stand for no number.
pub open spec fn is_nan64(bits: u64) -> bool {
    magnitude64(bits) > 0x7ff0_0000_0000_0000
}

/// Where a double-precision number stands among the others; both zeros stand at
/// the same place.
pub open spec fn rank64(bits: u64) -> int {
    if bits >= 0x8000_0000_0000_0000 {
        -magnitude64(bits)
    } else {
        magnitude64(bits)
    }
}

/// Whether the first of two double-precision numbers is at least the second.
pub open spec fn at_least64(a: u64, b: u64) -> bool {
    !is_nan64(a) && !is_nan64(b) && rank64(a) >= rank64(b)
}

/// Where double-precision bits stand in the total order of IEEE 754.
pub open spec fn total_rank64(bits: u64) -> int {
    if bits >= 0x8000_0000_0000_0000 {
        -magnitude64(bits) - 1
    } else {
        magnitude64(bits)
    }
}

/// Computes where single-precision bits stand in the total order.
pub fn total_order32(bits: u32) -> (rank: i64)
    ensures
        rank == total_rank32(bits),
{
    if bits >= 0x8000_0000 {
        -((bits - 0x8000_0000) as i64) - 1
    } else {
        bits as i64
    }
}

/// Computes where double-precision bits stand in the total order.
pub fn total_order64(bits: u64) -> (rank: i128)
    ensures
        rank == total_rank64(bits),
{
    if bits >= 0x8000_0000_0000_0000 {
        -((bits - 0x8000_0000_0000_0000) as i128) - 1
    } else {
        bits as i128
    }
}

/// Compares two single-precision numbers.
pub fn is_at_least32(a: u32, b: u32) -> (at_least: bool)
    ensures
        at_least == at_least32(a, b),
{
    let left: i64 = if a >= 0x8000_0000 {
        -((a - 0x8000_0000) as i64)
    } else {
        a as i64
    };
    let right: i64 = if b >= 0x8000_0000 {
        -((b - 0x8000_0000) as i64)
    } else {
        b as i64
    };
    -0x7f80_0000 <= left && left <= 0x7f80_0000 && -0x7f80_0000 <= right && right <= 0x7f80_0000
        && left >= right
}

/// Compares two double-precision numbers.
pub fn is_at_least64(a: u64, b: u64) -> (at_least: bool)
    ensures
        at_least == at_least64(a, b),
{
    let left: i128 = if a >= 0x8000_0000_0000_0000 {
        -((a - 0x8000_0000_0000_0000) as i128)
    } else {
        a as i128
    };
    let right: i128 = if b >= 0x8000_0000_0000_0000 {
        -((b - 0x8000_0000_0000_0000) as i128)
    } else {
        b as i128
    };
    let limit: i128 = 0x7ff0_0000_0000_0000;
    -limit <= left && left <= limit && -limit <= right && right <= limit && left >= right
}

/// Numbers that are not negative compare as their bits do, infinity above all others;
/// what stands for no number is neither above nor below anything.
pub proof fn bits_compare_as_numbers(a: u64, b: u64)
    ensures
        a <= 0x7ff0_0000_0000_0000 && b <= 0x7ff0_0000_0000_0000 ==> (at_least64(a, b) <==> a >= b),
        0x7ff0_0000_0000_0000 < a < 0x8000_0000_0000_0000 || a > 0xfff0_0000_0000_0000 ==> !at_least64(
            a,
            b,
        ) && !at_least64(b, a),
        0x8000_0000_0000_0000 <= a <= 0xfff0_0000_0000_0000 && 0 < b <= 0x7ff0_0000_0000_0000
            ==> !at_least64(a, b) && at_least64(b, a),
        0x8000_0000_0000_0000 <= a <= 0xfff0_0000_0000_0000 && 0x8000_0000_0000_0000 <= b
            <= 0xfff0_0000_0000_0000 ==> (at_least64(a, b) <==> a <= b),
        at_least64(0, 0x8000_0000_0000_0000) && at_least64(0x8000_0000_0000_0000, 0),
{
}

/// The same holds of single-precision numbers.
pub proof fn short_bits_compare_as_numbers(a: u32, b: u32)
    ensures
        a <= 0x7f80_0000 && b <= 0x7f80_0000 ==> (at_least32(a, b) <==> a >= b),
        0x7f80_0000 < a < 0x8000_0000 || a > 0xff80_0000 ==> !at_least32(a, b) && !at_least32(b, a),
        0x8000_0000 <= a <= 0xff80_0000 && 0 < b <= 0x7f80_0000 ==> !at_least32(a, b) && at_least32(
            b,
            a,
        ),
        0x8000_0000 <= a <= 0xff80_0000 && 0x8000_0000 <= b <= 0xff80_0000 ==> (at_least32(a, b)
            <==> a <= b),
        at_least32(0, 0x8000_0000) && at_least32(0x8000_0000, 0),
{
}

/// In the total order no two bit patterns stand at the same place: numbers with a sign
/// stand below those without, the larger their bits the lower; the others rise with
/// their bits.
pub proof fn the_total_order_tells_bits_apart(a: u64, b: u64, c: u32, d: u32)
    ensures
        total_rank64(a) < total_rank64(b) <==> if a >= 0x8000_0000_0000_0000 {
            b < 0x8000_0000_0000_0000 || b < a
        } else {
            b < 0x8000_0000_0000_0000 && a < b
        },
        total_rank32(c) < total_rank32(d) <==> if c >= 0x8000_0000 {
            d < 0x8000_0000 || d < c
        } else {
            d < 0x8000_0000 && c < d
        },
{
}

/// Comparing computes what comparing says.
pub proof fn comparisons_are_computed(a: u64, b: u64, at_least: bool, c: u32, d: u32, short: bool)
    requires
        a <= 0x7ff0_0000_0000_0000,
        b <= 0x7ff0_0000_0000_0000,
        c <= 0x7f80_0000,
        d <= 0x7f80_0000,
        call_ensures(is_at_least64, (a, b), at_least),
        call_ensures(is_at_least32, (c, d), short),
    ensures
        at_least <==> a >= b,
        short <==> c >= d,
{
}

} // verus!
