//! Floating-point values carried as bit patterns, and how those patterns compare.

use vstd::prelude::*;

verus! {

/// The bit pattern of a double, as `f64::to_bits` gives it.
#[derive(Clone, Copy, Debug, PartialEq, Eq, Structural)]
pub struct Double {
    pub bits: u64,
}

/// The pattern without its sign bit.
pub open spec fn magnitude(bits: int, sign: int) -> int {
    if bits >= sign {
        bits - sign
    } else {
        bits
    }
}

impl Double {
    /// Whether the value is not a number.
    pub open spec fn is_nan(self) -> bool {
        magnitude(self.bits as int, 0x8000_0000_0000_0000) > 0x7ff0_0000_0000_0000
    }

    /// An integer that orders the numbers as their values do: both zeros have the
    /// same rank, and a negative number ranks below zero by its magnitude.
    pub open spec fn rank(self) -> int {
        let m = magnitude(self.bits as int, 0x8000_0000_0000_0000);
        if self.bits >= 0x8000_0000_0000_0000 {
            -m
        } else {
            m
        }
    }

    /// The IEEE 754 predicate `self > other`, which is false of anything that is
    /// not a number.
    pub open spec fn exceeds(self, other: Double) -> bool {
        !self.is_nan() && !other.is_nan() && self.rank() > other.rank()
    }

    /// Whether `self > other`.
    pub fn gt(&self, other: &Double) -> (r: bool)
        ensures
            r == self.exceeds(*other),
    {
        let a: u64 = self.bits & 0x7fff_ffff_ffff_ffff;
        let b: u64 = other.bits & 0x7fff_ffff_ffff_ffff;
        proof {
            low_bits(self.bits);
            low_bits(other.bits);
        }
        if a > 0x7ff0_0000_0000_0000 || b > 0x7ff0_0000_0000_0000 {
            return false;
        }
        let a_negative = self.bits >= 0x8000_0000_0000_0000;
        let b_negative = other.bits >= 0x8000_0000_0000_0000;
        if a_negative {
            b_negative && a < b
        } else if b_negative {
            a > 0 || b > 0
        } else {
            a > b
        }
    }
}

/// Clearing the top bit of a pattern leaves its magnitude.
proof fn low_bits(bits: u64)
    ensures
        (bits & 0x7fff_ffff_ffff_ffff) as int == magnitude(bits as int, 0x8000_0000_0000_0000),
{
    assert(bits >= 0x8000_0000_0000_0000 ==> bits & 0x7fff_ffff_ffff_ffff == bits
        - 0x8000_0000_0000_0000) by (bit_vector);
    assert(bits < 0x8000_0000_0000_0000 ==> bits & 0x7fff_ffff_ffff_ffff == bits) by (bit_vector);
}

/// The place of a single-precision pattern in IEEE 754's total order, which puts
/// negative zero below positive zero and what is not a number at both ends.
pub open spec fn total_rank(bits: u32) -> int {
    let m = magnitude(bits as int, 0x8000_0000);
    if bits >= 0x8000_0000 {
        -m - 1
    } else {
        m
    }
}

/// Computes the place of a single-precision pattern in the total order.
pub fn rank_of(bits: u32) -> (r: i64)
    ensures
        r == total_rank(bits),
{
    if bits >= 0x8000_0000 {
        -((bits - 0x8000_0000) as i64) - 1
    } else {
        bits as i64
    }
}

/// Whether position `k` holds the greatest pattern of `values` in the total order,
/// and the last one where several are equally great.
pub open spec fn is_last_greatest(values: Seq<u32>, k: int) -> bool {
    &&& 0 <= k < values.len()
    &&& forall|i: int| 0 <= i < values.len() ==> total_rank(#[trigger] values[i]) <= total_rank(values[k])
    &&& forall|i: int| k < i < values.len() ==> total_rank(#[trigger] values[i]) < total_rank(values[k])
}

/// The position of the greatest pattern, the last one of several that are equally
/// great.
pub fn last_greatest(values: &Vec<u32>) -> (r: Option<usize>)
    ensures
        match r {
            Some(k) => is_last_greatest(values@, k as int),
            None => values@.len() == 0,
        },
{
    if values.len() == 0 {
        return None;
    }
    let mut best: usize = 0;
    let mut best_rank: i64 = rank_of(values[0]);
    for i in 1..values.len()
        invariant
            best < i <= values@.len(),
            best_rank == total_rank(values@[best as int]),
            is_last_greatest(values@.take(i as int), best as int),
    {
        let rank: i64 = rank_of(values[i]);
        if rank >= best_rank {
            best = i;
            best_rank = rank;
        }
        assert(forall|j: int| 0 <= j < i ==> values@.take(i as int)[j] == values@[j]);
        assert(forall|j: int| 0 <= j <= i ==> values@.take(i + 1)[j] == values@[j]);
    }
    assert(values@.take(values@.len() as int) =~= values@);
    Some(best)
}

/// At most one position holds the last greatest pattern.
pub proof fn last_greatest_is_unique(values: Seq<u32>, j: int, k: int)
    requires
        is_last_greatest(values, j),
        is_last_greatest(values, k),
    ensures
        j == k,
{
    let (a, b) = (values[j], values[k]);
    assert(total_rank(a) <= total_rank(b) && total_rank(b) <= total_rank(a));
}

/// How two doubles compare, told by their bits: the top one is the sign, infinity has the
/// greatest pattern of a number, and the two zeros are equal.
pub proof fn doubles_compare_by_their_bits(a: Double, b: Double)
    ensures
        a.is_nan() <==> 0x7ff0_0000_0000_0000 < a.bits < 0x8000_0000_0000_0000 || a.bits
            > 0xfff0_0000_0000_0000,
        a.bits < 0x8000_0000_0000_0000 && b.bits < 0x8000_0000_0000_0000 ==> (a.exceeds(b) <==> b.bits
            < a.bits <= 0x7ff0_0000_0000_0000),
        a.bits >= 0x8000_0000_0000_0000 && b.bits >= 0x8000_0000_0000_0000 ==> (a.exceeds(b)
            <==> a.bits < b.bits <= 0xfff0_0000_0000_0000),
        a.bits < 0x8000_0000_0000_0000 && b.bits >= 0x8000_0000_0000_0000 ==> (a.exceeds(b)
            <==> a.bits <= 0x7ff0_0000_0000_0000 && b.bits <= 0xfff0_0000_0000_0000 && !(a.bits == 0
            && b.bits == 0x8000_0000_0000_0000)),
        a.bits >= 0x8000_0000_0000_0000 && b.bits < 0x8000_0000_0000_0000 ==> !a.exceeds(b),
{
}

/// How two single-precision patterns stand in the total order, told by their bits.
pub proof fn patterns_stand_by_their_bits(a: u32, b: u32)
    ensures
        total_rank(a) > total_rank(b) <==> if a < 0x8000_0000 {
            b >= 0x8000_0000 || a > b
        } else {
            b >= 0x8000_0000 && a < b
        },
        total_rank(a) == total_rank(b) <==> a == b,
{
}

/// What holds of the last greatest pattern, told by the bits: no other is above it, and
/// none after it is the same.
pub proof fn nothing_is_above_the_greatest(values: Seq<u32>, k: int)
    requires
        0 <= k < values.len(),
    ensures
        is_last_greatest(values, k) <==> {
            &&& forall|i: int|
                0 <= i < values.len() ==> !(if #[trigger] values[i] < 0x8000_0000 {
                    values[k] >= 0x8000_0000 || values[i] > values[k]
                } else {
                    values[k] >= 0x8000_0000 && values[i] < values[k]
                })
            &&& forall|i: int| k < i < values.len() ==> #[trigger] values[i] != values[k]
        },
{
    assert forall|i: int| 0 <= i < values.len() implies (total_rank(#[trigger] values[i])
        > total_rank(values[k]) <==> if values[i] < 0x8000_0000 {
        values[k] >= 0x8000_0000 || values[i] > values[k]
    } else {
        values[k] >= 0x8000_0000 && values[i] < values[k]
    }) by {
        patterns_stand_by_their_bits(values[i], values[k]);
    }
}

} // verus!
