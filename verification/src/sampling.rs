//! Evenly spread samples and nearest-rank percentiles.

use vstd::arithmetic::div_mod::*;
use vstd::arithmetic::mul::*;
use vstd::prelude::*;

use crate::order::{is_ranked, sorted, Ranked};

verus! {

/// The position of the sample with this number among `length` values, of which `count` are
/// taken.
pub open spec fn spread(number: int, length: int, count: int) -> int {
    number * length / count
}

/// The positions of `count` samples that spread over `length` values; every position if there
/// are no more than `count`.
pub open spec fn spread_positions(length: nat, count: nat) -> Seq<int> {
    if length <= count {
        Seq::new(length, |i: int| i)
    } else {
        Seq::new(count, |i: int| spread(i, length as int, count as int))
    }
}

/// Samples lie within the values, the first one is the first value, and none is taken twice.
pub proof fn samples_spread_over_the_values(length: nat, count: nat)
    requires
        count > 0,
    ensures
        spread_positions(length, count).len() == (if length <= count {
            length
        } else {
            count
        }),
        forall|i: int|
            0 <= i < spread_positions(length, count).len() ==> 0 <= #[trigger] spread_positions(
                length,
                count,
            )[i] < length,
        forall|i: int, j: int|
            0 <= i < j < spread_positions(length, count).len() ==> (#[trigger] spread_positions(
                length,
                count,
            )[i]) < #[trigger] spread_positions(length, count)[j],
        length > 0 ==> spread_positions(length, count)[0] == 0,
{
    if length > count {
        assert forall|i: int| 0 <= i < count implies 0 <= #[trigger] spread_positions(
            length,
            count,
        )[i] < length by {
            spread_is_within(i, length as int, count as int);
        }
        assert forall|i: int, j: int| 0 <= i < j < count implies (#[trigger] spread_positions(
            length,
            count,
        )[i]) < #[trigger] spread_positions(length, count)[j] by {
            spread_increases(i, j, length as int, count as int);
        }
        assert(0 * length as int == 0);
        lemma_basic_div(0, count as int);
    }
}

/// The last sample leaves fewer values behind it than the distance of two samples.
pub proof fn samples_reach_the_end(length: nat, count: nat)
    requires
        0 < count <= length,
    ensures
        (length - spread(count - 1, length as int, count as int)) * count < length + count,
{
    let last = spread(count - 1, length as int, count as int);
    lemma_fundamental_div_mod((count - 1) * length, count as int);
    assert(((count - 1) * length) % (count as int) < count) by {
        lemma_mod_bound((count - 1) * length, count as int);
    }
    assert((length - last) * count == length * count - count * last) by (nonlinear_arith);
    assert((count - 1) * length == length * count - length) by (nonlinear_arith);
}

proof fn spread_is_within(number: int, length: int, count: int)
    requires
        0 <= number < count,
        count <= length,
    ensures
        0 <= spread(number, length, count) < length,
{
    assert(number * length >= 0) by (nonlinear_arith)
        requires
            number >= 0,
            length >= 0,
    ;
    assert(number * length < count * length) by (nonlinear_arith)
        requires
            number < count,
            length > 0,
    ;
    lemma_div_pos_is_pos(number * length, count);
    lemma_multiply_divide_lt(number * length, count, length);
}

proof fn spread_increases(low: int, high: int, length: int, count: int)
    requires
        0 <= low < high,
        0 < count <= length,
    ensures
        spread(low, length, count) < spread(high, length, count),
{
    assert(low * length + count <= high * length) by (nonlinear_arith)
        requires
            low < high,
            count <= length,
            0 <= length,
    ;
    lemma_div_is_ordered(low * length + count, high * length, count);
    lemma_div_plus_one(low * length, count);
}

/// The position of one sample.
pub fn spread_position(number: usize, length: usize, count: usize) -> (result: usize)
    requires
        number < count <= length,
    ensures
        result == spread(number as int, length as int, count as int),
        result < length,
{
    proof {
        spread_is_within(number as int, length as int, count as int);
        assert(number as int * length as int <= u64::MAX * u64::MAX) by (nonlinear_arith)
            requires
                0 <= number as int <= u64::MAX,
                0 <= length as int <= u64::MAX,
        ;
    }
    let product: u128 = number as u128 * length as u128;
    (product / count as u128) as usize
}

/// The positions of samples that spread over `length` values.
pub fn spread_over(length: usize, count: usize) -> (result: Vec<usize>)
    ensures
        result@.map_values(|position: usize| position as int) == spread_positions(
            length as nat,
            count as nat,
        ),
        forall|i: int| 0 <= i < result@.len() ==> #[trigger] result@[i] < length,
{
    let mut result: Vec<usize> = Vec::new();
    let taken: usize = if length <= count {
        length
    } else {
        count
    };
    for number in 0..taken
        invariant
            taken == (if length <= count {
                length
            } else {
                count
            }),
            result@.len() == number,
            forall|i: int|
                0 <= i < number ==> #[trigger] result@[i] == spread_positions(
                    length as nat,
                    count as nat,
                )[i],
            forall|i: int| 0 <= i < number ==> #[trigger] result@[i] < length,
    {
        if length <= count {
            result.push(number);
        } else {
            result.push(spread_position(number, length, count));
        }
    }
    assert(result@.map_values(|position: usize| position as int) =~= spread_positions(
        length as nat,
        count as nat,
    ));
    result
}

// ---------------------------------------------------------------------------
// Percentiles
// ---------------------------------------------------------------------------

/// The index of the value of nearest rank among `length` sorted values: the smallest rank that
/// at least `percent` percent of the values do not exceed, counted from zero.
pub open spec fn nearest_rank(length: int, percent: int) -> int {
    let rank = (length * percent + 99) / 100;
    if rank <= 0 {
        0
    } else if rank - 1 < length {
        rank - 1
    } else {
        length - 1
    }
}

/// At least `percent` percent of the values stand at or before the nearest rank, and fewer
/// stand before it.
pub proof fn nearest_rank_covers_the_percentage(length: int, percent: int)
    requires
        length > 0,
        0 < percent <= 100,
    ensures
        0 <= nearest_rank(length, percent) < length,
        (nearest_rank(length, percent) + 1) * 100 >= length * percent,
        nearest_rank(length, percent) * 100 < length * percent,
{
    assert(0 < length * percent <= length * 100) by (nonlinear_arith)
        requires
            length > 0,
            0 < percent <= 100,
    ;
}

/// The index of the value of nearest rank.
pub fn nearest_rank_index(length: usize, percent: usize) -> (result: usize)
    requires
        length > 0,
        percent <= 100,
    ensures
        result == nearest_rank(length as int, percent as int),
        result < length,
{
    assert(0 <= length as int * percent as int <= u64::MAX * 100) by (nonlinear_arith)
        requires
            0 <= length as int <= u64::MAX,
            0 <= percent as int <= 100,
    ;
    let product: u128 = length as u128 * percent as u128;
    let rank: u128 = (product + 99) / 100;
    if rank == 0 {
        0
    } else if rank - 1 < length as u128 {
        (rank - 1) as usize
    } else {
        length - 1
    }
}

/// The index that the probes read a percentile at: as many percent of the last index, rounded
/// up.
pub open spec fn rounded_up_index(length: int, percent: int) -> int {
    ((length - 1) * percent + 99) / 100
}

pub fn rounded_up_percentile_index(length: usize, percent: usize) -> (result: usize)
    requires
        length > 0,
        percent <= 100,
    ensures
        result == rounded_up_index(length as int, percent as int),
        result < length,
{
    assert(0 <= (length - 1) * percent as int <= (length - 1) * 100) by (nonlinear_arith)
        requires
            length as int >= 1,
            0 <= percent as int <= 100,
    ;
    let product: u128 = (length - 1) as u128 * percent as u128;
    ((product + 99) / 100) as usize
}

/// Durations in nanoseconds are ranked by length.
impl Ranked for u128 {
    open spec fn ranks_before(&self, other: &Self) -> bool {
        *self < *other
    }

    proof fn ranking_laws(first: &Self, second: &Self, third: &Self) {
    }

    fn comes_before(&self, other: &Self) -> (result: bool) {
        *self < *other
    }
}

/// The percentiles of some durations, in nanoseconds.
#[derive(Clone, Copy, Debug, PartialEq, Eq, Structural)]
pub struct Latencies {
    pub p50: u128,
    pub p95: u128,
    pub p99: u128,
    pub max: u128,
}

/// Whether `latencies` are the nearest-rank percentiles of the durations.
pub open spec fn are_percentiles(latencies: Latencies, durations: Seq<u128>) -> bool {
    exists|ranked: Seq<u128>|
        {
            &&& is_ranked(ranked)
            &&& #[trigger] ranked.to_multiset() == durations.to_multiset()
            &&& ranked.len() == durations.len()
            &&& latencies.p50 == ranked[nearest_rank(ranked.len() as int, 50)]
            &&& latencies.p95 == ranked[nearest_rank(ranked.len() as int, 95)]
            &&& latencies.p99 == ranked[nearest_rank(ranked.len() as int, 99)]
            &&& latencies.max == ranked.last()
        }
}

/// The percentiles of the durations; all zero if there is none.
pub fn latency_report(durations: Vec<u128>) -> (result: Latencies)
    ensures
        durations@.len() > 0 ==> are_percentiles(result, durations@),
        durations@.len() == 0 ==> result == (Latencies { p50: 0, p95: 0, p99: 0, max: 0 }),
{
    let count: usize = durations.len();
    if count == 0 {
        return Latencies { p50: 0, p95: 0, p99: 0, max: 0 };
    }
    let ghost all = durations@;
    let ranked: Vec<u128> = sorted(durations);
    let result: Latencies = Latencies {
        p50: ranked[nearest_rank_index(count, 50)],
        p95: ranked[nearest_rank_index(count, 95)],
        p99: ranked[nearest_rank_index(count, 99)],
        max: ranked[count - 1],
    };
    assert(ranked@.to_multiset() == all.to_multiset());
    result
}

/// Each sample stands at its own part of the values: the sample with a number has at most that part
/// of all values before it, and less than one value is missing to it.
pub proof fn samples_stand_at_their_part(length: nat, count: nat, number: int)
    requires
        0 < count < length,
        0 <= number < count,
    ensures
        spread_positions(length, count)[number] * count <= number * length,
        number * length < (spread_positions(length, count)[number] + 1) * count,
{
    let position = spread_positions(length, count)[number];
    let whole = number * length;
    assert(position == whole / count as int);
    assert(position * count <= whole < (position + 1) * count) by (nonlinear_arith)
        requires
            position == whole / count as int,
            count > 0,
    ;
}

/// The index of a probe's percentile is the first one at or behind that part of the last index.
pub proof fn a_percentile_is_rounded_up(length: int, percent: int)
    requires
        length > 0,
        0 <= percent <= 100,
    ensures
        100 * rounded_up_index(length, percent) >= (length - 1) * percent,
        100 * (rounded_up_index(length, percent) - 1) < (length - 1) * percent,
{
}

/// The greatest duration is one of them and none exceeds it, and the percentiles do not decrease.
pub proof fn percentiles_increase(latencies: Latencies, durations: Seq<u128>)
    requires
        are_percentiles(latencies, durations),
        durations.len() > 0,
    ensures
        durations.contains(latencies.max),
        forall|i: int| 0 <= i < durations.len() ==> #[trigger] durations[i] <= latencies.max,
        durations.contains(latencies.p50) && durations.contains(latencies.p95) && durations.contains(
            latencies.p99,
        ),
        latencies.p50 <= latencies.p95 <= latencies.p99 <= latencies.max,
{
    broadcast use vstd::seq_lib::group_to_multiset_ensures;

    let ranked = choose|ranked: Seq<u128>|
        {
            &&& is_ranked(ranked)
            &&& #[trigger] ranked.to_multiset() == durations.to_multiset()
            &&& ranked.len() == durations.len()
            &&& latencies.p50 == ranked[nearest_rank(ranked.len() as int, 50)]
            &&& latencies.p95 == ranked[nearest_rank(ranked.len() as int, 95)]
            &&& latencies.p99 == ranked[nearest_rank(ranked.len() as int, 99)]
            &&& latencies.max == ranked.last()
        };
    let length = ranked.len() as int;
    nearest_rank_covers_the_percentage(length, 50);
    nearest_rank_covers_the_percentage(length, 95);
    nearest_rank_covers_the_percentage(length, 99);
    assert forall|i: int| 0 <= i < length implies durations.contains(#[trigger] ranked[i]) by {
        assert(ranked.contains(ranked[i]));
        assert(ranked.to_multiset().contains(ranked[i]));
        assert(durations.to_multiset().contains(ranked[i]));
    }
    assert forall|i: int, j: int| 0 <= i <= j < length implies ranked[i] <= ranked[j] by {
        if i < j {
            assert(!ranked[j].ranks_before(&ranked[i]));
        }
    }
    assert(durations.contains(ranked[length - 1]));
    assert forall|i: int| 0 <= i < durations.len() implies #[trigger] durations[i]
        <= latencies.max by {
        assert(durations.contains(durations[i]));
        assert(durations.to_multiset().contains(durations[i]));
        assert(ranked.to_multiset().contains(durations[i]));
        assert(ranked.contains(durations[i]));
        let k = choose|k: int| 0 <= k < length && ranked[k] == durations[i];
        assert(ranked[k] <= ranked[length - 1]);
    }
    let (low, middle, high) = (
        nearest_rank(length, 50),
        nearest_rank(length, 95),
        nearest_rank(length, 99),
    );
    assert(low <= middle <= high);
    assert(ranked[low] <= ranked[middle] && ranked[middle] <= ranked[high] && ranked[high]
        <= ranked[length - 1]);
}

} // verus!
