//! The aggregates that the queues report about their populations:
//! largest, smallest, and the average as an exact ratio.

use vstd::prelude::*;

verus! {

/// An average as an exact ratio: the sum of the values over their count.
#[derive(Debug, Clone, Copy, PartialEq, Eq, Structural)]
pub struct Ratio {
    pub numerator: u64,
    pub denominator: u64,
}

/// The sum of the first `count` of `values`.
pub open spec fn sum_of(values: Seq<u32>, count: nat) -> int
    decreases count,
{
    if count == 0 {
        0
    } else {
        sum_of(values, (count - 1) as nat) + values[count - 1]
    }
}

/// `index` is where the largest of `values` stands last.
pub open spec fn is_last_largest(values: Seq<u32>, index: int) -> bool {
    &&& 0 <= index < values.len()
    &&& forall|i: int| 0 <= i < values.len() ==> #[trigger] values[i] <= values[index]
    &&& forall|i: int| index < i < values.len() ==> #[trigger] values[i] < values[index]
}

/// `index` is where the smallest of `values` stands first.
pub open spec fn is_first_smallest(values: Seq<u32>, index: int) -> bool {
    &&& 0 <= index < values.len()
    &&& forall|i: int| 0 <= i < values.len() ==> #[trigger] values[i] >= values[index]
    &&& forall|i: int| 0 <= i < index ==> #[trigger] values[i] > values[index]
}

/// Where the largest of the first `count` of `values` stands last.
pub open spec fn last_largest(values: Seq<u32>, count: nat) -> int
    decreases count,
{
    if count <= 1 {
        0
    } else {
        let earlier = last_largest(values, (count - 1) as nat);
        if values[count - 1] >= values[earlier] {
            count - 1
        } else {
            earlier
        }
    }
}

/// Where the smallest of the first `count` of `values` stands first.
pub open spec fn first_smallest(values: Seq<u32>, count: nat) -> int
    decreases count,
{
    if count <= 1 {
        0
    } else {
        let earlier = first_smallest(values, (count - 1) as nat);
        if values[count - 1] < values[earlier] {
            count - 1
        } else {
            earlier
        }
    }
}

/// The largest of `values`.
pub open spec fn largest_of(values: Seq<u32>) -> u32 {
    values[last_largest(values, values.len())]
}

/// The smallest of `values`.
pub open spec fn smallest_of(values: Seq<u32>) -> u32 {
    values[first_smallest(values, values.len())]
}

/// `last_largest` and `first_smallest` are what their names say: no
/// value is larger (smaller), and none that stands later (earlier) is
/// as large (small).
pub proof fn lemma_extremes(values: Seq<u32>, count: nat)
    requires
        1 <= count <= values.len(),
    ensures
        is_last_largest(values.take(count as int), last_largest(values, count)),
        is_first_smallest(values.take(count as int), first_smallest(values, count)),
    decreases count,
{
    if count > 1 {
        lemma_extremes(values, (count - 1) as nat);
        let shorter = values.take(count - 1);
        let longer = values.take(count as int);
        assert forall|i: int| 0 <= i < count - 1 implies #[trigger] longer[i] == shorter[i] by {}
        let largest = last_largest(values, (count - 1) as nat);
        let smallest = first_smallest(values, (count - 1) as nat);
        assert(shorter[largest] == values[largest]);
        assert(shorter[smallest] == values[smallest]);
        assert forall|i: int| 0 <= i < longer.len() implies #[trigger] longer[i] <= longer[last_largest(
            values,
            count,
        )] by {
            if i < count - 1 {
                assert(shorter[i] <= shorter[largest]);
            }
        }
        assert forall|i: int| last_largest(values, count) < i < longer.len() implies #[trigger] longer[i]
            < longer[last_largest(values, count)] by {
            if i < count - 1 {
                assert(shorter[i] < shorter[largest]);
            }
        }
        assert forall|i: int| 0 <= i < longer.len() implies #[trigger] longer[i] >= longer[first_smallest(
            values,
            count,
        )] by {
            if i < count - 1 {
                assert(shorter[i] >= shorter[smallest]);
            }
        }
        assert forall|i: int| 0 <= i < first_smallest(values, count) implies #[trigger] longer[i]
            > longer[first_smallest(values, count)] by {
            if i < count - 1 {
                assert(shorter[i] >= shorter[smallest]);
                if i < smallest {
                    assert(shorter[i] > shorter[smallest]);
                }
            }
        }
    }
}

/// The sum of the first `count` values is at most `count` times the
/// largest value that fits in 32 bits.
pub proof fn lemma_sum_bound(values: Seq<u32>, count: nat)
    requires
        count <= values.len(),
    ensures
        0 <= sum_of(values, count) <= count * 0xFFFF_FFFF,
    decreases count,
{
    if count > 0 {
        lemma_sum_bound(values, (count - 1) as nat);
    }
}

/// Counts of at most a 32-bit total, and sums of 32-bit values over
/// them, fit in 64 bits.
pub proof fn lemma_count_bound(count: int, more: int, total: int)
    by (nonlinear_arith)
    requires
        0 <= count,
        0 <= more,
        count + more <= total <= 0xFFFF_FFFF,
    ensures
        (count + more) * 0xFFFF_FFFF <= 0xFFFF_FFFF * 0xFFFF_FFFF,
        count * 0xFFFF_FFFF + more * 0xFFFF_FFFF == (count + more) * 0xFFFF_FFFF,
{
}

/// Where the largest of `values` stands last.
pub fn last_largest_index(values: &Vec<u32>) -> (index: usize)
    requires
        values@.len() >= 1,
    ensures
        index == last_largest(values@, values@.len()),
        index < values@.len(),
{
    let mut index: usize = 0;
    let mut i: usize = 1;
    while i < values.len()
        invariant
            1 <= i <= values@.len(),
            index < i,
            index == last_largest(values@, i as nat),
        decreases values@.len() - i,
    {
        if values[i] >= values[index] {
            index = i;
        }
        i += 1;
    }
    index
}

/// Where the smallest of `values` stands first.
pub fn first_smallest_index(values: &Vec<u32>) -> (index: usize)
    requires
        values@.len() >= 1,
    ensures
        index == first_smallest(values@, values@.len()),
        index < values@.len(),
{
    let mut index: usize = 0;
    let mut i: usize = 1;
    while i < values.len()
        invariant
            1 <= i <= values@.len(),
            index < i,
            index == first_smallest(values@, i as nat),
        decreases values@.len() - i,
    {
        if values[i] < values[index] {
            index = i;
        }
        i += 1;
    }
    index
}

/// The average of `values` as the ratio of their sum to their count.
pub fn average(values: &Vec<u32>) -> (ratio: Ratio)
    requires
        values@.len() <= u32::MAX,
    ensures
        ratio.numerator == sum_of(values@, values@.len()),
        ratio.denominator == values@.len(),
{
    let mut sum: u64 = 0;
    let mut i: usize = 0;
    while i < values.len()
        invariant
            i <= values@.len() <= u32::MAX,
            sum == sum_of(values@, i as nat),
        decreases values@.len() - i,
    {
        proof {
            lemma_sum_bound(values@, i as nat);
            assert(i * 0xFFFF_FFFF <= 0xFFFF_FFFF * 0xFFFF_FFFF) by (nonlinear_arith)
                requires
                    i <= 0xFFFF_FFFF,
            ;
        }
        sum += values[i] as u64;
        i += 1;
    }
    Ratio { numerator: sum, denominator: values.len() as u64 }
}

} // verus!
