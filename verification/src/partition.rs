//! The angle partitioner: cumulative wedge boundaries in milli-degrees.
//!
//! A sequence of positive values is turned into the sequence of cumulative
//! boundary angles `round(360 * prefix_sum / total)` in thousandths of a
//! degree, one per value. The result is monotonically non-decreasing and its
//! last entry is exactly a full turn, so a wedge lookup by query angle always
//! lands on some entry. Each value owns the half-open angular interval from
//! the previous boundary (exclusive) to its own boundary (inclusive).

use vstd::prelude::*;
use vstd::arithmetic::div_mod::lemma_div_is_ordered;
use vstd::arithmetic::div_mod::lemma_div_multiples_vanish_fancy;
use vstd::arithmetic::div_mod::lemma_div_pos_is_pos;

verus! {

/// Sum of a sequence of values.
pub open spec fn total_of(values: Seq<u32>) -> int
    decreases values.len(),
{
    if values.len() == 0 {
        0
    } else {
        total_of(values.drop_last()) + values.last()
    }
}

/// The rounded boundary angle `round(360000 * prefix / total)` in
/// milli-degrees, written over a common denominator.
pub open spec fn boundary(total: int, prefix: int) -> int {
    (720000 * prefix + total) / (2 * total)
}

/// The partition: one cumulative boundary angle per value.
pub open spec fn partition_of(values: Seq<u32>) -> Seq<int> {
    Seq::new(values.len(), |i: int| boundary(total_of(values), total_of(values.take(i + 1))))
}

/// The index of the first partition entry at or above the query angle: the
/// wedge that the query angle falls in.
pub open spec fn lookup_in(part: Seq<int>, q: int) -> int
    decreases part.len(),
{
    if part.len() == 0 {
        0
    } else if q <= part[0] {
        0
    } else {
        1 + lookup_in(part.subrange(1, part.len() as int), q)
    }
}

/// The total of a value sequence is bounded by its length times the largest
/// value that fits in 32 bits.
pub proof fn lemma_total_bounded(values: Seq<u32>)
    ensures
        0 <= total_of(values) <= values.len() * 0xffff_ffff,
    decreases values.len(),
{
    if values.len() > 0 {
        lemma_total_bounded(values.drop_last());
        assert((values.len() - 1) * 0xffff_ffff + 0xffff_ffff == values.len() * 0xffff_ffff)
            by (nonlinear_arith);
    }
}

/// Sums of value prefixes grow with the prefix.
pub proof fn lemma_total_take_monotone(values: Seq<u32>, i: int, j: int)
    requires
        0 <= i <= j <= values.len(),
    ensures
        total_of(values.take(i)) <= total_of(values.take(j)),
    decreases j - i,
{
    if i < j {
        lemma_total_take_monotone(values, i, j - 1);
        assert(values.take(j).drop_last() =~= values.take(j - 1));
        assert(total_of(values.take(j)) == total_of(values.take(j - 1)) + values[j - 1]);
    }
}

/// The whole sequence is its own full prefix.
pub proof fn lemma_total_take_all(values: Seq<u32>)
    ensures
        total_of(values.take(values.len() as int)) == total_of(values),
{
    assert(values.take(values.len() as int) =~= values);
}

/// Every prefix sum is between zero and the total.
pub proof fn lemma_prefix_in_range(values: Seq<u32>, i: int)
    requires
        0 <= i <= values.len(),
    ensures
        0 <= total_of(values.take(i)) <= total_of(values),
{
    lemma_total_take_monotone(values, 0, i);
    lemma_total_take_monotone(values, i, values.len() as int);
    lemma_total_take_all(values);
    assert(values.take(0) =~= Seq::<u32>::empty());
}

/// Boundary angles are monotone in the prefix sum and stay in
/// `[0, 360000]`; a full prefix maps to exactly a full turn.
pub proof fn lemma_boundary_properties(total: int, p1: int, p2: int)
    requires
        0 < total,
        0 <= p1 <= p2 <= total,
    ensures
        0 <= boundary(total, p1) <= boundary(total, p2) <= 360000,
        p2 == total ==> boundary(total, p2) == 360000,
{
    lemma_div_pos_is_pos(720000 * p1 + total, 2 * total);
    lemma_div_is_ordered(720000 * p1 + total, 720000 * p2 + total, 2 * total);
    lemma_div_is_ordered(720000 * p2 + total, 720000 * total + total, 2 * total);
    assert(720000 * total + total == (2 * total) * 360000 + total) by (nonlinear_arith);
    lemma_div_multiples_vanish_fancy(360000, total, 2 * total);
}

/// The partition of a non-empty positive-total value sequence is
/// monotonically non-decreasing, every entry lies in `[0, 360000]`, and the
/// last entry is exactly a full turn.
pub proof fn lemma_partition_properties(values: Seq<u32>)
    requires
        values.len() > 0,
        total_of(values) > 0,
    ensures
        forall|i: int, j: int|
            0 <= i <= j < values.len() ==> partition_of(values)[i] <= partition_of(values)[j],
        forall|i: int|
            0 <= i < values.len() ==> 0 <= #[trigger] partition_of(values)[i] <= 360000,
        partition_of(values)[values.len() - 1] == 360000,
{
    let total = total_of(values);
    let part = partition_of(values);
    assert forall|i: int, j: int| 0 <= i <= j < values.len() implies part[i] <= part[j] by {
        lemma_prefix_in_range(values, i + 1);
        lemma_prefix_in_range(values, j + 1);
        lemma_total_take_monotone(values, i + 1, j + 1);
        lemma_boundary_properties(total, total_of(values.take(i + 1)), total_of(values.take(j + 1)));
    }
    assert forall|i: int| 0 <= i < values.len() implies 0 <= #[trigger] part[i] <= 360000 by {
        lemma_prefix_in_range(values, i + 1);
        lemma_boundary_properties(total, total_of(values.take(i + 1)), total);
    }
    lemma_prefix_in_range(values, values.len() - 1);
    lemma_total_take_all(values);
    lemma_boundary_properties(total, 0, total_of(values.take(values.len() as int)));
}

/// Two equal positive values split the circle into two half-turn wedges: the
/// partition is exactly a half turn followed by a full turn, every query
/// angle up to a half turn looks up the first slice, and every greater query
/// angle looks up the second.
pub proof fn lemma_equal_pair_partition(v: u32, q: int)
    requires
        v > 0,
        0 <= q < 360000,
    ensures
        partition_of(seq![v, v]) =~= seq![180000int, 360000int],
        lookup_in(seq![180000int, 360000int], q) == if q <= 180000 {
            0int
        } else {
            1int
        },
{
    let values = seq![v, v];
    let total = total_of(values);
    assert(values.drop_last() =~= seq![v]);
    assert(seq![v].drop_last() =~= Seq::<u32>::empty());
    assert(total_of(Seq::<u32>::empty()) == 0);
    assert(total_of(seq![v]) == v as int);
    assert(total == 2 * (v as int));
    assert(values.take(1) =~= seq![v]);
    assert(values.take(2) =~= values);
    assert(720000 * (v as int) + total == (2 * total) * 180000 + total) by (nonlinear_arith)
        requires
            total == 2 * (v as int),
    ;
    lemma_div_multiples_vanish_fancy(180000, total, 2 * total);
    assert(boundary(total, v as int) == 180000);
    assert(720000 * total + total == (2 * total) * 360000 + total) by (nonlinear_arith);
    lemma_div_multiples_vanish_fancy(360000, total, 2 * total);
    assert(boundary(total, total) == 360000);
    let part = seq![180000int, 360000int];
    if q <= 180000 {
        assert(lookup_in(part, q) == 0);
    } else {
        assert(part.subrange(1, 2) =~= seq![360000int]);
        assert(lookup_in(seq![360000int], q) == 0);
    }
}

/// The recursive lookup returns exactly the first index whose boundary is at
/// or above the query.
pub proof fn lemma_lookup_characterizes(part: Seq<int>, q: int, i: int)
    requires
        0 <= i < part.len(),
        q <= part[i],
        forall|j: int| 0 <= j < i ==> part[j] < q,
    ensures
        lookup_in(part, q) == i,
    decreases i,
{
    if q <= part[0] {
        assert(i == 0);
    } else {
        let rest = part.subrange(1, part.len() as int);
        lemma_lookup_characterizes(rest, q, i - 1);
    }
}

/// Computes the total of a value sequence; it fits in 128 bits because each
/// value is 32 bits and there are fewer than `2^64` of them.
pub fn total_value(values: &Vec<u32>) -> (t: u128)
    ensures
        t as int == total_of(values@),
{
    let mut t: u128 = 0;
    let n = values.len();
    let mut i: usize = 0;
    proof {
        assert(values@.take(0) =~= Seq::<u32>::empty());
    }
    while i < n
        invariant
            i <= n,
            n == values@.len(),
            t as int == total_of(values@.take(i as int)),
            t <= (i as int) * 0xffff_ffff,
        decreases n - i,
    {
        proof {
            assert(values@.take(i + 1).drop_last() =~= values@.take(i as int));
            assert((i as int) * 0xffff_ffff + 0xffff_ffff == ((i + 1) as int) * 0xffff_ffff)
                by (nonlinear_arith);
            assert(((i + 1) as int) * 0xffff_ffff < 0x1_0000_0000_0000_0000_0000_0000)
                by (nonlinear_arith)
                requires
                    0 <= i < 0x1_0000_0000_0000_0000,
            ;
        }
        t = t + values[i] as u128;
        i = i + 1;
    }
    proof {
        lemma_total_take_all(values@);
    }
    t
}

/// Computes the partition of a value sequence with the given positive total.
/// The result is monotonically non-decreasing and, when the sequence is
/// non-empty, its last entry is exactly a full turn.
pub fn partition(total: u128, values: &Vec<u32>) -> (out: Vec<u32>)
    requires
        total as int == total_of(values@),
        total > 0,
    ensures
        out@.len() == values@.len(),
        forall|i: int|
            0 <= i < out@.len() ==> out@[i] as int == partition_of(values@)[i],
        forall|i: int, j: int| 0 <= i <= j < out@.len() ==> out@[i] <= out@[j],
        out@.len() > 0 ==> out@[out@.len() - 1] == 360000,
{
    let n = values.len();
    let mut out: Vec<u32> = Vec::new();
    let mut acc: u128 = 0;
    let mut i: usize = 0;
    proof {
        assert(values@.take(0) =~= Seq::<u32>::empty());
        lemma_total_bounded(values@);
        assert((values@.len() as int) * 0xffff_ffff < 0x1_0000_0000_0000_0000_0000_0000)
            by (nonlinear_arith)
            requires
                values@.len() <= 0xffff_ffff_ffff_ffff,
        ;
    }
    while i < n
        invariant
            i <= n,
            n == values@.len(),
            total as int == total_of(values@),
            0 < (total as int) < 0x1_0000_0000_0000_0000_0000_0000,
            acc as int == total_of(values@.take(i as int)),
            out@.len() == i,
            forall|k: int| 0 <= k < i ==> out@[k] as int == partition_of(values@)[k],
        decreases n - i,
    {
        proof {
            assert(values@.take(i + 1).drop_last() =~= values@.take(i as int));
            lemma_prefix_in_range(values@, i + 1);
        }
        acc = acc + values[i] as u128;
        proof {
            lemma_boundary_properties(total as int, acc as int, total as int);
            assert(720000 * (acc as int) + total as int <= 720000 * (total as int) + total as int)
                by (nonlinear_arith)
                requires
                    0 <= acc as int <= total as int,
            ;
            assert(720000 * (total as int) + (total as int)
                <= 0xffff_ffff_ffff_ffff_ffff_ffff_ffff_ffff) by (nonlinear_arith)
                requires
                    0 < (total as int) < 0x1_0000_0000_0000_0000_0000_0000,
            ;
        }
        let b: u128 = (720000 * acc + total) / (2 * total);
        out.push(b as u32);
        i = i + 1;
    }
    proof {
        if values@.len() > 0 {
            lemma_partition_properties(values@);
        }
    }
    out
}

/// Finds the first partition entry at or above the query angle by a linear
/// scan; the scan always succeeds because the last entry is a full turn.
pub fn lookup(part: &Vec<u32>, q: u32) -> (idx: usize)
    requires
        part@.len() > 0,
        q as int <= part@[part@.len() - 1] as int,
    ensures
        idx < part@.len(),
        q as int <= part@[idx as int] as int,
        forall|j: int| 0 <= j < idx ==> part@[j] < q,
{
    let n = part.len();
    let mut i: usize = 0;
    loop
        invariant
            i < n,
            n == part@.len(),
            q as int <= part@[part@.len() - 1] as int,
            forall|j: int| 0 <= j < i ==> part@[j] < q,
        decreases n - i,
    {
        if q <= part[i] {
            return i;
        }
        proof {
            assert(i + 1 < n);
        }
        i = i + 1;
    }
}

} // verus!
