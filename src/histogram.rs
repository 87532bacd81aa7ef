//! Fixed-bucket histograms of packet sizes and flow durations.

use vstd::prelude::*;
use crate::aggregate::{flow_duration, FlowEntry};

verus! {

/// Number of packet-size buckets.
pub const SIZE_BUCKETS: usize = 6;

/// Number of flow-duration buckets.
pub const DURATION_BUCKETS: usize = 5;

/// The bucket of a packet size; upper bounds are inclusive and sizes above
/// 1024 bytes fall into the last bucket.
pub open spec fn size_bucket(size: int) -> int {
    if size <= 64 {
        0
    } else if size <= 128 {
        1
    } else if size <= 256 {
        2
    } else if size <= 512 {
        3
    } else if size <= 1024 {
        4
    } else {
        5
    }
}

/// How many of `sizes` fall into bucket `b`.
pub open spec fn size_bucket_count(sizes: Seq<u32>, b: int) -> nat
    decreases sizes.len(),
{
    if sizes.len() == 0 {
        0
    } else {
        size_bucket_count(sizes.drop_last(), b) + if size_bucket(sizes.last() as int) == b {
            1nat
        } else {
            0nat
        }
    }
}

/// The sum of a sequence of counts.
pub open spec fn total(counts: Seq<usize>) -> int
    decreases counts.len(),
{
    if counts.len() == 0 {
        0
    } else {
        total(counts.drop_last()) + counts.last()
    }
}

/// Sorts each size into its bucket: bucket `b` of the result counts the
/// sizes whose bucket is `b`, and the counts add up to the number of sizes.
pub fn build_packet_size_histogram(packet_sizes: &[u32]) -> (r: Vec<usize>)
    ensures
        r@.len() == SIZE_BUCKETS,
        forall|b: int| 0 <= b < SIZE_BUCKETS ==> r@[b] == size_bucket_count(packet_sizes@, b),
        total(r@) == packet_sizes@.len(),
{
    let mut counts: Vec<usize> = vec![0, 0, 0, 0, 0, 0];
    let mut i: usize = 0;
    while i < packet_sizes.len()
        invariant
            i <= packet_sizes@.len(),
            counts@.len() == SIZE_BUCKETS,
            forall|b: int|
                0 <= b < SIZE_BUCKETS ==> counts@[b] == size_bucket_count(
                    #[trigger] packet_sizes@.subrange(0, i as int),
                    b,
                ),
            counts@[0] + counts@[1] + counts@[2] + counts@[3] + counts@[4] + counts@[5] == i,
        decreases packet_sizes@.len() - i,
    {
        let size = packet_sizes[i];
        let b: usize = if size <= 64 {
            0
        } else if size <= 128 {
            1
        } else if size <= 256 {
            2
        } else if size <= 512 {
            3
        } else if size <= 1024 {
            4
        } else {
            5
        };
        proof {
            let prefix = packet_sizes@.subrange(0, i + 1);
            assert(prefix.drop_last() =~= packet_sizes@.subrange(0, i as int));
            assert(prefix.last() == size);
        }
        let c = counts[b];
        counts.set(b, c + 1);
        i = i + 1;
    }
    proof {
        assert(packet_sizes@.subrange(0, i as int) =~= packet_sizes@);
        reveal_with_fuel(total, 7);
    }
    counts
}

/// One second, in microseconds.
pub const SECOND_US: u64 = 1_000_000;

/// The bucket of a flow duration in microseconds; upper bounds (5, 10, 20
/// and 30 seconds) are inclusive and longer flows fall into the last bucket.
pub open spec fn duration_bucket(d: int) -> int {
    if d <= 5 * SECOND_US {
        0
    } else if d <= 10 * SECOND_US {
        1
    } else if d <= 20 * SECOND_US {
        2
    } else if d <= 30 * SECOND_US {
        3
    } else {
        4
    }
}

/// How many flows of the table fall into duration bucket `b`.
pub open spec fn duration_bucket_count(flows: Seq<FlowEntry>, b: int) -> nat
    decreases flows.len(),
{
    if flows.len() == 0 {
        0
    } else {
        duration_bucket_count(flows.drop_last(), b) + if duration_bucket(
            flow_duration(flows.last().1) as int,
        ) == b {
            1nat
        } else {
            0nat
        }
    }
}

/// Sorts each flow of the table into its duration bucket: bucket `b` counts
/// the flows whose duration falls into `b`, and the counts add up to the
/// number of flows.
pub fn build_flow_duration_histogram(flows: &Vec<FlowEntry>) -> (r: Vec<usize>)
    ensures
        r@.len() == DURATION_BUCKETS,
        forall|b: int| 0 <= b < DURATION_BUCKETS ==> r@[b] == duration_bucket_count(flows@, b),
        total(r@) == flows@.len(),
{
    let mut counts: Vec<usize> = vec![0, 0, 0, 0, 0];
    let mut i: usize = 0;
    while i < flows.len()
        invariant
            i <= flows@.len(),
            counts@.len() == DURATION_BUCKETS,
            forall|b: int|
                0 <= b < DURATION_BUCKETS ==> counts@[b] == duration_bucket_count(
                    #[trigger] flows@.subrange(0, i as int),
                    b,
                ),
            counts@[0] + counts@[1] + counts@[2] + counts@[3] + counts@[4] == i,
        decreases flows@.len() - i,
    {
        let d = flows[i].1.duration_us();
        let b: usize = if d <= 5 * SECOND_US {
            0
        } else if d <= 10 * SECOND_US {
            1
        } else if d <= 20 * SECOND_US {
            2
        } else if d <= 30 * SECOND_US {
            3
        } else {
            4
        };
        proof {
            let prefix = flows@.subrange(0, i + 1);
            assert(prefix.drop_last() =~= flows@.subrange(0, i as int));
            assert(prefix.last() == flows@[i as int]);
        }
        let c = counts[b];
        counts.set(b, c + 1);
        i = i + 1;
    }
    proof {
        assert(flows@.subrange(0, i as int) =~= flows@);
        reveal_with_fuel(total, 6);
    }
    counts
}

/// The label of packet-size bucket `b`: its inclusive upper bound, with the
/// last bucket labelled "1500".
pub fn size_bucket_label(b: usize) -> (r: &'static str)
    requires
        b < SIZE_BUCKETS,
    ensures
        r@ == seq!["64"@, "128"@, "256"@, "512"@, "1024"@, "1500"@][b as int],
{
    match b {
        0 => "64",
        1 => "128",
        2 => "256",
        3 => "512",
        4 => "1024",
        _ => "1500",
    }
}

/// The label of flow-duration bucket `b`, a range in seconds.
pub fn duration_bucket_label(b: usize) -> (r: &'static str)
    requires
        b < DURATION_BUCKETS,
    ensures
        r@ == seq!["0-5"@, "5-10"@, "10-20"@, "20-30"@, "30+"@][b as int],
{
    match b {
        0 => "0-5",
        1 => "5-10",
        2 => "10-20",
        3 => "20-30",
        _ => "30+",
    }
}

} // verus!
