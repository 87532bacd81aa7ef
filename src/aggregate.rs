//! Per-window flow and port tables.
//!
//! A table is a vector of `(key, aggregate)` entries whose keys are pairwise
//! distinct; entries appear in the order their keys were first seen.

use vstd::prelude::*;
use crate::packet::{FlowKey, PortKey};

verus! {

/// Running totals of one flow within a window.
#[derive(Clone, Copy, Debug, PartialEq, Eq, Structural)]
pub struct FlowAgg {
    pub packet_count: usize,
    pub total_bytes: usize,
    pub first_seen_us: u64,
    pub last_seen_us: u64,
}

/// Running totals of one destination port within a window.
#[derive(Clone, Copy, Debug, PartialEq, Eq, Structural)]
pub struct PortAgg {
    pub packet_count: usize,
    pub total_bytes: usize,
}

/// How long a flow lasted, in microseconds: the time from its first to its
/// last sighting, or zero if the last precedes the first.
pub open spec fn flow_duration(a: FlowAgg) -> u64 {
    if a.last_seen_us >= a.first_seen_us {
        (a.last_seen_us - a.first_seen_us) as u64
    } else {
        0
    }
}

impl FlowAgg {
    /// How long the flow lasted, in microseconds.
    pub fn duration_us(&self) -> (r: u64)
        ensures
            r == flow_duration(*self),
    {
        if self.last_seen_us >= self.first_seen_us {
            self.last_seen_us - self.first_seen_us
        } else {
            0
        }
    }
}

pub type FlowEntry = (FlowKey, FlowAgg);

pub type PortEntry = (PortKey, PortAgg);

/// No key occurs twice in the table.
pub open spec fn flow_keys_unique(t: Seq<FlowEntry>) -> bool {
    forall|i: int, j: int| 0 <= i < j < t.len() ==> t[i].0 != t[j].0
}

/// No key occurs twice in the table.
pub open spec fn port_keys_unique(t: Seq<PortEntry>) -> bool {
    forall|i: int, j: int| 0 <= i < j < t.len() ==> t[i].0 != t[j].0
}

/// The table has an entry for `k`.
pub open spec fn has_flow(t: Seq<FlowEntry>, k: FlowKey) -> bool {
    exists|i: int| 0 <= i < t.len() && t[i].0 == k
}

/// The table has an entry for `k`.
pub open spec fn has_port(t: Seq<PortEntry>, k: PortKey) -> bool {
    exists|i: int| 0 <= i < t.len() && t[i].0 == k
}

/// The flow table after one packet of `len` bytes, seen at `ts`, was
/// counted under `k`: an existing entry gains the packet and moves its last
/// sighting to `ts`; otherwise a new entry is appended whose first and last
/// sighting are both `ts`.
pub open spec fn flow_upsert(t: Seq<FlowEntry>, k: FlowKey, len: int, ts: u64) -> Seq<FlowEntry> {
    if has_flow(t, k) {
        let i = choose|i: int| 0 <= i < t.len() && t[i].0 == k;
        let a = t[i].1;
        t.update(
            i,
            (
                k,
                FlowAgg {
                    packet_count: (a.packet_count + 1) as usize,
                    total_bytes: (a.total_bytes + len) as usize,
                    first_seen_us: a.first_seen_us,
                    last_seen_us: ts,
                },
            ),
        )
    } else {
        t.push((k, FlowAgg { packet_count: 1, total_bytes: len as usize, first_seen_us: ts, last_seen_us: ts }))
    }
}

/// The port table after one packet of `len` bytes was counted under `k`.
pub open spec fn port_upsert(t: Seq<PortEntry>, k: PortKey, len: int) -> Seq<PortEntry> {
    if has_port(t, k) {
        let i = choose|i: int| 0 <= i < t.len() && t[i].0 == k;
        let a = t[i].1;
        t.update(
            i,
            (k, PortAgg { packet_count: (a.packet_count + 1) as usize, total_bytes: (a.total_bytes + len) as usize }),
        )
    } else {
        t.push((k, PortAgg { packet_count: 1, total_bytes: len as usize }))
    }
}

/// Every entry's totals are bounded by the given packet and byte totals.
pub open spec fn flows_bounded(t: Seq<FlowEntry>, packets: int, bytes: int) -> bool {
    forall|i: int|
        #![trigger t[i]]
        0 <= i < t.len() ==> t[i].1.packet_count <= packets && t[i].1.total_bytes <= bytes
}

/// Every entry's totals are bounded by the given packet and byte totals.
pub open spec fn ports_bounded(t: Seq<PortEntry>, packets: int, bytes: int) -> bool {
    forall|i: int|
        #![trigger t[i]]
        0 <= i < t.len() ==> t[i].1.packet_count <= packets && t[i].1.total_bytes <= bytes
}

fn find_flow(t: &Vec<FlowEntry>, k: &FlowKey) -> (r: Option<usize>)
    ensures
        match r {
            Some(i) => i < t@.len() && t@[i as int].0 == *k,
            None => !has_flow(t@, *k),
        },
{
    let mut i: usize = 0;
    while i < t.len()
        invariant
            i <= t@.len(),
            forall|j: int| 0 <= j < i ==> t@[j].0 != *k,
        decreases t@.len() - i,
    {
        if t[i].0 == *k {
            return Some(i);
        }
        i = i + 1;
    }
    None
}

fn find_port(t: &Vec<PortEntry>, k: &PortKey) -> (r: Option<usize>)
    ensures
        match r {
            Some(i) => i < t@.len() && t@[i as int].0 == *k,
            None => !has_port(t@, *k),
        },
{
    let mut i: usize = 0;
    while i < t.len()
        invariant
            i <= t@.len(),
            forall|j: int| 0 <= j < i ==> t@[j].0 != *k,
        decreases t@.len() - i,
    {
        if t[i].0 == *k {
            return Some(i);
        }
        i = i + 1;
    }
    None
}

/// Counts one packet of `len` bytes, seen at `ts`, under flow `k`.
pub(crate) fn upsert_flow(t: &mut Vec<FlowEntry>, k: FlowKey, len: usize, ts: u64, packets: Ghost<int>, bytes: Ghost<int>)
    requires
        flow_keys_unique(old(t)@),
        flows_bounded(old(t)@, packets@, bytes@),
        0 <= packets@,
        0 <= bytes@,
        packets@ + 1 <= usize::MAX,
        bytes@ + len <= usize::MAX,
    ensures
        final(t)@ == flow_upsert(old(t)@, k, len as int, ts),
        flow_keys_unique(final(t)@),
        flows_bounded(final(t)@, packets@ + 1, bytes@ + len),
{
    match find_flow(t, &k) {
        Some(i) => {
            let a = t[i].1;
            t.set(
                i,
                (
                    k,
                    FlowAgg {
                        packet_count: a.packet_count + 1,
                        total_bytes: a.total_bytes + len,
                        first_seen_us: a.first_seen_us,
                        last_seen_us: ts,
                    },
                ),
            );
            proof {
                let c = choose|c: int| 0 <= c < old(t)@.len() && old(t)@[c].0 == k;
                assert(c == i);
            }
        },
        None => {
            t.push((k, FlowAgg { packet_count: 1, total_bytes: len, first_seen_us: ts, last_seen_us: ts }));
        },
    }
    proof {
        assert forall|j: int| #![trigger t@[j]] 0 <= j < t@.len() implies t@[j].1.packet_count <= packets@ + 1
            && t@[j].1.total_bytes <= bytes@ + len by {
            if j < old(t)@.len() {
                assert(old(t)@[j].1.total_bytes <= bytes@);
                assert(old(t)@[j].1.packet_count <= packets@);
            }
        }
    }
}

/// Counts one packet of `len` bytes under port `k`.
pub(crate) fn upsert_port(t: &mut Vec<PortEntry>, k: PortKey, len: usize, packets: Ghost<int>, bytes: Ghost<int>)
    requires
        port_keys_unique(old(t)@),
        ports_bounded(old(t)@, packets@, bytes@),
        0 <= packets@,
        0 <= bytes@,
        packets@ + 1 <= usize::MAX,
        bytes@ + len <= usize::MAX,
    ensures
        final(t)@ == port_upsert(old(t)@, k, len as int),
        port_keys_unique(final(t)@),
        ports_bounded(final(t)@, packets@ + 1, bytes@ + len),
{
    match find_port(t, &k) {
        Some(i) => {
            let a = t[i].1;
            t.set(i, (k, PortAgg { packet_count: a.packet_count + 1, total_bytes: a.total_bytes + len }));
            proof {
                let c = choose|c: int| 0 <= c < old(t)@.len() && old(t)@[c].0 == k;
                assert(c == i);
            }
        },
        None => {
            t.push((k, PortAgg { packet_count: 1, total_bytes: len }));
        },
    }
    proof {
        assert forall|j: int| #![trigger t@[j]] 0 <= j < t@.len() implies t@[j].1.packet_count <= packets@ + 1
            && t@[j].1.total_bytes <= bytes@ + len by {
            if j < old(t)@.len() {
                assert(old(t)@[j].1.total_bytes <= bytes@);
                assert(old(t)@[j].1.packet_count <= packets@);
            }
        }
    }
}

} // verus!
