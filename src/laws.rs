//! Laws that hold of every window the library produces.

use vstd::prelude::*;
use crate::aggregate::{flow_keys_unique, flow_upsert, has_flow, FlowEntry};
use crate::engine::{lemma_segments_step, records_of, segments};
use crate::histogram::{duration_bucket_count, size_bucket_count, total};
use crate::packet::{flow_key_of, FlowKey, Packet, PacketClass};
use crate::ranking::{flow_weights, lemma_sort_indexed, port_weights, sort_desc};
use crate::packet::IpAddress;
use crate::window::{
    count_class, describes, dst_ips_of, flows_of, sizes_of, src_ips_of, WindowRecord, TOP_N,
};

verus! {

/// Every packet is counted under exactly one protocol class.
pub proof fn lemma_class_counts_total(pkts: Seq<Packet>)
    ensures
        count_class(pkts, PacketClass::Tcp) + count_class(pkts, PacketClass::Udp) + count_class(
            pkts,
            PacketClass::Icmp,
        ) + count_class(pkts, PacketClass::Other) == pkts.len(),
    decreases pkts.len(),
{
    if pkts.len() > 0 {
        lemma_class_counts_total(pkts.drop_last());
    }
}

/// In every window record the TCP, UDP, ICMP and other counts add up to the
/// packet count.
pub proof fn lemma_window_class_counts(r: WindowRecord, start: u64, size: u64, pkts: Seq<Packet>)
    requires
        describes(r, start, size, pkts),
    ensures
        r.tcp_count + r.udp_count + r.icmp_count + r.other_count == r.packet_count,
{
    lemma_class_counts_total(pkts);
}

proof fn lemma_size_buckets_total(s: Seq<u32>)
    ensures
        size_bucket_count(s, 0) + size_bucket_count(s, 1) + size_bucket_count(s, 2) + size_bucket_count(
            s,
            3,
        ) + size_bucket_count(s, 4) + size_bucket_count(s, 5) == s.len(),
    decreases s.len(),
{
    if s.len() > 0 {
        lemma_size_buckets_total(s.drop_last());
    }
}

proof fn lemma_duration_buckets_total(t: Seq<FlowEntry>)
    ensures
        duration_bucket_count(t, 0) + duration_bucket_count(t, 1) + duration_bucket_count(t, 2)
            + duration_bucket_count(t, 3) + duration_bucket_count(t, 4) == t.len(),
    decreases t.len(),
{
    if t.len() > 0 {
        lemma_duration_buckets_total(t.drop_last());
    }
}

/// In every window record the packet-size buckets add up to the packet
/// count and the flow-duration buckets add up to the flow count.
pub proof fn lemma_window_histogram_totals(r: WindowRecord, start: u64, size: u64, pkts: Seq<Packet>)
    requires
        describes(r, start, size, pkts),
    ensures
        total(r.packet_size_distribution@) == r.packet_count,
        total(r.flow_duration_distribution@) == r.flow_count,
{
    lemma_size_buckets_total(sizes_of(pkts));
    lemma_duration_buckets_total(flows_of(pkts));
    reveal_with_fuel(total, 7);
}

/// The ranked flows and ports of every window record number at most ten and
/// come in order of descending byte totals.
pub proof fn lemma_window_top_lists(r: WindowRecord, start: u64, size: u64, pkts: Seq<Packet>)
    requires
        describes(r, start, size, pkts),
    ensures
        r.top_flows@.len() <= TOP_N,
        r.top_ports@.len() <= TOP_N,
        forall|i: int, j: int|
            0 <= i < j < r.top_flows@.len() ==> r.top_flows@[i].total_bytes >= r.top_flows@[j].total_bytes,
        forall|i: int, j: int|
            0 <= i < j < r.top_ports@.len() ==> r.top_ports@[i].total_bytes >= r.top_ports@[j].total_bytes,
{
    let flows = flows_of(pkts);
    let ports = crate::window::ports_of(pkts);
    let fw = flow_weights(flows);
    let pw = port_weights(ports);
    lemma_sort_indexed(fw);
    lemma_sort_indexed(pw);
    assert forall|i: int, j: int| 0 <= i < j < r.top_flows@.len() implies r.top_flows@[i].total_bytes
        >= r.top_flows@[j].total_bytes by {
        let s = sort_desc(fw);
        assert(fw[s[i].1 as int] == s[i]);
        assert(fw[s[j].1 as int] == s[j]);
    }
    assert forall|i: int, j: int| 0 <= i < j < r.top_ports@.len() implies r.top_ports@[i].total_bytes
        >= r.top_ports@[j].total_bytes by {
        let s = sort_desc(pw);
        assert(pw[s[i].1 as int] == s[i]);
        assert(pw[s[j].1 as int] == s[j]);
    }
}

proof fn lemma_upsert_has(t: Seq<FlowEntry>, k: FlowKey, len: int, ts: u64, other: FlowKey)
    ensures
        has_flow(flow_upsert(t, k, len, ts), other) == (has_flow(t, other) || other == k),
        has_flow(t, k) ==> flow_upsert(t, k, len, ts).len() == t.len(),
        !has_flow(t, k) ==> flow_upsert(t, k, len, ts).len() == t.len() + 1,
{
    let u = flow_upsert(t, k, len, ts);
    if has_flow(t, k) {
        let i = choose|i: int| 0 <= i < t.len() && t[i].0 == k;
        assert(u[i].0 == k);
        if has_flow(t, other) {
            let j = choose|j: int| 0 <= j < t.len() && t[j].0 == other;
            if j != i {
                assert(u[j] == t[j]);
            }
        }
        if has_flow(u, other) && other != k {
            let j = choose|j: int| 0 <= j < u.len() && u[j].0 == other;
            assert(t[j].0 == other);
        }
    } else {
        assert(u[t.len() as int].0 == k);
        if has_flow(t, other) {
            let j = choose|j: int| 0 <= j < t.len() && t[j].0 == other;
            assert(u[j] == t[j]);
        }
        if has_flow(u, other) && other != k {
            let j = choose|j: int| 0 <= j < u.len() && u[j].0 == other;
            assert(t[j].0 == other);
        }
    }
}

/// Some packet of `pkts` was sent from `ip`.
pub open spec fn sent_from(pkts: Seq<Packet>, ip: IpAddress) -> bool {
    exists|i: int| 0 <= i < pkts.len() && (#[trigger] pkts[i]).net is Some && pkts[i].net.unwrap().src_ip == ip
}

/// Some packet of `pkts` was sent to `ip`.
pub open spec fn sent_to(pkts: Seq<Packet>, ip: IpAddress) -> bool {
    exists|i: int| 0 <= i < pkts.len() && (#[trigger] pkts[i]).net is Some && pkts[i].net.unwrap().dst_ip == ip
}

proof fn lemma_add_unique(s: Seq<IpAddress>, x: IpAddress, y: IpAddress)
    ensures
        crate::window::add_unique(s, x).contains(y) <==> (s.contains(y) || y == x),
{
    let u = crate::window::add_unique(s, x);
    if !s.contains(x) {
        assert(u[s.len() as int] == x);
        if s.contains(y) {
            let j = choose|j: int| 0 <= j < s.len() && s[j] == y;
            assert(u[j] == s[j]);
        }
        if u.contains(y) {
            let j = choose|j: int| 0 <= j < u.len() && u[j] == y;
            if j < s.len() {
                assert(s[j] == y);
            }
        }
    }
}

/// The unique source and destination address lists of a window hold each
/// address of its packets exactly once, so their lengths count the distinct
/// addresses.
pub proof fn lemma_unique_ips(pkts: Seq<Packet>)
    ensures
        src_ips_of(pkts).no_duplicates(),
        dst_ips_of(pkts).no_duplicates(),
        forall|ip: IpAddress| #[trigger] src_ips_of(pkts).contains(ip) <==> sent_from(pkts, ip),
        forall|ip: IpAddress| #[trigger] dst_ips_of(pkts).contains(ip) <==> sent_to(pkts, ip),
    decreases pkts.len(),
{
    if pkts.len() > 0 {
        let d = pkts.drop_last();
        let p = pkts.last();
        let n = pkts.len() - 1;
        lemma_unique_ips(d);
        assert forall|ip: IpAddress| #[trigger] src_ips_of(pkts).contains(ip) <==> sent_from(pkts, ip) by {
            if sent_from(d, ip) {
                let i = choose|i: int| 0 <= i < d.len() && (#[trigger] d[i]).net is Some && d[i].net.unwrap().src_ip == ip;
                assert(pkts[i] == d[i]);
            }
            if sent_from(pkts, ip) {
                let i = choose|i: int| 0 <= i < pkts.len() && (#[trigger] pkts[i]).net is Some && pkts[i].net.unwrap().src_ip == ip;
                if i < n {
                    assert(d[i] == pkts[i]);
                }
            }
            if p.net is Some && p.net.unwrap().src_ip == ip {
                assert(pkts[n] == p);
            }
            if p.net is Some {
                assert(src_ips_of(pkts) == crate::window::add_unique(src_ips_of(d), p.net.unwrap().src_ip));
                lemma_add_unique(src_ips_of(d), p.net.unwrap().src_ip, ip);
            } else {
                assert(src_ips_of(pkts) == src_ips_of(d));
            }
        }
        assert forall|ip: IpAddress| #[trigger] dst_ips_of(pkts).contains(ip) <==> sent_to(pkts, ip) by {
            if sent_to(d, ip) {
                let i = choose|i: int| 0 <= i < d.len() && (#[trigger] d[i]).net is Some && d[i].net.unwrap().dst_ip == ip;
                assert(pkts[i] == d[i]);
            }
            if sent_to(pkts, ip) {
                let i = choose|i: int| 0 <= i < pkts.len() && (#[trigger] pkts[i]).net is Some && pkts[i].net.unwrap().dst_ip == ip;
                if i < n {
                    assert(d[i] == pkts[i]);
                }
            }
            if p.net is Some && p.net.unwrap().dst_ip == ip {
                assert(pkts[n] == p);
            }
            if p.net is Some {
                assert(dst_ips_of(pkts) == crate::window::add_unique(dst_ips_of(d), p.net.unwrap().dst_ip));
                lemma_add_unique(dst_ips_of(d), p.net.unwrap().dst_ip, ip);
            } else {
                assert(dst_ips_of(pkts) == dst_ips_of(d));
            }
        }
    }
}

/// Some packet of `pkts` belongs to flow `k`.
pub open spec fn in_flow(pkts: Seq<Packet>, k: FlowKey) -> bool {
    exists|i: int| 0 <= i < pkts.len() && flow_key_of(#[trigger] pkts[i]) == Some(k)
}

/// The flow table of a window has exactly one entry for each 5-tuple among
/// its TCP and UDP packets, so its length counts the distinct flows.
pub proof fn lemma_flow_table_keys(pkts: Seq<Packet>)
    ensures
        flow_keys_unique(flows_of(pkts)),
        forall|k: FlowKey| #[trigger] has_flow(flows_of(pkts), k) <==> in_flow(pkts, k),
    decreases pkts.len(),
{
    if pkts.len() > 0 {
        let d = pkts.drop_last();
        let p = pkts.last();
        let n = pkts.len() - 1;
        lemma_flow_table_keys(d);
        let t = flows_of(d);
        match flow_key_of(p) {
            Some(k) => {
                let u = flow_upsert(t, k, p.length as int, p.timestamp_us);
                if has_flow(t, k) {
                    let c = choose|c: int| 0 <= c < t.len() && t[c].0 == k;
                    assert forall|i: int, j: int| 0 <= i < j < u.len() implies u[i].0 != u[j].0 by {
                        if i != c && j != c {
                            assert(u[i] == t[i] && u[j] == t[j]);
                        } else if i == c {
                            assert(u[j] == t[j]);
                        } else {
                            assert(u[i] == t[i]);
                        }
                    }
                } else {
                    assert forall|i: int, j: int| 0 <= i < j < u.len() implies u[i].0 != u[j].0 by {
                        if j < t.len() {
                            assert(u[i] == t[i] && u[j] == t[j]);
                        } else {
                            assert(u[i] == t[i]);
                        }
                    }
                }
                assert forall|o: FlowKey| #[trigger] has_flow(u, o) <==> in_flow(pkts, o) by {
                    lemma_upsert_has(t, k, p.length as int, p.timestamp_us, o);
                    if in_flow(d, o) {
                        let i = choose|i: int| 0 <= i < d.len() && flow_key_of(#[trigger] d[i]) == Some(o);
                        assert(pkts[i] == d[i]);
                    }
                    if in_flow(pkts, o) {
                        let i = choose|i: int| 0 <= i < pkts.len() && flow_key_of(#[trigger] pkts[i]) == Some(o);
                        if i < n {
                            assert(d[i] == pkts[i]);
                        }
                    }
                    if o == k {
                        assert(pkts[n] == p);
                    }
                }
            },
            None => {
                assert forall|o: FlowKey| #[trigger] has_flow(t, o) <==> in_flow(pkts, o) by {
                    if in_flow(d, o) {
                        let i = choose|i: int| 0 <= i < d.len() && flow_key_of(#[trigger] d[i]) == Some(o);
                        assert(pkts[i] == d[i]);
                    }
                    if in_flow(pkts, o) {
                        let i = choose|i: int| 0 <= i < pkts.len() && flow_key_of(#[trigger] pkts[i]) == Some(o);
                        if i < n {
                            assert(d[i] == pkts[i]);
                        }
                    }
                }
            },
        }
    }
}

/// Two packets with the same 5-tuple are counted in one flow: the second
/// adds no entry to the flow table.
pub proof fn lemma_same_tuple_same_flow(pkts: Seq<Packet>, p: Packet, q: Packet)
    requires
        flow_key_of(p) is Some,
        flow_key_of(q) == flow_key_of(p),
    ensures
        flows_of(pkts.push(p).push(q)).len() == flows_of(pkts.push(p)).len(),
{
    let a = pkts.push(p);
    let b = a.push(q);
    let k = flow_key_of(p).unwrap();
    assert(a.drop_last() =~= pkts);
    assert(b.drop_last() =~= a);
    lemma_upsert_has(flows_of(pkts), k, p.length as int, p.timestamp_us, k);
    lemma_upsert_has(flows_of(a), k, q.length as int, q.timestamp_us, k);
}

/// The flow key with source and destination swapped.
pub open spec fn reversed(k: FlowKey) -> FlowKey {
    FlowKey { src_ip: k.dst_ip, src_port: k.dst_port, dst_ip: k.src_ip, dst_port: k.src_port, protocol: k.protocol }
}

/// Flows are direction-sensitive: a packet from B to A does not join the
/// flow of a packet from A to B, but opens a flow of its own (unless the
/// window already has one for B to A).
pub proof fn lemma_reversed_tuple_new_flow(pkts: Seq<Packet>, p: Packet, q: Packet)
    requires
        flow_key_of(p) is Some,
        flow_key_of(q) == Some(reversed(flow_key_of(p).unwrap())),
        flow_key_of(p).unwrap().src_ip != flow_key_of(p).unwrap().dst_ip
            || flow_key_of(p).unwrap().src_port != flow_key_of(p).unwrap().dst_port,
        !has_flow(flows_of(pkts), flow_key_of(q).unwrap()),
    ensures
        flow_key_of(q) != flow_key_of(p),
        flows_of(pkts.push(p).push(q)).len() == flows_of(pkts.push(p)).len() + 1,
{
    let a = pkts.push(p);
    let b = a.push(q);
    let k = flow_key_of(p).unwrap();
    let k2 = flow_key_of(q).unwrap();
    assert(a.drop_last() =~= pkts);
    assert(b.drop_last() =~= a);
    assert(k2 != k);
    lemma_upsert_has(flows_of(pkts), k, p.length as int, p.timestamp_us, k2);
    lemma_upsert_has(flows_of(a), k2, q.length as int, q.timestamp_us, k2);
}

/// Every window holds at least one packet.
pub proof fn lemma_windows_nonempty(size: u64, pkts: Seq<Packet>)
    ensures
        forall|i: int| 0 <= i < segments(size, pkts).len() ==> (#[trigger] segments(size, pkts)[i]).1.len() > 0,
    decreases pkts.len(),
{
    if pkts.len() > 0 {
        let d = pkts.drop_last();
        lemma_windows_nonempty(size, d);
        assert(pkts =~= d.push(pkts.last()));
        lemma_segments_step(size, d, pkts.last());
        let b = segments(size, d);
        let a = segments(size, pkts);
        assert forall|i: int| 0 <= i < a.len() implies (#[trigger] a[i]).1.len() > 0 by {
            if i < b.len() && i != b.len() - 1 {
                assert(a[i] == b[i]);
            }
        }
    }
}

/// A stream of one packet yields exactly one window, which holds it.
pub proof fn lemma_single_packet_one_window(size: u64, p: Packet)
    ensures
        segments(size, seq![p]).len() == 1,
        segments(size, seq![p])[0] == (p.timestamp_us, seq![p]),
{
    let e = Seq::<Packet>::empty();
    assert(seq![p] =~= e.push(p));
    assert(segments(size, e) == Seq::<crate::engine::Segment>::empty());
    lemma_segments_step(size, e, p);
}

/// Two window records agree on every field.
pub open spec fn same_record(a: WindowRecord, b: WindowRecord) -> bool {
    &&& a.window_start_us == b.window_start_us
    &&& a.window_end_us == b.window_end_us
    &&& a.window_size_us == b.window_size_us
    &&& a.packet_count == b.packet_count
    &&& a.total_bytes == b.total_bytes
    &&& a.min_packet_size == b.min_packet_size
    &&& a.max_packet_size == b.max_packet_size
    &&& a.size_sum_of_squares == b.size_sum_of_squares
    &&& a.tcp_count == b.tcp_count
    &&& a.udp_count == b.udp_count
    &&& a.icmp_count == b.icmp_count
    &&& a.other_count == b.other_count
    &&& a.unique_src_ips == b.unique_src_ips
    &&& a.unique_dst_ips == b.unique_dst_ips
    &&& a.flow_count == b.flow_count
    &&& a.port_diversity == b.port_diversity
    &&& a.tcp_syn_count == b.tcp_syn_count
    &&& a.tcp_ack_count == b.tcp_ack_count
    &&& a.tcp_rst_count == b.tcp_rst_count
    &&& a.tcp_fin_count == b.tcp_fin_count
    &&& a.tcp_retransmissions == b.tcp_retransmissions
    &&& a.packet_size_distribution@ == b.packet_size_distribution@
    &&& a.flow_duration_distribution@ == b.flow_duration_distribution@
    &&& a.top_flows@ == b.top_flows@
    &&& a.top_ports@.len() == b.top_ports@.len()
    &&& forall|j: int|
        0 <= j < a.top_ports@.len() ==> {
            &&& (#[trigger] a.top_ports@[j]).port == b.top_ports@[j].port
            &&& a.top_ports@[j].protocol == b.top_ports@[j].protocol
            &&& a.top_ports@[j].service_name@ == b.top_ports@[j].service_name@
            &&& a.top_ports@[j].packet_count == b.top_ports@[j].packet_count
            &&& a.top_ports@[j].total_bytes == b.top_ports@[j].total_bytes
        }
}

/// Processing the same packets twice yields the same records, field for
/// field and in the same order.
pub proof fn lemma_extraction_deterministic(
    a: Seq<WindowRecord>,
    b: Seq<WindowRecord>,
    size: u64,
    pkts: Seq<Packet>,
)
    requires
        records_of(a, size, segments(size, pkts)),
        records_of(b, size, segments(size, pkts)),
    ensures
        a.len() == b.len(),
        forall|i: int| 0 <= i < a.len() ==> same_record(#[trigger] a[i], b[i]),
{
    let segs = segments(size, pkts);
    assert forall|i: int| 0 <= i < a.len() implies same_record(#[trigger] a[i], b[i]) by {
        assert(describes(a[i], segs[i].0, size, segs[i].1));
        assert(describes(b[i], segs[i].0, size, segs[i].1));
        let (x, y) = (a[i].packet_size_distribution@, b[i].packet_size_distribution@);
        assert forall|k: int| 0 <= k < x.len() implies x[k] == y[k] by {
            assert(x[k] == size_bucket_count(sizes_of(segs[i].1), k));
        }
        assert(x =~= y);
        let (x, y) = (a[i].flow_duration_distribution@, b[i].flow_duration_distribution@);
        assert forall|k: int| 0 <= k < x.len() implies x[k] == y[k] by {
            assert(x[k] == duration_bucket_count(flows_of(segs[i].1), k));
        }
        assert(x =~= y);
        assert(a[i].top_flows@ =~= b[i].top_flows@);
    }
}

} // verus!
