//! The state of one open window, what it holds after a sequence of packets,
//! and the record it is sealed into.

use vstd::prelude::*;
use crate::aggregate::{
    flow_keys_unique, flow_upsert, flows_bounded, port_keys_unique, port_upsert, ports_bounded,
    upsert_flow, upsert_port, FlowEntry, PortEntry,
};
use crate::histogram::{
    build_flow_duration_histogram, build_packet_size_histogram, duration_bucket_count,
    size_bucket_count, DURATION_BUCKETS, SIZE_BUCKETS,
};
use crate::ranking::{
    build_top_flows, build_top_ports, flow_stat, flow_weights, min_len, port_stat_of, port_weights,
    sort_desc, FlowStat, PortStat,
};
use crate::packet::{
    class_of, flags_of, flow_key_of, port_key_of, FlowKey, IpAddress, Packet, PacketClass, PortKey,
    TcpFlags, Transport,
};

verus! {

/// The TCP flags that are tallied.
#[derive(Clone, Copy, Debug, PartialEq, Eq, Structural)]
pub enum TcpFlag {
    Syn,
    Ack,
    Rst,
    Fin,
}

/// Whether flag `k` is set in `f`.
pub open spec fn flag_set(f: TcpFlags, k: TcpFlag) -> bool {
    match k {
        TcpFlag::Syn => f.syn,
        TcpFlag::Ack => f.ack,
        TcpFlag::Rst => f.rst,
        TcpFlag::Fin => f.fin,
    }
}

/// How many of `pkts` are of class `c`.
pub open spec fn count_class(pkts: Seq<Packet>, c: PacketClass) -> nat
    decreases pkts.len(),
{
    if pkts.len() == 0 {
        0
    } else {
        count_class(pkts.drop_last(), c) + if class_of(pkts.last()) == c {
            1nat
        } else {
            0nat
        }
    }
}

/// How many of `pkts` are TCP packets with flag `k` set.
pub open spec fn count_flag(pkts: Seq<Packet>, k: TcpFlag) -> nat
    decreases pkts.len(),
{
    if pkts.len() == 0 {
        0
    } else {
        count_flag(pkts.drop_last(), k) + match flags_of(pkts.last()) {
            Some(f) => if flag_set(f, k) {
                1nat
            } else {
                0nat
            },
            None => 0nat,
        }
    }
}

/// The total length of `pkts` in bytes.
pub open spec fn bytes_sum(pkts: Seq<Packet>) -> nat
    decreases pkts.len(),
{
    if pkts.len() == 0 {
        0
    } else {
        bytes_sum(pkts.drop_last()) + pkts.last().length as nat
    }
}

/// The lengths of `pkts`, in order.
pub open spec fn sizes_of(pkts: Seq<Packet>) -> Seq<u32> {
    pkts.map_values(|p: Packet| p.length)
}

/// `s` with `x` appended, unless `s` already holds it.
pub open spec fn add_unique(s: Seq<IpAddress>, x: IpAddress) -> Seq<IpAddress> {
    if s.contains(x) {
        s
    } else {
        s.push(x)
    }
}

/// The distinct source addresses of `pkts`, in order of first appearance.
pub open spec fn src_ips_of(pkts: Seq<Packet>) -> Seq<IpAddress>
    decreases pkts.len(),
{
    if pkts.len() == 0 {
        seq![]
    } else {
        match pkts.last().net {
            Some(n) => add_unique(src_ips_of(pkts.drop_last()), n.src_ip),
            None => src_ips_of(pkts.drop_last()),
        }
    }
}

/// The distinct destination addresses of `pkts`, in order of first
/// appearance.
pub open spec fn dst_ips_of(pkts: Seq<Packet>) -> Seq<IpAddress>
    decreases pkts.len(),
{
    if pkts.len() == 0 {
        seq![]
    } else {
        match pkts.last().net {
            Some(n) => add_unique(dst_ips_of(pkts.drop_last()), n.dst_ip),
            None => dst_ips_of(pkts.drop_last()),
        }
    }
}

/// The flow table after `pkts`.
pub open spec fn flows_of(pkts: Seq<Packet>) -> Seq<FlowEntry>
    decreases pkts.len(),
{
    if pkts.len() == 0 {
        seq![]
    } else {
        let p = pkts.last();
        match flow_key_of(p) {
            Some(k) => flow_upsert(flows_of(pkts.drop_last()), k, p.length as int, p.timestamp_us),
            None => flows_of(pkts.drop_last()),
        }
    }
}

/// The port table after `pkts`.
pub open spec fn ports_of(pkts: Seq<Packet>) -> Seq<PortEntry>
    decreases pkts.len(),
{
    if pkts.len() == 0 {
        seq![]
    } else {
        let p = pkts.last();
        match port_key_of(p) {
            Some(k) => port_upsert(ports_of(pkts.drop_last()), k, p.length as int),
            None => ports_of(pkts.drop_last()),
        }
    }
}

/// The aggregates of the open window. Every field is determined by the
/// packets the window has taken so far, `packets`.
pub struct WindowState {
    pub packets: Ghost<Seq<Packet>>,
    pub packet_count: usize,
    pub total_bytes: usize,
    pub tcp_count: usize,
    pub udp_count: usize,
    pub icmp_count: usize,
    pub other_count: usize,
    pub sizes: Vec<u32>,
    pub src_ips: Vec<IpAddress>,
    pub dst_ips: Vec<IpAddress>,
    pub flows: Vec<FlowEntry>,
    pub ports: Vec<PortEntry>,
    pub syn_count: usize,
    pub ack_count: usize,
    pub rst_count: usize,
    pub fin_count: usize,
}

fn add_ip(s: &mut Vec<IpAddress>, x: IpAddress)
    ensures
        final(s)@ == add_unique(old(s)@, x),
{
    let mut i: usize = 0;
    while i < s.len()
        invariant
            i <= s@.len(),
            forall|j: int| 0 <= j < i ==> s@[j] != x,
        decreases s@.len() - i,
    {
        if s[i] == x {
            assert(s@.contains(x));
            return;
        }
        i = i + 1;
    }
    s.push(x);
}

impl WindowState {
    /// Each field agrees with what the window's packets determine.
    pub open spec fn wf(&self) -> bool {
        let pkts = self.packets@;
        &&& self.packet_count == pkts.len()
        &&& self.total_bytes == bytes_sum(pkts)
        &&& self.tcp_count == count_class(pkts, PacketClass::Tcp)
        &&& self.udp_count == count_class(pkts, PacketClass::Udp)
        &&& self.icmp_count == count_class(pkts, PacketClass::Icmp)
        &&& self.other_count == count_class(pkts, PacketClass::Other)
        &&& self.tcp_count + self.udp_count + self.icmp_count + self.other_count == self.packet_count
        &&& self.sizes@ == sizes_of(pkts)
        &&& self.src_ips@ == src_ips_of(pkts)
        &&& self.dst_ips@ == dst_ips_of(pkts)
        &&& self.flows@ == flows_of(pkts)
        &&& self.ports@ == ports_of(pkts)
        &&& self.syn_count == count_flag(pkts, TcpFlag::Syn)
        &&& self.ack_count == count_flag(pkts, TcpFlag::Ack)
        &&& self.rst_count == count_flag(pkts, TcpFlag::Rst)
        &&& self.fin_count == count_flag(pkts, TcpFlag::Fin)
        &&& self.syn_count <= self.tcp_count
        &&& self.ack_count <= self.tcp_count
        &&& self.rst_count <= self.tcp_count
        &&& self.fin_count <= self.tcp_count
        &&& flow_keys_unique(self.flows@)
        &&& port_keys_unique(self.ports@)
        &&& flows_bounded(self.flows@, self.packet_count as int, self.total_bytes as int)
        &&& ports_bounded(self.ports@, self.packet_count as int, self.total_bytes as int)
    }

    /// The state of a freshly opened window, which has taken no packet.
    pub fn new() -> (r: WindowState)
        ensures
            r.wf(),
            r.packets@ == Seq::<Packet>::empty(),
    {
        assert(sizes_of(Seq::<Packet>::empty()) =~= Seq::<u32>::empty());
        WindowState {
            packets: Ghost(Seq::empty()),
            packet_count: 0,
            total_bytes: 0,
            tcp_count: 0,
            udp_count: 0,
            icmp_count: 0,
            other_count: 0,
            sizes: Vec::new(),
            src_ips: Vec::new(),
            dst_ips: Vec::new(),
            flows: Vec::new(),
            ports: Vec::new(),
            syn_count: 0,
            ack_count: 0,
            rst_count: 0,
            fin_count: 0,
        }
    }

    /// The window can take `p` without a counter overflowing.
    pub open spec fn can_take(&self, p: Packet) -> bool {
        &&& self.packet_count < usize::MAX
        &&& self.total_bytes + p.length <= usize::MAX
    }

    /// Whether the window can take `p` without a counter overflowing.
    pub fn has_room_for(&self, p: &Packet) -> (r: bool)
        ensures
            r == self.can_take(*p),
    {
        self.packet_count < usize::MAX && p.length as usize <= usize::MAX - self.total_bytes
    }

    /// Counts one packet into the window.
    pub fn add_packet(&mut self, p: Packet)
        requires
            old(self).wf(),
            old(self).can_take(p),
        ensures
            final(self).wf(),
            final(self).packets@ == old(self).packets@.push(p),
    {
        let ghost pkts = self.packets@;
        let len = p.length as usize;
        let ghost packets_before = self.packet_count as int;
        let ghost bytes_before = self.total_bytes as int;
        self.packet_count = self.packet_count + 1;
        self.total_bytes = self.total_bytes + len;
        self.sizes.push(p.length);
        match p.net {
            None => {
                self.other_count = self.other_count + 1;
            },
            Some(n) => {
                add_ip(&mut self.src_ips, n.src_ip);
                add_ip(&mut self.dst_ips, n.dst_ip);
                match n.transport {
                    Some(Transport::Tcp { src_port, dst_port, flags }) => {
                        self.tcp_count = self.tcp_count + 1;
                        let k = FlowKey {
                            src_ip: n.src_ip,
                            src_port,
                            dst_ip: n.dst_ip,
                            dst_port,
                            protocol: crate::packet::Protocol::Tcp,
                        };
                        upsert_flow(
                            &mut self.flows,
                            k,
                            len,
                            p.timestamp_us,
                            Ghost(packets_before),
                            Ghost(bytes_before),
                        );
                        let pk = PortKey { port: dst_port, protocol: crate::packet::Protocol::Tcp };
                        upsert_port(&mut self.ports, pk, len, Ghost(packets_before), Ghost(bytes_before));
                        if flags.syn {
                            self.syn_count = self.syn_count + 1;
                        }
                        if flags.ack {
                            self.ack_count = self.ack_count + 1;
                        }
                        if flags.rst {
                            self.rst_count = self.rst_count + 1;
                        }
                        if flags.fin {
                            self.fin_count = self.fin_count + 1;
                        }
                    },
                    Some(Transport::Udp { src_port, dst_port }) => {
                        self.udp_count = self.udp_count + 1;
                        let k = FlowKey {
                            src_ip: n.src_ip,
                            src_port,
                            dst_ip: n.dst_ip,
                            dst_port,
                            protocol: crate::packet::Protocol::Udp,
                        };
                        upsert_flow(
                            &mut self.flows,
                            k,
                            len,
                            p.timestamp_us,
                            Ghost(packets_before),
                            Ghost(bytes_before),
                        );
                        let pk = PortKey { port: dst_port, protocol: crate::packet::Protocol::Udp };
                        upsert_port(&mut self.ports, pk, len, Ghost(packets_before), Ghost(bytes_before));
                    },
                    Some(Transport::Icmp) => {
                        self.icmp_count = self.icmp_count + 1;
                    },
                    None => {
                        self.other_count = self.other_count + 1;
                    },
                }
            },
        }
        self.packets = Ghost(pkts.push(p));
        proof {
            let q = pkts.push(p);
            assert(q.drop_last() =~= pkts);
            assert(q.last() == p);
            assert(sizes_of(q) =~= sizes_of(pkts).push(p.length));
            if self.flows@ == flows_of(pkts) {
                assert(flows_bounded(self.flows@, self.packet_count as int, self.total_bytes as int)) by {
                    assert forall|i: int| #![trigger self.flows@[i]] 0 <= i < self.flows@.len() implies
                        self.flows@[i].1.packet_count <= self.packet_count
                        && self.flows@[i].1.total_bytes <= self.total_bytes by {
                        assert(self.flows@[i] == old(self).flows@[i]);
                    }
                }
            }
            if self.ports@ == ports_of(pkts) {
                assert(ports_bounded(self.ports@, self.packet_count as int, self.total_bytes as int)) by {
                    assert forall|i: int| #![trigger self.ports@[i]] 0 <= i < self.ports@.len() implies
                        self.ports@[i].1.packet_count <= self.packet_count
                        && self.ports@[i].1.total_bytes <= self.total_bytes by {
                        assert(self.ports@[i] == old(self).ports@[i]);
                    }
                }
            }
        }
    }
}

/// How many flows and ports a record ranks.
pub const TOP_N: usize = 10;

/// The smallest of `s`, or 0 when `s` is empty.
pub open spec fn min_size(s: Seq<u32>) -> u32
    decreases s.len(),
{
    if s.len() == 0 {
        0
    } else if s.len() == 1 {
        s[0]
    } else if s.last() < min_size(s.drop_last()) {
        s.last()
    } else {
        min_size(s.drop_last())
    }
}

/// The largest of `s`, or 0 when `s` is empty.
pub open spec fn max_size(s: Seq<u32>) -> u32
    decreases s.len(),
{
    if s.len() == 0 {
        0
    } else if s.len() == 1 {
        s[0]
    } else if s.last() > max_size(s.drop_last()) {
        s.last()
    } else {
        max_size(s.drop_last())
    }
}

/// The sum of the squares of `s`.
pub open spec fn sum_squares(s: Seq<u32>) -> nat
    decreases s.len(),
{
    if s.len() == 0 {
        0
    } else {
        sum_squares(s.drop_last()) + (s.last() as nat) * (s.last() as nat)
    }
}

/// The smallest packet size, or 0 when there is none.
pub fn min_packet_size(sizes: &Vec<u32>) -> (r: u32)
    ensures
        r == min_size(sizes@),
{
    if sizes.len() == 0 {
        return 0;
    }
    let mut m = sizes[0];
    let mut i: usize = 1;
    assert(sizes@.subrange(0, 1) =~= seq![sizes@[0]]);
    while i < sizes.len()
        invariant
            1 <= i <= sizes@.len(),
            m == min_size(sizes@.subrange(0, i as int)),
        decreases sizes@.len() - i,
    {
        assert(sizes@.subrange(0, i + 1).drop_last() =~= sizes@.subrange(0, i as int));
        if sizes[i] < m {
            m = sizes[i];
        }
        i = i + 1;
    }
    assert(sizes@.subrange(0, i as int) =~= sizes@);
    m
}

/// The largest packet size, or 0 when there is none.
pub fn max_packet_size(sizes: &Vec<u32>) -> (r: u32)
    ensures
        r == max_size(sizes@),
{
    if sizes.len() == 0 {
        return 0;
    }
    let mut m = sizes[0];
    let mut i: usize = 1;
    assert(sizes@.subrange(0, 1) =~= seq![sizes@[0]]);
    while i < sizes.len()
        invariant
            1 <= i <= sizes@.len(),
            m == max_size(sizes@.subrange(0, i as int)),
        decreases sizes@.len() - i,
    {
        assert(sizes@.subrange(0, i + 1).drop_last() =~= sizes@.subrange(0, i as int));
        if sizes[i] > m {
            m = sizes[i];
        }
        i = i + 1;
    }
    assert(sizes@.subrange(0, i as int) =~= sizes@);
    m
}

/// The largest square of a `u32`.
pub const MAX_SQUARE: u128 = 0xFFFF_FFFE_0000_0001;

proof fn lemma_square_bound(x: u32, i: nat, acc: nat)
    requires
        acc <= i * MAX_SQUARE,
        i < 0x1_0000_0000_0000_0000,
    ensures
        acc + (x as nat) * (x as nat) <= (i + 1) * MAX_SQUARE,
        (i + 1) * MAX_SQUARE <= u128::MAX,
{
    assert((x as nat) * (x as nat) <= MAX_SQUARE) by (nonlinear_arith)
        requires
            x <= 0xFFFF_FFFF,
    ;
    assert((i + 1) * MAX_SQUARE <= 0x1_0000_0000_0000_0000 * MAX_SQUARE) by (nonlinear_arith)
        requires
            i + 1 <= 0x1_0000_0000_0000_0000,
    ;
}

/// The sum of the squared packet sizes, from which the spread of the sizes
/// follows.
pub fn sum_of_squares(sizes: &Vec<u32>) -> (r: u128)
    ensures
        r == sum_squares(sizes@),
{
    let mut acc: u128 = 0;
    let mut i: usize = 0;
    while i < sizes.len()
        invariant
            i <= sizes@.len(),
            acc == sum_squares(sizes@.subrange(0, i as int)),
            acc <= i * MAX_SQUARE,
        decreases sizes@.len() - i,
    {
        let x = sizes[i];
        proof {
            assert(sizes@.subrange(0, i + 1).drop_last() =~= sizes@.subrange(0, i as int));
            lemma_square_bound(x, i as nat, acc as nat);
        }
        acc = acc + (x as u128) * (x as u128);
        i = i + 1;
    }
    assert(sizes@.subrange(0, i as int) =~= sizes@);
    acc
}

/// The sealed summary of one window.
#[derive(Debug)]
pub struct WindowRecord {
    pub window_start_us: u64,
    pub window_end_us: u64,
    pub window_size_us: u64,
    pub packet_count: usize,
    pub total_bytes: usize,
    pub min_packet_size: u32,
    pub max_packet_size: u32,
    pub size_sum_of_squares: u128,
    pub tcp_count: usize,
    pub udp_count: usize,
    pub icmp_count: usize,
    pub other_count: usize,
    pub unique_src_ips: usize,
    pub unique_dst_ips: usize,
    pub flow_count: usize,
    pub port_diversity: usize,
    pub tcp_syn_count: usize,
    pub tcp_ack_count: usize,
    pub tcp_rst_count: usize,
    pub tcp_fin_count: usize,
    pub tcp_retransmissions: usize,
    pub packet_size_distribution: Vec<usize>,
    pub flow_duration_distribution: Vec<usize>,
    pub top_flows: Vec<FlowStat>,
    pub top_ports: Vec<PortStat>,
}

/// `r` is the record of a window that opened at `start`, lasts `size`
/// microseconds, and took `pkts`.
pub open spec fn describes(r: WindowRecord, start: u64, size: u64, pkts: Seq<Packet>) -> bool {
    let flows = flows_of(pkts);
    let ports = ports_of(pkts);
    let sizes = sizes_of(pkts);
    &&& r.window_start_us == start
    &&& r.window_end_us == start + size
    &&& r.window_size_us == size
    &&& r.packet_count == pkts.len()
    &&& r.total_bytes == bytes_sum(pkts)
    &&& r.min_packet_size == min_size(sizes)
    &&& r.max_packet_size == max_size(sizes)
    &&& r.size_sum_of_squares == sum_squares(sizes)
    &&& r.tcp_count == count_class(pkts, PacketClass::Tcp)
    &&& r.udp_count == count_class(pkts, PacketClass::Udp)
    &&& r.icmp_count == count_class(pkts, PacketClass::Icmp)
    &&& r.other_count == count_class(pkts, PacketClass::Other)
    &&& r.unique_src_ips == src_ips_of(pkts).len()
    &&& r.unique_dst_ips == dst_ips_of(pkts).len()
    &&& r.flow_count == flows.len()
    &&& r.port_diversity == ports.len()
    &&& r.tcp_syn_count == count_flag(pkts, TcpFlag::Syn)
    &&& r.tcp_ack_count == count_flag(pkts, TcpFlag::Ack)
    &&& r.tcp_rst_count == count_flag(pkts, TcpFlag::Rst)
    &&& r.tcp_fin_count == count_flag(pkts, TcpFlag::Fin)
    &&& r.tcp_retransmissions == 0
    &&& r.packet_size_distribution@.len() == SIZE_BUCKETS
    &&& forall|b: int|
        0 <= b < SIZE_BUCKETS ==> r.packet_size_distribution@[b] == size_bucket_count(sizes, b)
    &&& r.flow_duration_distribution@.len() == DURATION_BUCKETS
    &&& forall|b: int|
        0 <= b < DURATION_BUCKETS ==> r.flow_duration_distribution@[b] == duration_bucket_count(
            flows,
            b,
        )
    &&& r.top_flows@.len() == min_len(TOP_N as int, flows.len() as int)
    &&& forall|j: int|
        0 <= j < r.top_flows@.len() ==> r.top_flows@[j] == flow_stat(
            flows[sort_desc(flow_weights(flows))[j].1 as int],
        )
    &&& r.top_ports@.len() == min_len(TOP_N as int, ports.len() as int)
    &&& forall|j: int|
        0 <= j < r.top_ports@.len() ==> port_stat_of(
            r.top_ports@[j],
            ports[sort_desc(port_weights(ports))[j].1 as int],
        )
}

impl WindowState {
    /// Seals the window that opened at `start` and lasts `size`
    /// microseconds into its record.
    pub fn finalize(&self, start: u64, size: u64) -> (r: WindowRecord)
        requires
            self.wf(),
            start + size <= u64::MAX,
        ensures
            describes(r, start, size, self.packets@),
    {
        WindowRecord {
            window_start_us: start,
            window_end_us: start + size,
            window_size_us: size,
            packet_count: self.packet_count,
            total_bytes: self.total_bytes,
            min_packet_size: min_packet_size(&self.sizes),
            max_packet_size: max_packet_size(&self.sizes),
            size_sum_of_squares: sum_of_squares(&self.sizes),
            tcp_count: self.tcp_count,
            udp_count: self.udp_count,
            icmp_count: self.icmp_count,
            other_count: self.other_count,
            unique_src_ips: self.src_ips.len(),
            unique_dst_ips: self.dst_ips.len(),
            flow_count: self.flows.len(),
            port_diversity: self.ports.len(),
            tcp_syn_count: self.syn_count,
            tcp_ack_count: self.ack_count,
            tcp_rst_count: self.rst_count,
            tcp_fin_count: self.fin_count,
            tcp_retransmissions: 0,
            packet_size_distribution: build_packet_size_histogram(self.sizes.as_slice()),
            flow_duration_distribution: build_flow_duration_histogram(&self.flows),
            top_flows: build_top_flows(&self.flows, TOP_N),
            top_ports: build_top_ports(&self.ports, TOP_N),
        }
    }
}

} // verus!
