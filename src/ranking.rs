//! Ranking of flows and ports by byte volume.

use vstd::prelude::*;
use crate::aggregate::{flow_duration, FlowEntry, PortEntry};
use crate::packet::{IpAddress, Protocol};

verus! {

/// A rank entry: a weight and the index of the ranked item in its table.
pub type Ranked = (usize, usize);

/// Inserts `x` into `s` after every entry whose weight is at least `x`'s,
/// so that entries of equal weight keep their order of arrival.
pub open spec fn insert_desc(s: Seq<Ranked>, x: Ranked) -> Seq<Ranked>
    decreases s.len(),
{
    if s.len() == 0 {
        seq![x]
    } else if s.last().0 >= x.0 {
        s.push(x)
    } else {
        insert_desc(s.drop_last(), x).push(s.last())
    }
}

/// The entries of `s`, stably sorted by descending weight.
pub open spec fn sort_desc(s: Seq<Ranked>) -> Seq<Ranked>
    decreases s.len(),
{
    if s.len() == 0 {
        s
    } else {
        insert_desc(sort_desc(s.drop_last()), s.last())
    }
}

/// Weights never increase along `s`.
pub open spec fn sorted_desc(s: Seq<Ranked>) -> bool {
    forall|i: int, j: int| 0 <= i < j < s.len() ==> s[i].0 >= s[j].0
}

proof fn lemma_insert_desc(s: Seq<Ranked>, x: Ranked)
    requires
        sorted_desc(s),
    ensures
        sorted_desc(insert_desc(s, x)),
        insert_desc(s, x).len() == s.len() + 1,
        insert_desc(s, x).to_multiset() == s.to_multiset().insert(x),
    decreases s.len(),
{
    if s.len() == 0 {
        assert(seq![x].to_multiset() =~= s.to_multiset().insert(x)) by {
            s.to_multiset_ensures();
            seq![x].to_multiset_ensures();
            assert(seq![x] =~= s.push(x));
        }
    } else if s.last().0 >= x.0 {
        s.to_multiset_ensures();
    } else {
        let d = s.drop_last();
        lemma_insert_desc(d, x);
        let t = insert_desc(d, x);
        t.to_multiset_ensures();
        d.to_multiset_ensures();
        assert(s =~= d.push(s.last()));
        assert forall|i: int| 0 <= i < t.len() implies t[i].0 >= s.last().0 by {
            assert(t.to_multiset().count(t[i]) > 0);
            if t[i] != x {
                assert(d.to_multiset().count(t[i]) > 0);
                assert(d.contains(t[i]));
            }
        }
        assert(t.push(s.last()).to_multiset() =~= s.to_multiset().insert(x));
    }
}

/// Sorting yields a sorted permutation of its input.
pub proof fn lemma_sort_desc(s: Seq<Ranked>)
    ensures
        sorted_desc(sort_desc(s)),
        sort_desc(s).len() == s.len(),
        sort_desc(s).to_multiset() == s.to_multiset(),
    decreases s.len(),
{
    if s.len() == 0 {
    } else {
        let d = s.drop_last();
        lemma_sort_desc(d);
        lemma_insert_desc(sort_desc(d), s.last());
        d.to_multiset_ensures();
        assert(s =~= d.push(s.last()));
    }
}

/// The position at which `x` enters `v`: after every entry of weight at
/// least `x`'s.
fn insert_position(v: &Vec<Ranked>, x: Ranked) -> (j: usize)
    ensures
        j <= v@.len(),
        insert_desc(v@, x) == v@.subrange(0, j as int).push(x) + v@.subrange(j as int, v@.len() as int),
{
    let mut j: usize = v.len();
    proof {
        assert(v@.subrange(0, j as int) =~= v@);
        assert(insert_desc(v@, x) =~= insert_desc(v@, x) + v@.subrange(j as int, j as int));
    }
    while j > 0 && v[j - 1].0 < x.0
        invariant
            j <= v@.len(),
            insert_desc(v@, x) == insert_desc(v@.subrange(0, j as int), x) + v@.subrange(
                j as int,
                v@.len() as int,
            ),
        decreases j,
    {
        proof {
            let pre = v@.subrange(0, j as int);
            assert(pre.drop_last() =~= v@.subrange(0, j - 1));
            assert(insert_desc(pre, x) == insert_desc(pre.drop_last(), x).push(pre.last()));
            assert(insert_desc(pre.drop_last(), x).push(pre.last()) + v@.subrange(j as int, v@.len() as int)
                =~= insert_desc(pre.drop_last(), x) + v@.subrange(j - 1, v@.len() as int));
        }
        j = j - 1;
    }
    proof {
        let pre = v@.subrange(0, j as int);
        if j == 0 {
            assert(pre.len() == 0);
            assert(insert_desc(pre, x) =~= pre.push(x));
        }
    }
    j
}

/// Stably sorts rank entries by descending weight.
pub fn sort_by_weight_desc(items: &Vec<Ranked>) -> (r: Vec<Ranked>)
    ensures
        r@ == sort_desc(items@),
{
    let mut out: Vec<Ranked> = Vec::new();
    let mut i: usize = 0;
    while i < items.len()
        invariant
            i <= items@.len(),
            out@ == sort_desc(items@.subrange(0, i as int)),
        decreases items@.len() - i,
    {
        let x = items[i];
        let j = insert_position(&out, x);
        proof {
            let pre = items@.subrange(0, i + 1);
            assert(pre.drop_last() =~= items@.subrange(0, i as int));
        }
        out.insert(j, x);
        proof {
            assert(out@ =~= sort_desc(items@.subrange(0, i + 1)));
        }
        i = i + 1;
    }
    proof {
        assert(items@.subrange(0, i as int) =~= items@);
    }
    out
}

/// Each entry holds its own position as its index.
pub open spec fn indexed(w: Seq<Ranked>) -> bool {
    forall|i: int| 0 <= i < w.len() ==> #[trigger] w[i].1 == i
}

/// Sorting indexed entries keeps each entry exactly where its index points,
/// and every entry appears in the sorted sequence.
pub proof fn lemma_sort_indexed(w: Seq<Ranked>)
    requires
        indexed(w),
    ensures
        sorted_desc(sort_desc(w)),
        sort_desc(w).len() == w.len(),
        forall|j: int|
            0 <= j < w.len() ==> (#[trigger] sort_desc(w)[j]).1 < w.len() && w[sort_desc(w)[j].1 as int]
                == sort_desc(w)[j],
        forall|i: int| 0 <= i < w.len() ==> exists|j: int| 0 <= j < w.len() && sort_desc(w)[j] == #[trigger] w[i],
{
    let s = sort_desc(w);
    lemma_sort_desc(w);
    s.to_multiset_ensures();
    w.to_multiset_ensures();
    assert forall|j: int| 0 <= j < w.len() implies (#[trigger] s[j]).1 < w.len() && w[s[j].1 as int] == s[j] by {
        assert(s.to_multiset().count(s[j]) > 0);
        assert(w.contains(s[j]));
        let i = choose|i: int| 0 <= i < w.len() && w[i] == s[j];
        assert(w[i].1 == i);
    }
    assert forall|i: int| 0 <= i < w.len() implies exists|j: int| 0 <= j < w.len() && s[j] == #[trigger] w[i] by {
        assert(w.to_multiset().count(w[i]) > 0);
        assert(s.contains(w[i]));
    }
}

/// Rank entries of a flow table: each flow's byte total and its index.
pub open spec fn flow_weights(t: Seq<FlowEntry>) -> Seq<Ranked> {
    Seq::new(t.len(), |i: int| (t[i].1.total_bytes, i as usize))
}

/// Rank entries of a port table: each port's byte total and its index.
pub open spec fn port_weights(t: Seq<PortEntry>) -> Seq<Ranked> {
    Seq::new(t.len(), |i: int| (t[i].1.total_bytes, i as usize))
}

/// The smaller of `a` and `b`.
pub open spec fn min_len(a: int, b: int) -> int {
    if a < b {
        a
    } else {
        b
    }
}

/// One ranked flow of a window.
#[derive(Clone, Copy, Debug, PartialEq, Eq, Structural)]
pub struct FlowStat {
    pub src_ip: IpAddress,
    pub src_port: u16,
    pub dst_ip: IpAddress,
    pub dst_port: u16,
    pub protocol: Protocol,
    pub packet_count: usize,
    pub total_bytes: usize,
    pub duration_us: u64,
    pub start_us: u64,
    pub end_us: u64,
}

/// The ranked record of a flow-table entry.
pub open spec fn flow_stat(e: FlowEntry) -> FlowStat {
    FlowStat {
        src_ip: e.0.src_ip,
        src_port: e.0.src_port,
        dst_ip: e.0.dst_ip,
        dst_port: e.0.dst_port,
        protocol: e.0.protocol,
        packet_count: e.1.packet_count,
        total_bytes: e.1.total_bytes,
        duration_us: flow_duration(e.1),
        start_us: e.1.first_seen_us,
        end_us: e.1.last_seen_us,
    }
}

/// One ranked destination port of a window.
#[derive(Clone, Copy, Debug)]
pub struct PortStat {
    pub port: u16,
    pub protocol: Protocol,
    pub service_name: &'static str,
    pub packet_count: usize,
    pub total_bytes: usize,
}

/// The well-known service that listens on `port`.
pub open spec fn service_name(port: u16) -> Seq<char> {
    if port == 80 {
        "HTTP"@
    } else if port == 443 {
        "HTTPS"@
    } else if port == 53 {
        "DNS"@
    } else if port == 22 {
        "SSH"@
    } else if port == 25 {
        "SMTP"@
    } else if port == 110 {
        "POP3"@
    } else if port == 143 {
        "IMAP"@
    } else if port == 3389 {
        "RDP"@
    } else if port == 3306 {
        "MySQL"@
    } else if port == 5432 {
        "Postgres"@
    } else {
        "Unknown"@
    }
}

/// `s` is the ranked record of port-table entry `e`.
pub open spec fn port_stat_of(s: PortStat, e: PortEntry) -> bool {
    &&& s.port == e.0.port
    &&& s.protocol == e.0.protocol
    &&& s.service_name@ == service_name(e.0.port)
    &&& s.packet_count == e.1.packet_count
    &&& s.total_bytes == e.1.total_bytes
}

/// Resolves the well-known service name of a port, or "Unknown".
pub fn service_name_for_port(port: u16) -> (r: &'static str)
    ensures
        r@ == service_name(port),
{
    match port {
        80 => "HTTP",
        443 => "HTTPS",
        53 => "DNS",
        22 => "SSH",
        25 => "SMTP",
        110 => "POP3",
        143 => "IMAP",
        3389 => "RDP",
        3306 => "MySQL",
        5432 => "Postgres",
        _ => "Unknown",
    }
}

/// The `limit` flows with the most bytes, most first; flows of equal byte
/// totals keep table order. Every flow left out has no more bytes than the
/// last one kept.
pub fn build_top_flows(flows: &Vec<FlowEntry>, limit: usize) -> (r: Vec<FlowStat>)
    ensures
        r@.len() == min_len(limit as int, flows@.len() as int),
        forall|j: int|
            0 <= j < r@.len() ==> r@[j] == flow_stat(
                flows@[sort_desc(flow_weights(flows@))[j].1 as int],
            ),
        forall|i: int, j: int| 0 <= i < j < r@.len() ==> r@[i].total_bytes >= r@[j].total_bytes,
        forall|i: int|
            0 <= i < flows@.len() && r@.len() > 0 ==> (exists|j: int|
                0 <= j < r@.len() && sort_desc(flow_weights(flows@))[j].1 == i) || (
            #[trigger] flows@[i]).1.total_bytes <= r@[r@.len() - 1].total_bytes,
{
    let mut w: Vec<Ranked> = Vec::new();
    let mut i: usize = 0;
    while i < flows.len()
        invariant
            i <= flows@.len(),
            w@.len() == i,
            forall|k: int| 0 <= k < i ==> w@[k] == (flows@[k].1.total_bytes, k as usize),
        decreases flows@.len() - i,
    {
        w.push((flows[i].1.total_bytes, i));
        i = i + 1;
    }
    assert(w@ =~= flow_weights(flows@));
    let ranked = sort_by_weight_desc(&w);
    proof {
        lemma_sort_indexed(w@);
    }
    let n: usize = if limit < ranked.len() {
        limit
    } else {
        ranked.len()
    };
    let mut out: Vec<FlowStat> = Vec::new();
    let mut j: usize = 0;
    while j < n
        invariant
            n <= ranked@.len(),
            ranked@.len() == flows@.len(),
            ranked@ == sort_desc(flow_weights(flows@)),
            j <= n,
            out@.len() == j,
            forall|k: int| 0 <= k < j ==> out@[k] == flow_stat(flows@[ranked@[k].1 as int]),
            forall|k: int|
                0 <= k < ranked@.len() ==> (#[trigger] ranked@[k]).1 < flows@.len()
                    && flow_weights(flows@)[ranked@[k].1 as int] == ranked@[k],
        decreases n - j,
    {
        let idx = ranked[j].1;
        let e = flows[idx];
        let d = e.1.duration_us();
        out.push(
            FlowStat {
                src_ip: e.0.src_ip,
                src_port: e.0.src_port,
                dst_ip: e.0.dst_ip,
                dst_port: e.0.dst_port,
                protocol: e.0.protocol,
                packet_count: e.1.packet_count,
                total_bytes: e.1.total_bytes,
                duration_us: d,
                start_us: e.1.first_seen_us,
                end_us: e.1.last_seen_us,
            },
        );
        j = j + 1;
    }
    proof {
        let s = sort_desc(flow_weights(flows@));
        assert forall|a: int, b: int| 0 <= a < b < out@.len() implies out@[a].total_bytes
            >= out@[b].total_bytes by {
            assert(s[a].0 >= s[b].0);
            assert(ranked@[a] == s[a] && ranked@[b] == s[b]);
        }
        assert forall|i: int|
            0 <= i < flows@.len() && out@.len() > 0 implies (exists|j: int|
                0 <= j < out@.len() && s[j].1 == i) || (#[trigger] flows@[i]).1.total_bytes
            <= out@[out@.len() - 1].total_bytes by {
            let fw = flow_weights(flows@);
            assert(fw[i].1 == i);
            let k = choose|k: int| 0 <= k < fw.len() && s[k] == #[trigger] fw[i];
            if k >= out@.len() {
                assert(s[out@.len() - 1].0 >= s[k].0);
                assert(ranked@[out@.len() - 1] == s[out@.len() - 1]);
            }
        }
    }
    out
}

/// The `limit` destination ports with the most bytes, most first, each
/// with its service name; ports of equal byte totals keep table order. Every
/// port left out has no more bytes than the last one kept.
pub fn build_top_ports(ports: &Vec<PortEntry>, limit: usize) -> (r: Vec<PortStat>)
    ensures
        r@.len() == min_len(limit as int, ports@.len() as int),
        forall|j: int|
            0 <= j < r@.len() ==> port_stat_of(
                r@[j],
                ports@[sort_desc(port_weights(ports@))[j].1 as int],
            ),
        forall|i: int, j: int| 0 <= i < j < r@.len() ==> r@[i].total_bytes >= r@[j].total_bytes,
        forall|i: int|
            0 <= i < ports@.len() && r@.len() > 0 ==> (exists|j: int|
                0 <= j < r@.len() && sort_desc(port_weights(ports@))[j].1 == i) || (
            #[trigger] ports@[i]).1.total_bytes <= r@[r@.len() - 1].total_bytes,
{
    let mut w: Vec<Ranked> = Vec::new();
    let mut i: usize = 0;
    while i < ports.len()
        invariant
            i <= ports@.len(),
            w@.len() == i,
            forall|k: int| 0 <= k < i ==> w@[k] == (ports@[k].1.total_bytes, k as usize),
        decreases ports@.len() - i,
    {
        w.push((ports[i].1.total_bytes, i));
        i = i + 1;
    }
    assert(w@ =~= port_weights(ports@));
    let ranked = sort_by_weight_desc(&w);
    proof {
        lemma_sort_indexed(w@);
    }
    let n: usize = if limit < ranked.len() {
        limit
    } else {
        ranked.len()
    };
    let mut out: Vec<PortStat> = Vec::new();
    let mut j: usize = 0;
    while j < n
        invariant
            n <= ranked@.len(),
            ranked@.len() == ports@.len(),
            ranked@ == sort_desc(port_weights(ports@)),
            j <= n,
            out@.len() == j,
            forall|k: int| 0 <= k < j ==> port_stat_of(out@[k], ports@[ranked@[k].1 as int]),
            forall|k: int|
                0 <= k < ranked@.len() ==> (#[trigger] ranked@[k]).1 < ports@.len()
                    && port_weights(ports@)[ranked@[k].1 as int] == ranked@[k],
        decreases n - j,
    {
        let idx = ranked[j].1;
        let e = ports[idx];
        out.push(
            PortStat {
                port: e.0.port,
                protocol: e.0.protocol,
                service_name: service_name_for_port(e.0.port),
                packet_count: e.1.packet_count,
                total_bytes: e.1.total_bytes,
            },
        );
        j = j + 1;
    }
    proof {
        let s = sort_desc(port_weights(ports@));
        assert forall|a: int, b: int| 0 <= a < b < out@.len() implies out@[a].total_bytes
            >= out@[b].total_bytes by {
            assert(s[a].0 >= s[b].0);
            assert(ranked@[a] == s[a] && ranked@[b] == s[b]);
        }
        assert forall|i: int|
            0 <= i < ports@.len() && out@.len() > 0 implies (exists|j: int|
                0 <= j < out@.len() && s[j].1 == i) || (#[trigger] ports@[i]).1.total_bytes
            <= out@[out@.len() - 1].total_bytes by {
            let pw = port_weights(ports@);
            assert(pw[i].1 == i);
            let k = choose|k: int| 0 <= k < pw.len() && s[k] == #[trigger] pw[i];
            if k >= out@.len() {
                assert(s[out@.len() - 1].0 >= s[k].0);
                assert(ranked@[out@.len() - 1] == s[out@.len() - 1]);
            }
        }
    }
    out
}

} // verus!
