use window_features::aggregate::{FlowAgg, FlowEntry, PortAgg, PortEntry};
use window_features::engine::{extract, Extractor};
use window_features::histogram::{build_flow_duration_histogram, build_packet_size_histogram};
use window_features::packet::{
    FlowKey, IpAddress, NetInfo, Packet, PacketClass, PortKey, Protocol, TcpFlags, Transport,
};
use window_features::ranking::{build_top_flows, build_top_ports, service_name_for_port, sort_by_weight_desc};
use window_features::window::{max_packet_size, min_packet_size, sum_of_squares, WindowRecord, WindowState};

const SEC: u64 = 1_000_000;
const A: IpAddress = IpAddress::V4(0x0a00_0001);
const B: IpAddress = IpAddress::V4(0x0a00_0002);

fn flags(syn: bool, ack: bool) -> TcpFlags {
    TcpFlags { syn, ack, rst: false, fin: false }
}

fn tcp(ts: u64, len: u32, src: IpAddress, sport: u16, dst: IpAddress, dport: u16, f: TcpFlags) -> Packet {
    Packet {
        timestamp_us: ts,
        length: len,
        net: Some(NetInfo {
            src_ip: src,
            dst_ip: dst,
            transport: Some(Transport::Tcp { src_port: sport, dst_port: dport, flags: f }),
        }),
    }
}

fn udp(ts: u64, len: u32, src: IpAddress, sport: u16, dst: IpAddress, dport: u16) -> Packet {
    Packet {
        timestamp_us: ts,
        length: len,
        net: Some(NetInfo {
            src_ip: src,
            dst_ip: dst,
            transport: Some(Transport::Udp { src_port: sport, dst_port: dport }),
        }),
    }
}

fn icmp(ts: u64, len: u32) -> Packet {
    Packet { timestamp_us: ts, length: len, net: Some(NetInfo { src_ip: A, dst_ip: B, transport: Some(Transport::Icmp) }) }
}

fn bare(ts: u64, len: u32) -> Packet {
    Packet { timestamp_us: ts, length: len, net: None }
}

fn flow_entry(bytes: usize, port: u16, first: u64, last: u64) -> FlowEntry {
    (
        FlowKey { src_ip: A, src_port: 1000, dst_ip: B, dst_port: port, protocol: Protocol::Tcp },
        FlowAgg { packet_count: 1, total_bytes: bytes, first_seen_us: first, last_seen_us: last },
    )
}

fn check_window_laws(r: &WindowRecord) {
    assert_eq!(r.tcp_count + r.udp_count + r.icmp_count + r.other_count, r.packet_count);
    assert_eq!(r.packet_size_distribution.iter().sum::<usize>(), r.packet_count);
    assert_eq!(r.flow_duration_distribution.iter().sum::<usize>(), r.flow_count);
    assert!(r.top_flows.len() <= 10);
    assert!(r.top_ports.len() <= 10);
    for w in r.top_flows.windows(2) {
        assert!(w[0].total_bytes >= w[1].total_bytes);
    }
    for w in r.top_ports.windows(2) {
        assert!(w[0].total_bytes >= w[1].total_bytes);
    }
    assert_eq!(r.tcp_retransmissions, 0);
}

#[test]
fn boundary_packet_seals_first_window() {
    let pkts = vec![
        tcp(100 * SEC, 60, A, 40000, B, 80, flags(true, false)),
        tcp(105 * SEC, 1400, A, 40000, B, 80, flags(false, true)),
        udp(115 * SEC, 80, A, 5000, B, 53),
    ];
    let out = extract(10 * SEC, &pkts);
    assert_eq!(out.len(), 2);
    let w = &out[0];
    assert_eq!(w.window_start_us, 100 * SEC);
    assert_eq!(w.window_end_us, 110 * SEC);
    assert_eq!(w.packet_count, 2);
    assert_eq!(w.total_bytes, 1460);
    assert_eq!(w.tcp_count, 2);
    assert_eq!(w.tcp_syn_count, 1);
    assert_eq!(w.tcp_ack_count, 1);
    assert_eq!(w.flow_count, 1);
    assert_eq!(out[1].window_start_us, 115 * SEC);
    assert_eq!(out[1].window_end_us, 125 * SEC);
    assert_eq!(out[1].udp_count, 1);
    assert_eq!(out[1].top_ports[0].service_name, "DNS");
    for r in &out {
        check_window_laws(r);
    }
}

#[test]
fn empty_capture_yields_no_windows() {
    let out = extract(10 * SEC, &Vec::new());
    assert_eq!(out.len(), 0);
    let ex = Extractor::new(10 * SEC);
    assert!(ex.finish().is_none());
}

#[test]
fn single_packet_flushed_at_end() {
    let pkts = vec![bare(7 * SEC, 42)];
    let out = extract(10 * SEC, &pkts);
    assert_eq!(out.len(), 1);
    assert_eq!(out[0].packet_count, 1);
    assert_eq!(out[0].other_count, 1);
    assert_eq!(out[0].window_start_us, 7 * SEC);
    assert_eq!(out[0].min_packet_size, 42);
    assert_eq!(out[0].max_packet_size, 42);
    check_window_laws(&out[0]);
}

#[test]
fn streaming_push_and_finish() {
    let mut ex = Extractor::new(10 * SEC);
    let p1 = tcp(0, 100, A, 1, B, 2, flags(false, false));
    assert!(ex.has_room_for(&p1));
    assert!(ex.push(p1).is_none());
    assert!(ex.push(bare(10 * SEC, 50)).is_none());
    let sealed = ex.push(bare(10 * SEC + 1, 70)).expect("window sealed");
    assert_eq!(sealed.packet_count, 2);
    assert_eq!(sealed.total_bytes, 150);
    let last = ex.finish().expect("final flush");
    assert_eq!(last.window_start_us, 10 * SEC + 1);
    assert_eq!(last.packet_count, 1);
}

#[test]
fn packet_on_window_end_stays_in_window() {
    let pkts = vec![bare(0, 10), bare(10 * SEC, 10)];
    let out = extract(10 * SEC, &pkts);
    assert_eq!(out.len(), 1);
    assert_eq!(out[0].packet_count, 2);
}

#[test]
fn gaps_produce_no_empty_windows() {
    let pkts = vec![bare(0, 10), bare(100 * SEC, 20), bare(1000 * SEC, 30)];
    let out = extract(10 * SEC, &pkts);
    assert_eq!(out.len(), 3);
    assert_eq!(out[1].window_start_us, 100 * SEC);
    assert_eq!(out[2].window_start_us, 1000 * SEC);
    for r in &out {
        assert_eq!(r.packet_count, 1);
        assert_eq!(r.window_size_us, 10 * SEC);
    }
}

#[test]
fn classes_are_counted() {
    let pkts = vec![
        tcp(0, 60, A, 1, B, 80, flags(true, true)),
        udp(1, 70, A, 2, B, 53),
        icmp(2, 80),
        bare(3, 90),
        Packet { timestamp_us: 4, length: 100, net: Some(NetInfo { src_ip: B, dst_ip: A, transport: None }) },
    ];
    let out = extract(10 * SEC, &pkts);
    assert_eq!(out.len(), 1);
    let r = &out[0];
    assert_eq!((r.tcp_count, r.udp_count, r.icmp_count, r.other_count), (1, 1, 1, 2));
    assert_eq!(r.unique_src_ips, 2);
    assert_eq!(r.unique_dst_ips, 2);
    assert_eq!(r.flow_count, 2);
    assert_eq!(r.port_diversity, 2);
    assert_eq!(r.min_packet_size, 60);
    assert_eq!(r.max_packet_size, 100);
    assert_eq!(r.size_sum_of_squares, 3600 + 4900 + 6400 + 8100 + 10000);
    assert_eq!(r.packet_size_distribution, vec![1, 4, 0, 0, 0, 0]);
    assert_eq!(pkts[2].class(), PacketClass::Icmp);
    check_window_laws(r);
}

#[test]
fn same_tuple_shares_a_flow() {
    let pkts = vec![
        tcp(0, 100, A, 1234, B, 443, flags(false, true)),
        tcp(3 * SEC, 200, A, 1234, B, 443, flags(false, true)),
    ];
    let out = extract(10 * SEC, &pkts);
    assert_eq!(out[0].flow_count, 1);
    let f = &out[0].top_flows[0];
    assert_eq!(f.packet_count, 2);
    assert_eq!(f.total_bytes, 300);
    assert_eq!(f.start_us, 0);
    assert_eq!(f.end_us, 3 * SEC);
    assert_eq!(f.duration_us, 3 * SEC);
    assert_eq!(out[0].port_diversity, 1);
    assert_eq!(out[0].top_ports[0].service_name, "HTTPS");
    assert_eq!(out[0].top_ports[0].packet_count, 2);
}

#[test]
fn reversed_tuple_is_another_flow() {
    let pkts = vec![tcp(0, 100, A, 1234, B, 443, flags(false, false)), tcp(1, 100, B, 443, A, 1234, flags(false, false))];
    let out = extract(10 * SEC, &pkts);
    assert_eq!(out[0].flow_count, 2);
    assert_eq!(out[0].port_diversity, 2);
    let a = pkts[0].flow_key().unwrap();
    let b = pkts[1].flow_key().unwrap();
    assert_ne!(a, b);
}

#[test]
fn tcp_and_udp_on_one_port_are_two_ports() {
    let pkts = vec![tcp(0, 10, A, 1, B, 53, flags(false, false)), udp(1, 10, A, 1, B, 53)];
    let out = extract(10 * SEC, &pkts);
    assert_eq!(out[0].flow_count, 2);
    assert_eq!(out[0].port_diversity, 2);
}

#[test]
fn reprocessing_is_identical() {
    let mut pkts = Vec::new();
    for i in 0..40u64 {
        let len = (i as u32 * 37) % 1500 + 40;
        pkts.push(tcp(i * SEC / 2, len, A, 1000 + (i % 13) as u16, B, 80 + (i % 7) as u16, flags(i % 2 == 0, true)));
    }
    let a = extract(10 * SEC, &pkts);
    let b = extract(10 * SEC, &pkts);
    assert_eq!(format!("{:?}", a), format!("{:?}", b));
    assert_eq!(a.len(), 2);
    for r in &a {
        check_window_laws(r);
    }
}

#[test]
fn size_histogram_bucket_edges() {
    let sizes = [0u32, 64, 65, 128, 129, 256, 257, 512, 513, 1024, 1025, 1500, 9000];
    assert_eq!(build_packet_size_histogram(&sizes), vec![2, 2, 2, 2, 2, 3]);
    assert_eq!(build_packet_size_histogram(&[]), vec![0, 0, 0, 0, 0, 0]);
}

#[test]
fn duration_histogram_bucket_edges() {
    let flows = vec![
        flow_entry(1, 1, 0, 0),
        flow_entry(1, 2, 0, 5 * SEC),
        flow_entry(1, 3, 0, 5 * SEC + 1),
        flow_entry(1, 4, 0, 10 * SEC),
        flow_entry(1, 5, 0, 20 * SEC),
        flow_entry(1, 6, 0, 30 * SEC),
        flow_entry(1, 7, 0, 30 * SEC + 1),
        flow_entry(1, 8, 9 * SEC, 2 * SEC),
    ];
    assert_eq!(build_flow_duration_histogram(&flows), vec![3, 2, 1, 1, 1]);
    assert_eq!(flows[7].1.duration_us(), 0);
}

#[test]
fn service_names() {
    let expected = [
        (80, "HTTP"),
        (443, "HTTPS"),
        (53, "DNS"),
        (22, "SSH"),
        (25, "SMTP"),
        (110, "POP3"),
        (143, "IMAP"),
        (3389, "RDP"),
        (3306, "MySQL"),
        (5432, "Postgres"),
        (8080, "Unknown"),
        (0, "Unknown"),
    ];
    for (port, name) in expected {
        assert_eq!(service_name_for_port(port), name);
    }
}

#[test]
fn top_flows_are_truncated_and_ordered() {
    let flows: Vec<FlowEntry> = (0..12u16).map(|i| flow_entry(((i as usize) * 7) % 12 * 10, i, 0, SEC)).collect();
    let top = build_top_flows(&flows, 10);
    assert_eq!(top.len(), 10);
    let bytes: Vec<usize> = top.iter().map(|f| f.total_bytes).collect();
    assert_eq!(bytes, vec![110, 100, 90, 80, 70, 60, 50, 40, 30, 20]);
    assert_eq!(top[0].dst_port, 5);
    assert_eq!(top[0].duration_us, SEC);
    assert_eq!(build_top_flows(&flows, 3).len(), 3);
    assert_eq!(build_top_flows(&Vec::new(), 10).len(), 0);
}

#[test]
fn top_ports_ties_keep_table_order() {
    let ports: Vec<PortEntry> = vec![
        (PortKey { port: 22, protocol: Protocol::Tcp }, PortAgg { packet_count: 1, total_bytes: 50 }),
        (PortKey { port: 80, protocol: Protocol::Tcp }, PortAgg { packet_count: 2, total_bytes: 90 }),
        (PortKey { port: 53, protocol: Protocol::Udp }, PortAgg { packet_count: 3, total_bytes: 50 }),
    ];
    let top = build_top_ports(&ports, 10);
    let order: Vec<u16> = top.iter().map(|p| p.port).collect();
    assert_eq!(order, vec![80, 22, 53]);
    assert_eq!(top[0].service_name, "HTTP");
    assert_eq!(top[2].protocol, Protocol::Udp);
    assert_eq!(top[2].packet_count, 3);
    assert_eq!(build_top_ports(&ports, 1).len(), 1);
}

#[test]
fn stable_descending_sort() {
    let v = vec![(5usize, 0usize), (9, 1), (5, 2), (1, 3), (9, 4)];
    assert_eq!(sort_by_weight_desc(&v), vec![(9, 1), (9, 4), (5, 0), (5, 2), (1, 3)]);
}

#[test]
fn size_statistics() {
    let sizes = vec![300u32, 20, 4000, 20];
    assert_eq!(min_packet_size(&sizes), 20);
    assert_eq!(max_packet_size(&sizes), 4000);
    assert_eq!(sum_of_squares(&sizes), 90_000 + 400 + 16_000_000 + 400);
    assert_eq!(min_packet_size(&Vec::new()), 0);
    assert_eq!(max_packet_size(&Vec::new()), 0);
    assert_eq!(sum_of_squares(&vec![u32::MAX]), (u32::MAX as u128) * (u32::MAX as u128));
}

#[test]
fn window_state_seals_what_it_took() {
    let mut st = WindowState::new();
    st.add_packet(tcp(5, 1500, A, 9, B, 3389, TcpFlags { syn: false, ack: true, rst: true, fin: true }));
    st.add_packet(udp(6, 64, B, 9, A, 5432));
    let r = st.finalize(5, 10 * SEC);
    assert_eq!(r.window_end_us, 5 + 10 * SEC);
    assert_eq!(r.total_bytes, 1564);
    assert_eq!((r.tcp_rst_count, r.tcp_fin_count, r.tcp_ack_count, r.tcp_syn_count), (1, 1, 1, 0));
    assert_eq!(r.packet_size_distribution, vec![1, 0, 0, 0, 0, 1]);
    assert_eq!(r.flow_duration_distribution, vec![2, 0, 0, 0, 0]);
    assert_eq!(r.top_ports[0].service_name, "RDP");
    assert_eq!(r.top_ports[1].service_name, "Postgres");
    check_window_laws(&r);
}

#[test]
fn top_lists_hold_at_most_ten() {
    let mut pkts = Vec::new();
    for i in 0..25u32 {
        pkts.push(udp(i as u64, 100 + i, A, 2000 + i as u16, B, 3000 + i as u16));
    }
    let out = extract(10 * SEC, &pkts);
    assert_eq!(out.len(), 1);
    assert_eq!(out[0].flow_count, 25);
    assert_eq!(out[0].top_flows.len(), 10);
    assert_eq!(out[0].top_ports.len(), 10);
    assert_eq!(out[0].top_flows[0].total_bytes, 124);
    assert_eq!(out[0].top_ports[9].total_bytes, 115);
    check_window_laws(&out[0]);
}
