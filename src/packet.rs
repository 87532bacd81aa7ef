//! Decoded packets and the keys under which they are aggregated.

use vstd::prelude::*;

verus! {

/// An IP address, kept as its numeric value so that keys compare exactly.
#[derive(Clone, Copy, Debug, PartialEq, Eq, Structural)]
pub enum IpAddress {
    V4(u32),
    V6(u128),
}

/// The TCP control flags that the aggregator tallies.
#[derive(Clone, Copy, Debug, PartialEq, Eq, Structural)]
pub struct TcpFlags {
    pub syn: bool,
    pub ack: bool,
    pub rst: bool,
    pub fin: bool,
}

/// The decoded transport header of a packet.
#[derive(Clone, Copy, Debug, PartialEq, Eq, Structural)]
pub enum Transport {
    Tcp { src_port: u16, dst_port: u16, flags: TcpFlags },
    Udp { src_port: u16, dst_port: u16 },
    Icmp,
}

/// The decoded network layer of a packet; `transport` is `None` when the IP
/// payload carries no transport header that could be decoded.
#[derive(Clone, Copy, Debug, PartialEq, Eq, Structural)]
pub struct NetInfo {
    pub src_ip: IpAddress,
    pub dst_ip: IpAddress,
    pub transport: Option<Transport>,
}

/// One captured packet: its timestamp in microseconds, its length in bytes,
/// and its network layer when one could be decoded.
#[derive(Clone, Copy, Debug, PartialEq, Eq, Structural)]
pub struct Packet {
    pub timestamp_us: u64,
    pub length: u32,
    pub net: Option<NetInfo>,
}

/// The transport protocols that flows and ports are tracked for.
#[derive(Clone, Copy, Debug, PartialEq, Eq, Structural)]
pub enum Protocol {
    Tcp,
    Udp,
}

/// The direction-sensitive 5-tuple that identifies a flow within a window.
#[derive(Clone, Copy, Debug, PartialEq, Eq, Structural)]
pub struct FlowKey {
    pub src_ip: IpAddress,
    pub src_port: u16,
    pub dst_ip: IpAddress,
    pub dst_port: u16,
    pub protocol: Protocol,
}

/// A destination port together with its transport protocol.
#[derive(Clone, Copy, Debug, PartialEq, Eq, Structural)]
pub struct PortKey {
    pub port: u16,
    pub protocol: Protocol,
}

/// The protocol class a packet is counted under.
#[derive(Clone, Copy, Debug, PartialEq, Eq, Structural)]
pub enum PacketClass {
    Tcp,
    Udp,
    Icmp,
    Other,
}

/// The class of a packet: packets without a decoded network layer, or whose
/// network layer carries no known transport header, are `Other`.
pub open spec fn class_of(p: Packet) -> PacketClass {
    match p.net {
        None => PacketClass::Other,
        Some(n) => match n.transport {
            None => PacketClass::Other,
            Some(Transport::Tcp { .. }) => PacketClass::Tcp,
            Some(Transport::Udp { .. }) => PacketClass::Udp,
            Some(Transport::Icmp) => PacketClass::Icmp,
        },
    }
}

/// The flow a packet belongs to; only TCP and UDP packets have one.
pub open spec fn flow_key_of(p: Packet) -> Option<FlowKey> {
    match p.net {
        None => None,
        Some(n) => match n.transport {
            Some(Transport::Tcp { src_port, dst_port, .. }) => Some(
                FlowKey { src_ip: n.src_ip, src_port, dst_ip: n.dst_ip, dst_port, protocol: Protocol::Tcp },
            ),
            Some(Transport::Udp { src_port, dst_port }) => Some(
                FlowKey { src_ip: n.src_ip, src_port, dst_ip: n.dst_ip, dst_port, protocol: Protocol::Udp },
            ),
            _ => None,
        },
    }
}

/// The port entry a packet is counted under: its flow's destination port.
pub open spec fn port_key_of(p: Packet) -> Option<PortKey> {
    match flow_key_of(p) {
        None => None,
        Some(k) => Some(PortKey { port: k.dst_port, protocol: k.protocol }),
    }
}

/// The TCP flags of a packet, when it is a TCP packet.
pub open spec fn flags_of(p: Packet) -> Option<TcpFlags> {
    match p.net {
        Some(n) => match n.transport {
            Some(Transport::Tcp { flags, .. }) => Some(flags),
            _ => None,
        },
        None => None,
    }
}

impl Packet {
    /// Classifies the packet by protocol.
    pub fn class(&self) -> (r: PacketClass)
        ensures
            r == class_of(*self),
    {
        match self.net {
            None => PacketClass::Other,
            Some(n) => match n.transport {
                None => PacketClass::Other,
                Some(Transport::Tcp { .. }) => PacketClass::Tcp,
                Some(Transport::Udp { .. }) => PacketClass::Udp,
                Some(Transport::Icmp) => PacketClass::Icmp,
            },
        }
    }

    /// The 5-tuple of the packet's flow, for TCP and UDP packets.
    pub fn flow_key(&self) -> (r: Option<FlowKey>)
        ensures
            r == flow_key_of(*self),
    {
        match self.net {
            None => None,
            Some(n) => match n.transport {
                Some(Transport::Tcp { src_port, dst_port, .. }) => Some(
                    FlowKey {
                        src_ip: n.src_ip,
                        src_port,
                        dst_ip: n.dst_ip,
                        dst_port,
                        protocol: Protocol::Tcp,
                    },
                ),
                Some(Transport::Udp { src_port, dst_port }) => Some(
                    FlowKey {
                        src_ip: n.src_ip,
                        src_port,
                        dst_ip: n.dst_ip,
                        dst_port,
                        protocol: Protocol::Udp,
                    },
                ),
                _ => None,
            },
        }
    }
}

} // verus!
