//! Flow identifiers: the values the translation table maps between.
//!
//! A flow is identified by its transport protocol together with the source
//! and destination IPv4 addresses and ports. Two identifiers are equal iff
//! all five fields are equal; identifiers are immutable plain values and are
//! copied, never shared.

use vstd::prelude::*;

verus! {

/// IP protocol number for TCP.
pub const PROTOCOL_TCP: u8 = 6;

/// IP protocol number for UDP.
pub const PROTOCOL_UDP: u8 = 17;

/// IP protocol number for ICMP.
pub const PROTOCOL_ICMP: u8 = 1;

/// An IPv4 address, held as its 32-bit big-endian numeric value.
#[derive(Clone, Copy, Debug, PartialEq, Eq, Structural, Hash)]
pub struct Ipv4Address {
    /// The address as a single 32-bit value, most significant octet first.
    pub bits: u32,
}

impl Ipv4Address {
    /// Builds the address `a.b.c.d`.
    pub fn new(a: u8, b: u8, c: u8, d: u8) -> (r: Ipv4Address)
        ensures
            r.bits == a * 0x100_0000 + b * 0x1_0000 + c * 0x100 + d,
    {
        Ipv4Address {
            bits: (a as u32) * 0x100_0000 + (b as u32) * 0x1_0000 + (c as u32) * 0x100 + (d as u32),
        }
    }
}

/// The identity of one direction-aware flow: protocol, addresses and ports.
///
/// The source port and destination port are meaningless for protocols
/// without ports (such as ICMP); the table never interprets them, it only
/// compares identifiers for equality.
#[derive(Clone, Copy, Debug, PartialEq, Eq, Structural, Hash)]
pub struct FlowIdentifier {
    /// IP protocol number (6 for TCP, 17 for UDP, 1 for ICMP).
    pub protocol: u8,
    /// Source IPv4 address.
    pub src_addr: Ipv4Address,
    /// Destination IPv4 address.
    pub dst_addr: Ipv4Address,
    /// Source transport port.
    pub src_port: u16,
    /// Destination transport port.
    pub dst_port: u16,
}

impl FlowIdentifier {
    /// Builds a flow identifier from its five fields.
    pub fn new(
        protocol: u8,
        src_addr: Ipv4Address,
        dst_addr: Ipv4Address,
        src_port: u16,
        dst_port: u16,
    ) -> (r: FlowIdentifier)
        ensures
            r == (FlowIdentifier { protocol, src_addr, dst_addr, src_port, dst_port }),
    {
        FlowIdentifier { protocol, src_addr, dst_addr, src_port, dst_port }
    }
}

/// The plain-integer form of a flow identifier: the tuple of its five
/// fields, used as the key type of the backing bidirectional hash map so
/// that the map's behaviour rests only on the documented equality and
/// hashing of primitive integers.
pub type RawKey = (u8, u32, u32, u16, u16);

/// The raw key of a flow identifier: its five fields as a tuple.
pub open spec fn key_of(f: FlowIdentifier) -> RawKey {
    (f.protocol, f.src_addr.bits, f.dst_addr.bits, f.src_port, f.dst_port)
}

/// The flow identifier a raw key stands for; inverse of [`key_of`].
pub open spec fn flow_of(k: RawKey) -> FlowIdentifier {
    FlowIdentifier {
        protocol: k.0,
        src_addr: Ipv4Address { bits: k.1 },
        dst_addr: Ipv4Address { bits: k.2 },
        src_port: k.3,
        dst_port: k.4,
    }
}

/// Executable form of [`key_of`].
pub fn raw_key_of(f: &FlowIdentifier) -> (k: RawKey)
    ensures
        k == key_of(*f),
{
    (f.protocol, f.src_addr.bits, f.dst_addr.bits, f.src_port, f.dst_port)
}

/// Executable form of [`flow_of`].
pub fn flow_from_raw(k: &RawKey) -> (f: FlowIdentifier)
    ensures
        f == flow_of(*k),
{
    FlowIdentifier {
        protocol: k.0,
        src_addr: Ipv4Address { bits: k.1 },
        dst_addr: Ipv4Address { bits: k.2 },
        src_port: k.3,
        dst_port: k.4,
    }
}

} // verus!
