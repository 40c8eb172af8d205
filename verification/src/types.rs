//! Plain data carried across the multiplexer: network addresses, raw
//! transport datagrams, and the per-tick configuration.

use vstd::prelude::*;

verus! {

/// A network address: an IP (IPv4 addresses are embedded in the 128-bit
/// space) together with a port. It is the unique key of a connection.
#[derive(PartialEq, Eq, Structural, Clone, Copy, Debug, Hash)]
pub struct Addr {
    pub ip: u128,
    pub port: u16,
}

/// An opaque transport datagram: the address of the peer and the raw payload
/// bytes. The transport gives no guarantee of ordering, delivery or
/// deduplication.
#[derive(Debug)]
pub struct RawPacket {
    pub addr: Addr,
    pub payload: Vec<u8>,
}

/// The mathematical value of a [`RawPacket`].
#[verifier::ext_equal]
pub struct PacketView {
    pub addr: Addr,
    pub payload: Seq<u8>,
}

impl View for RawPacket {
    type V = PacketView;

    open spec fn view(&self) -> PacketView {
        PacketView { addr: self.addr, payload: self.payload@ }
    }
}

/// The views of a sequence of raw packets.
pub open spec fn packet_views(s: Seq<RawPacket>) -> Seq<PacketView> {
    s.map_values(|p: RawPacket| p@)
}

/// Per-tick configuration: the address the transport binds, and the maximum
/// number of raw packets drained from the data queue in one tick.
#[derive(Clone, Copy, Debug)]
pub struct TickConfig {
    pub bind: Addr,
    pub max_throughput: u64,
}

impl TickConfig {
    /// The per-tick budget must be a positive integer.
    pub open spec fn valid(&self) -> bool {
        self.max_throughput >= 1
    }
}

/// Ports below 1024 are privileged on most systems; binding one deserves a
/// warning to the operator (it is not an error).
pub fn port_needs_privilege(port: u16) -> (r: bool)
    ensures
        r == (port < 1024),
{
    port < 1024
}

} // verus!
