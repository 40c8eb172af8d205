//! Decision logic of the two worker threads.
//!
//! The sender worker is the sole consumer of the control queue: for each
//! control message it either serializes the carried events, in list order,
//! into address-tagged packets for the transport, or ends its current drain
//! pass. The receiver worker is the sole producer into the data queue: it
//! forwards inbound packets and drops every other transport notification.
//! The blocking queue and socket calls themselves live with the caller; these
//! functions decide what each message or notification amounts to.

use vstd::prelude::*;

use crate::codec::{encode, encode_spec, EventView};
use crate::dispatch::{InternalSocketEvent, MsgView};
use crate::types::{packet_views, Addr, PacketView, RawPacket};

verus! {

/// What the sender worker does with one control message.
#[derive(Debug)]
pub enum SenderAction {
    /// Hand these packets, in order, to the transport.
    Transmit(Vec<RawPacket>),
    /// End the current drain pass.
    Stop,
}

/// The packets that forwarding `events` to the peer at `target` puts on the
/// wire: one packet per event, in list order, each tagged with `target`.
pub open spec fn wire_packets(target: Addr, events: Seq<EventView>) -> Seq<PacketView> {
    events.map_values(|e: EventView| PacketView { addr: target, payload: encode_spec(e) })
}

/// Turn one control message into the sender worker's action: serialize each
/// carried event, in list order, to the carried target, or stop draining.
pub fn sender_step(msg: InternalSocketEvent) -> (action: SenderAction)
    ensures
        (msg@ is Stop) <==> (action is Stop),
        (msg@ matches MsgView::SendEvents { target, events } ==> action matches
            SenderAction::Transmit(out) && packet_views(out@) == wire_packets(target, events)),
{
    match msg {
        InternalSocketEvent::SendEvents { target, events } => {
            let ghost evs: Seq<EventView> = crate::codec::event_views(events@);
            let mut out: Vec<RawPacket> = Vec::new();
            let n = events.len();
            let mut i: usize = 0;
            while i < n
                invariant
                    i <= n,
                    n == events@.len(),
                    out@.len() == i,
                    evs == crate::codec::event_views(events@),
                    packet_views(out@) == wire_packets(target, evs).take(i as int),
                decreases n - i,
            {
                let payload = encode(&events[i]);
                proof {
                    assert(payload@ == encode_spec(events@[i as int]@));
                    assert(evs[i as int] == events@[i as int]@);
                    assert(payload@ == encode_spec(evs[i as int]));
                }
                let ghost pv: Seq<u8> = payload@;
                let ghost pre_out: Seq<RawPacket> = out@;
                out.push(RawPacket { addr: target, payload });
                proof {
                    let wp = wire_packets(target, evs);
                    assert(out@.len() == i + 1);
                    assert(out@[i as int]@ == PacketView { addr: target, payload: pv });
                    assert(wp[i as int] == PacketView {
                        addr: target,
                        payload: encode_spec(evs[i as int]),
                    });
                    assert forall|m: int| 0 <= m < i + 1 implies packet_views(out@)[m] == wp.take(
                        i + 1,
                    )[m] by {
                        assert(packet_views(out@)[m] == out@[m]@);
                        if m < i {
                            assert(out@[m] == pre_out[m]);
                            assert(packet_views(pre_out)[m] == wp.take(i as int)[m]);
                        }
                    }
                    assert(packet_views(out@) =~= wire_packets(target, evs).take(i + 1));
                }
                i = i + 1;
            }
            proof {
                assert(wire_packets(target, evs).take(n as int) =~~= wire_packets(target, evs));
            }
            SenderAction::Transmit(out)
        },
        InternalSocketEvent::Stop => SenderAction::Stop,
    }
}

/// A transport-level notification as the receiver worker sees it: an inbound
/// packet, or anything else, which the core does not support and drops.
#[derive(Debug)]
pub enum TransportNotification {
    /// An inbound datagram.
    Packet(RawPacket),
    /// Any other transport event (a timeout, a link notice, ...).
    Unsupported,
}

/// Turn one transport notification into what the receiver worker forwards
/// into the data queue: the packet itself, unchanged and exactly once, or
/// nothing.
pub fn receiver_step(notification: TransportNotification) -> (r: Option<RawPacket>)
    ensures
        (notification matches TransportNotification::Packet(p) ==> r matches Some(q) && q == p),
        (notification is Unsupported ==> r is None),
{
    match notification {
        TransportNotification::Packet(p) => Some(p),
        TransportNotification::Unsupported => None,
    }
}

} // verus!
