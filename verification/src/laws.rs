//! Laws of the dispatch loop, stated over its specification functions and
//! proved once and for all.

use vstd::prelude::*;

use crate::codec::{decode_spec, EventView};
use crate::dispatch::{
    control_for, deliver_all, deliver_packet, drain_all, forwards_this_tick,
    lemma_deliver_packet_preserves_uniqueness, phase_a_msgs, MsgView,
};
use crate::registry::{
    fresh_connection, has_addr, idx_of, unique_addrs, ConnectionState, ConnectionView,
};
use crate::types::{Addr, PacketView};

verus! {

/// The outgoing-event lists that `msgs` carries to the peer at `a`, in
/// emission order.
pub open spec fn sends_for(msgs: Seq<MsgView>, a: Addr) -> Seq<Seq<EventView>>
    decreases msgs.len(),
{
    if msgs.len() == 0 {
        Seq::empty()
    } else {
        sends_for(msgs.drop_last(), a) + (match msgs.last() {
            MsgView::SendEvents { target, events } => if target == a {
                seq![events]
            } else {
                Seq::empty()
            },
            MsgView::Stop => Seq::empty(),
        })
    }
}

/// Phase A carries nothing to an address that keys no connection.
pub proof fn lemma_no_sends_for_absent(conns: Seq<ConnectionView>, a: Addr)
    requires
        !has_addr(conns, a),
    ensures
        sends_for(phase_a_msgs(conns), a) == Seq::<Seq<EventView>>::empty(),
    decreases conns.len(),
{
    if conns.len() == 0 {
    } else {
        let prefix = conns.drop_last();
        assert(!has_addr(prefix, a)) by {
            if has_addr(prefix, a) {
                let w = choose|w: int| 0 <= w < prefix.len() && prefix[w].target_addr == a;
                assert(conns[w].target_addr == a);
            }
        }
        lemma_no_sends_for_absent(prefix, a);
        let last = conns.last();
        assert(last.target_addr != a) by {
            assert(conns[conns.len() - 1] == last);
        }
        let x = phase_a_msgs(prefix);
        let y = control_for(last);
        if y.len() == 0 {
            assert(x + y =~= x);
        } else {
            assert((x + y).drop_last() =~= x);
            assert((x + y).last() == y[0]);
            assert(sends_for(x + y, a) == sends_for(x, a) + Seq::<Seq<EventView>>::empty());
            assert(sends_for(x, a) + Seq::<Seq<EventView>>::empty() =~= sends_for(x, a));
        }
    }
}

/// Law: exactly-once drain. For a connection that forwards this tick, the
/// control messages of Phase A carry its outgoing buffer exactly once, whole
/// and in order, and Phase A leaves that buffer empty.
pub proof fn lemma_exactly_once_forward(conns: Seq<ConnectionView>, i: int)
    requires
        unique_addrs(conns),
        0 <= i < conns.len(),
        forwards_this_tick(conns[i]),
    ensures
        sends_for(phase_a_msgs(conns), conns[i].target_addr) == seq![conns[i].send_buffer],
        drain_all(conns)[i].send_buffer == Seq::<EventView>::empty(),
    decreases conns.len(),
{
    let a = conns[i].target_addr;
    let prefix = conns.drop_last();
    let last = conns.last();
    let x = phase_a_msgs(prefix);
    let y = control_for(last);
    if i == conns.len() - 1 {
        assert(!has_addr(prefix, a)) by {
            if has_addr(prefix, a) {
                let w = choose|w: int| 0 <= w < prefix.len() && prefix[w].target_addr == a;
                assert(conns[w].target_addr == conns[i].target_addr);
            }
        }
        lemma_no_sends_for_absent(prefix, a);
        assert(y == seq![MsgView::SendEvents { target: a, events: last.send_buffer }]);
        assert((x + y).drop_last() =~= x);
        assert((x + y).last() == y[0]);
        assert(sends_for(x + y, a) == sends_for(x, a) + seq![last.send_buffer]);
        assert(Seq::<Seq<EventView>>::empty() + seq![last.send_buffer] =~= seq![
            last.send_buffer,
        ]);
    } else {
        assert(unique_addrs(prefix)) by {
            assert forall|p: int, q: int|
                0 <= p < prefix.len() && 0 <= q < prefix.len() && p != q implies prefix[
                p
            ].target_addr != prefix[q].target_addr by {
                assert(conns[p].target_addr != conns[q].target_addr);
            }
        }
        assert(prefix[i] == conns[i]);
        lemma_exactly_once_forward(prefix, i);
        assert(last.target_addr != a) by {
            assert(conns[conns.len() - 1].target_addr != conns[i].target_addr);
        }
        if y.len() == 0 {
            assert(x + y =~= x);
        } else {
            assert((x + y).drop_last() =~= x);
            assert((x + y).last() == y[0]);
            assert(sends_for(x + y, a) == sends_for(x, a) + Seq::<Seq<EventView>>::empty());
            assert(sends_for(x, a) + Seq::<Seq<EventView>>::empty() =~= sends_for(x, a));
        }
    }
}

/// Law: new-connection delivery. A packet from an unrecognized address whose
/// payload decodes yields exactly one new connection, keyed by that address,
/// whose incoming buffer holds exactly the decoded event; every existing
/// connection is untouched, and addresses stay unique.
pub proof fn lemma_new_connection_delivery(conns: Seq<ConnectionView>, p: PacketView)
    requires
        unique_addrs(conns),
        !has_addr(conns, p.addr),
        decode_spec(p.payload) is Ok,
    ensures
        deliver_packet(conns, p).len() == conns.len() + 1,
        deliver_packet(conns, p)[conns.len() as int].target_addr == p.addr,
        deliver_packet(conns, p)[conns.len() as int].state == ConnectionState::Connecting,
        deliver_packet(conns, p)[conns.len() as int].receive_buffer == seq![
            decode_spec(p.payload)->Ok_0,
        ],
        forall|j: int| 0 <= j < conns.len() ==> deliver_packet(conns, p)[j] == conns[j],
        unique_addrs(deliver_packet(conns, p)),
{
    lemma_deliver_packet_preserves_uniqueness(conns, p);
    let ev = decode_spec(p.payload)->Ok_0;
    assert(fresh_connection(p.addr).receive_buffer.push(ev) =~= seq![ev]);
}

/// A malformed payload from a recognized address changes nothing: the packet
/// is dropped and every connection is exactly as it was.
pub proof fn lemma_malformed_payload_is_dropped(conns: Seq<ConnectionView>, p: PacketView)
    requires
        unique_addrs(conns),
        has_addr(conns, p.addr),
        decode_spec(p.payload) is Err,
    ensures
        deliver_packet(conns, p) == conns,
{
    let i = idx_of(conns, p.addr);
    assert(deliver_packet(conns, p) =~= conns);
}

/// Law: fault isolation. A malformed payload from a recognized address is
/// dropped without trace: the tick delivers the remaining packets exactly as
/// if the malformed one had never been queued. Delivery from that same
/// address later in the tick, or from any other address, is unaffected.
pub proof fn lemma_fault_isolation(conns: Seq<ConnectionView>, pkts: Seq<PacketView>)
    requires
        unique_addrs(conns),
        pkts.len() > 0,
        has_addr(conns, pkts[0].addr),
        decode_spec(pkts[0].payload) is Err,
    ensures
        deliver_all(conns, pkts) == deliver_all(conns, pkts.drop_first()),
    decreases pkts.len(),
{
    if pkts.len() == 1 {
        assert(pkts.drop_last() =~= Seq::<PacketView>::empty());
        assert(pkts.last() == pkts[0]);
        lemma_malformed_payload_is_dropped(conns, pkts[0]);
        assert(pkts.drop_first() =~= Seq::<PacketView>::empty());
    } else {
        let front = pkts.drop_last();
        assert(front[0] == pkts[0]);
        lemma_fault_isolation(conns, front);
        assert(front.drop_first() =~= pkts.drop_first().drop_last());
        assert(pkts.drop_first().last() == pkts.last());
        assert(deliver_all(conns, pkts) == deliver_packet(
            deliver_all(conns, front.drop_first()),
            pkts.last(),
        ));
        assert(pkts.drop_first().len() > 0);
        assert(deliver_all(conns, pkts.drop_first()) == deliver_packet(
            deliver_all(conns, pkts.drop_first().drop_last()),
            pkts.drop_first().last(),
        ));
    }
}

} // verus!
