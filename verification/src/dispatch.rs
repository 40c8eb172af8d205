//! The per-tick dispatch loop.
//!
//! Phase A (outbound reconciliation) drains every forwarding connection's
//! outgoing buffer into one control message for the sender worker, and emits a
//! stop directive for every disconnected connection. Phase B (inbound
//! reconciliation) drains raw packets from the data queue under the per-tick
//! budget, matches each to the connection keyed by its source address, and
//! creates a connection for an unrecognized sender, delivering the packet
//! that triggered the creation within the same tick.

use vstd::prelude::*;

use crate::codec::{decode, decode_spec, event_views, Event, EventView};
use crate::registry::{
    fresh_connection, has_addr, idx_of, lemma_idx_of_unique, unique_addrs, Connection,
    ConnectionRegistry, ConnectionState, ConnectionView,
};
use crate::types::{packet_views, Addr, PacketView, RawPacket, TickConfig};

verus! {

/// A control message from the dispatch loop to the sender worker.
#[derive(PartialEq, Eq, Debug)]
pub enum InternalSocketEvent {
    /// Forward these events, in order, to the peer at `target`.
    SendEvents { target: Addr, events: Vec<Event> },
    /// A disconnected connection was seen: end the current drain pass.
    Stop,
}

/// The mathematical value of an [`InternalSocketEvent`].
#[verifier::ext_equal]
pub enum MsgView {
    SendEvents { target: Addr, events: Seq<EventView> },
    Stop,
}

impl View for InternalSocketEvent {
    type V = MsgView;

    open spec fn view(&self) -> MsgView {
        match self {
            InternalSocketEvent::SendEvents { target, events } => MsgView::SendEvents {
                target: *target,
                events: event_views(events@),
            },
            InternalSocketEvent::Stop => MsgView::Stop,
        }
    }
}

/// The views of a sequence of control messages.
pub open spec fn msg_views(s: Seq<InternalSocketEvent>) -> Seq<MsgView> {
    s.map_values(|m: InternalSocketEvent| m@)
}

/// Connections in these states have their outgoing buffer forwarded this
/// tick.
pub open spec fn forwards_this_tick(c: ConnectionView) -> bool {
    c.state == ConnectionState::Connected || c.state == ConnectionState::Connecting
}

/// The control messages one connection contributes in Phase A: its whole
/// outgoing buffer if it forwards, a stop directive if it is disconnected,
/// nothing if it is disconnecting.
pub open spec fn control_for(c: ConnectionView) -> Seq<MsgView> {
    if forwards_this_tick(c) {
        seq![MsgView::SendEvents { target: c.target_addr, events: c.send_buffer }]
    } else if c.state == ConnectionState::Disconnected {
        seq![MsgView::Stop]
    } else {
        Seq::empty()
    }
}

/// All control messages of one tick's Phase A, connection by connection in
/// registry order.
pub open spec fn phase_a_msgs(conns: Seq<ConnectionView>) -> Seq<MsgView>
    decreases conns.len(),
{
    if conns.len() == 0 {
        Seq::empty()
    } else {
        phase_a_msgs(conns.drop_last()) + control_for(conns.last())
    }
}

/// What Phase A leaves of one connection: a forwarding connection's outgoing
/// buffer is emptied, every other connection is untouched.
pub open spec fn drain_outgoing(c: ConnectionView) -> ConnectionView {
    if forwards_this_tick(c) {
        ConnectionView { send_buffer: Seq::empty(), ..c }
    } else {
        c
    }
}

/// What Phase A leaves of the whole registry.
pub open spec fn drain_all(conns: Seq<ConnectionView>) -> Seq<ConnectionView> {
    conns.map_values(|c: ConnectionView| drain_outgoing(c))
}

/// What one packet leaves of the connection it is delivered into: the decoded
/// event is appended to the incoming buffer; a malformed payload changes
/// nothing.
pub open spec fn deliver_to(c: ConnectionView, payload: Seq<u8>) -> ConnectionView {
    match decode_spec(payload) {
        Ok(ev) => ConnectionView { receive_buffer: c.receive_buffer.push(ev), ..c },
        Err(_) => c,
    }
}

/// What one packet leaves of the registry: delivery into the connection keyed
/// by its source address, or a new connection for an unrecognized sender with
/// that same delivery.
pub open spec fn deliver_packet(conns: Seq<ConnectionView>, p: PacketView) -> Seq<ConnectionView> {
    if has_addr(conns, p.addr) {
        let i = idx_of(conns, p.addr);
        conns.update(i, deliver_to(conns[i], p.payload))
    } else {
        conns.push(deliver_to(fresh_connection(p.addr), p.payload))
    }
}

/// What a sequence of packets, processed front to back, leaves of the
/// registry.
pub open spec fn deliver_all(conns: Seq<ConnectionView>, pkts: Seq<PacketView>) -> Seq<
    ConnectionView,
>
    decreases pkts.len(),
{
    if pkts.len() == 0 {
        conns
    } else {
        deliver_packet(deliver_all(conns, pkts.drop_last()), pkts.last())
    }
}

/// How many packets one tick's Phase B processes: all that are queued, up to
/// the per-tick budget.
pub open spec fn budget(queued: nat, cap: u64) -> nat {
    if queued <= cap {
        queued
    } else {
        cap as nat
    }
}

/// The source addresses of the packets in `pkts` whose payload does not
/// decode, in order: each is logged and its packet dropped, nothing more.
pub open spec fn fault_addrs(pkts: Seq<PacketView>) -> Seq<Addr>
    decreases pkts.len(),
{
    if pkts.len() == 0 {
        Seq::empty()
    } else {
        fault_addrs(pkts.drop_last()) + (if decode_spec(pkts.last().payload) is Err {
            seq![pkts.last().addr]
        } else {
            Seq::empty()
        })
    }
}

/// The addresses for which processing `pkts` against a registry that starts
/// as `conns` creates a new connection, in creation order.
pub open spec fn created_addrs(conns: Seq<ConnectionView>, pkts: Seq<PacketView>) -> Seq<Addr>
    decreases pkts.len(),
{
    if pkts.len() == 0 {
        Seq::empty()
    } else {
        created_addrs(conns, pkts.drop_last()) + (if !has_addr(
            deliver_all(conns, pkts.drop_last()),
            pkts.last().addr,
        ) {
            seq![pkts.last().addr]
        } else {
            Seq::empty()
        })
    }
}

/// Law: delivering one packet preserves address uniqueness, keeps every
/// existing address in place, and grows the registry exactly when the sender
/// was unrecognized.
pub proof fn lemma_deliver_packet_preserves_uniqueness(conns: Seq<ConnectionView>, p: PacketView)
    requires
        unique_addrs(conns),
    ensures
        unique_addrs(deliver_packet(conns, p)),
        deliver_packet(conns, p).len() == if has_addr(conns, p.addr) {
            conns.len()
        } else {
            conns.len() + 1
        },
        forall|j: int|
            0 <= j < conns.len() ==> #[trigger] deliver_packet(conns, p)[j].target_addr == conns[
                j
            ].target_addr,
{
    let out = deliver_packet(conns, p);
    if has_addr(conns, p.addr) {
        let i = idx_of(conns, p.addr);
        assert(0 <= i < conns.len() && conns[i].target_addr == p.addr);
        assert(out[i].target_addr == conns[i].target_addr);
    } else {
        assert forall|i: int, j: int|
            0 <= i < out.len() && 0 <= j < out.len() && i != j implies out[i].target_addr != out[
            j
        ].target_addr by {
            if i < conns.len() && j < conns.len() {
                assert(conns[i].target_addr != conns[j].target_addr);
            } else if i < conns.len() {
                assert(!(0 <= i < conns.len() && conns[i].target_addr == p.addr));
            } else {
                assert(!(0 <= j < conns.len() && conns[j].target_addr == p.addr));
            }
        }
    }
}

/// Law: a whole tick's Phase B preserves address uniqueness. At any instant,
/// no two live connections share a target address.
pub proof fn lemma_deliver_all_preserves_uniqueness(
    conns: Seq<ConnectionView>,
    pkts: Seq<PacketView>,
)
    requires
        unique_addrs(conns),
    ensures
        unique_addrs(deliver_all(conns, pkts)),
    decreases pkts.len(),
{
    if pkts.len() > 0 {
        lemma_deliver_all_preserves_uniqueness(conns, pkts.drop_last());
        lemma_deliver_packet_preserves_uniqueness(
            deliver_all(conns, pkts.drop_last()),
            pkts.last(),
        );
    }
}

/// Law: Phase A keeps every address in place, so it too preserves address
/// uniqueness.
pub proof fn lemma_drain_all_preserves_uniqueness(conns: Seq<ConnectionView>)
    requires
        unique_addrs(conns),
    ensures
        unique_addrs(drain_all(conns)),
        drain_all(conns).len() == conns.len(),
        forall|j: int|
            0 <= j < conns.len() ==> #[trigger] drain_all(conns)[j].target_addr == conns[
                j
            ].target_addr,
{
}

/// Phase A: outbound reconciliation. For every connection that is connected
/// or connecting, take its entire outgoing buffer and emit one `SendEvents`
/// message carrying it; for every disconnected connection, emit one `Stop`.
/// Nothing else about the registry changes.
pub fn phase_a(reg: &mut ConnectionRegistry) -> (msgs: Vec<InternalSocketEvent>)
    ensures
        msg_views(msgs@) == phase_a_msgs(old(reg)@),
        final(reg)@ == drain_all(old(reg)@),
        old(reg).wf() ==> final(reg).wf(),
{
    let ghost orig: Seq<ConnectionView> = reg@;
    let mut msgs: Vec<InternalSocketEvent> = Vec::new();
    let n = reg.conns.len();
    let mut i: usize = 0;
    while i < n
        invariant
            i <= n,
            n == reg@.len(),
            orig.len() == n,
            msg_views(msgs@) == phase_a_msgs(orig.take(i as int)),
            forall|j: int| 0 <= j < i ==> reg@[j] == drain_outgoing(orig[j]),
            forall|j: int| i <= j < n ==> reg@[j] == orig[j],
        decreases n - i,
    {
        let ghost pre_reg: Seq<ConnectionView> = reg@;
        let ghost pre_msgs: Seq<MsgView> = msg_views(msgs@);
        let st = reg.conns[i].state;
        proof {
            assert(reg@[i as int] == reg.conns@[i as int]@);
            assert(orig[i as int].state == st);
        }
        if st == ConnectionState::Connected || st == ConnectionState::Connecting {
            let c = reg.conns.remove(i);
            proof {
                assert(c@ == pre_reg[i as int]);
            }
            let Connection { target_addr, state, send_buffer, receive_buffer } = c;
            let msg = InternalSocketEvent::SendEvents { target: target_addr, events: send_buffer };
            proof {
                assert(msg@ == MsgView::SendEvents {
                    target: orig[i as int].target_addr,
                    events: orig[i as int].send_buffer,
                });
            }
            msgs.push(msg);
            let replacement = Connection {
                target_addr,
                state,
                send_buffer: Vec::new(),
                receive_buffer,
            };
            let ghost repl_view: ConnectionView = replacement@;
            proof {
                assert(repl_view =~= drain_outgoing(orig[i as int]));
            }
            reg.conns.insert(i, replacement);
            proof {
                assert forall|j: int| 0 <= j < n implies reg@[j] == pre_reg.update(
                    i as int,
                    repl_view,
                )[j] by {
                    assert(reg@[j] == reg.conns@[j]@);
                }
                assert(reg@ =~= pre_reg.update(i as int, repl_view));
                assert(msg_views(msgs@) =~= pre_msgs + control_for(orig[i as int]));
            }
        } else if st == ConnectionState::Disconnected {
            msgs.push(InternalSocketEvent::Stop);
            proof {
                assert(msg_views(msgs@) =~= pre_msgs + control_for(orig[i as int]));
            }
        } else {
            proof {
                assert(control_for(orig[i as int]) =~= Seq::<MsgView>::empty());
                assert(msg_views(msgs@) =~= pre_msgs + control_for(orig[i as int]));
            }
        }
        proof {
            assert(orig.take(i + 1).drop_last() =~= orig.take(i as int));
            assert(orig.take(i + 1).last() == orig[i as int]);
            assert(phase_a_msgs(orig.take(i + 1)) == phase_a_msgs(orig.take(i as int))
                + control_for(orig[i as int]));
        }
        i = i + 1;
    }
    proof {
        assert(orig.take(n as int) =~= orig);
        assert(reg@ =~= drain_all(orig));
        if unique_addrs(orig) {
            lemma_drain_all_preserves_uniqueness(orig);
        }
    }
    msgs
}

/// Phase B: inbound reconciliation under the per-tick budget. Drains
/// `min(queued, max_throughput)` packets from the front of the data queue and
/// delivers each into the registry; the remainder stays queued, unmodified,
/// for the next tick.
pub fn phase_b(
    reg: &mut ConnectionRegistry,
    queue: &mut Vec<RawPacket>,
    max_throughput: u64,
) -> (report: PhaseBReport)
    requires
        old(reg).wf(),
    ensures
        report.processed as nat == budget(old(queue)@.len(), max_throughput),
        final(reg)@ == deliver_all(
            old(reg)@,
            packet_views(old(queue)@).take(report.processed as int),
        ),
        final(queue)@ == old(queue)@.skip(report.processed as int),
        final(reg).wf(),
        report.faults@ == fault_addrs(packet_views(old(queue)@).take(report.processed as int)),
        report.created@ == created_addrs(
            old(reg)@,
            packet_views(old(queue)@).take(report.processed as int),
        ),
{
    let ghost orig: Seq<ConnectionView> = reg@;
    let ghost pkts: Seq<PacketView> = packet_views(queue@);
    let total = queue.len();
    let k: usize = if (total as u64) > max_throughput {
        assert(max_throughput <= usize::MAX as u64);
        max_throughput as usize
    } else {
        total
    };
    assert(k as nat == budget(old(queue)@.len(), max_throughput));
    let mut faults: Vec<Addr> = Vec::new();
    let mut created: Vec<Addr> = Vec::new();
    let mut i: usize = 0;
    while i < k
        invariant
            i <= k,
            k <= queue@.len(),
            queue@ == old(queue)@,
            pkts == packet_views(queue@),
            reg@ == deliver_all(orig, pkts.take(i as int)),
            reg.wf(),
            faults@ == fault_addrs(pkts.take(i as int)),
            created@ == created_addrs(orig, pkts.take(i as int)),
        decreases k - i,
    {
        let ghost pre: Seq<ConnectionView> = reg@;
        let ghost pre_faults: Seq<Addr> = faults@;
        let ghost pre_created: Seq<Addr> = created@;
        let addr = queue[i].addr;
        proof {
            assert(pkts[i as int] == queue@[i as int]@);
            assert(pkts[i as int].addr == addr);
        }
        let idx: usize = match reg.find(addr) {
            Some(found) => {
                proof {
                    lemma_idx_of_unique(pre, addr, found as int);
                }
                found
            },
            None => {
                created.push(addr);
                reg.create(addr)
            },
        };
        let ghost base: Seq<ConnectionView> = reg@;
        proof {
            assert(base[idx as int].target_addr == addr);
        }
        match decode(&queue[i].payload) {
            Ok(ev) => {
                let mut c = reg.conns.remove(idx);
                proof {
                    assert(c@ == base[idx as int]);
                }
                c.receive_buffer.push(ev);
                let ghost cview: ConnectionView = c@;
                proof {
                    assert(cview =~= deliver_to(base[idx as int], pkts[i as int].payload));
                }
                reg.conns.insert(idx, c);
                proof {
                    assert forall|j: int| 0 <= j < base.len() implies reg@[j] == base.update(
                        idx as int,
                        cview,
                    )[j] by {
                        assert(reg@[j] == reg.conns@[j]@);
                    }
                    assert(reg@ =~= base.update(
                        idx as int,
                        deliver_to(base[idx as int], pkts[i as int].payload),
                    ));
                }
            },
            Err(_) => {
                faults.push(addr);
                proof {
                    assert(deliver_to(base[idx as int], pkts[i as int].payload) == base[
                        idx as int
                    ]);
                    assert(reg@ =~= base.update(
                        idx as int,
                        deliver_to(base[idx as int], pkts[i as int].payload),
                    ));
                }
            },
        }
        proof {
            if has_addr(pre, addr) {
                assert(idx_of(pre, addr) == idx as int);
                assert(base == pre);
                assert(reg@ == deliver_packet(pre, pkts[i as int]));
            } else {
                assert(base =~= pre.push(fresh_connection(addr)));
                assert(idx as int == pre.len());
                assert(base[idx as int] == fresh_connection(addr));
                assert(reg@ =~= pre.push(
                    deliver_to(fresh_connection(addr), pkts[i as int].payload),
                ));
                assert(reg@ == deliver_packet(pre, pkts[i as int]));
            }
            assert(pkts.take(i + 1).drop_last() =~= pkts.take(i as int));
            assert(pkts.take(i + 1).last() == pkts[i as int]);
            assert(deliver_all(orig, pkts.take(i + 1)) == deliver_packet(
                deliver_all(orig, pkts.take(i as int)),
                pkts[i as int],
            ));
            lemma_deliver_packet_preserves_uniqueness(pre, pkts[i as int]);
            assert(fault_addrs(pkts.take(i + 1)) == fault_addrs(pkts.take(i as int)) + (
            if decode_spec(pkts[i as int].payload) is Err {
                seq![pkts[i as int].addr]
            } else {
                Seq::empty()
            }));
            if decode_spec(pkts[i as int].payload) is Err {
                assert(faults@ =~= pre_faults + seq![pkts[i as int].addr]);
            } else {
                assert(faults@ =~= pre_faults + Seq::<Addr>::empty());
            }
            assert(created_addrs(orig, pkts.take(i + 1)) == created_addrs(
                orig,
                pkts.take(i as int),
            ) + (if !has_addr(pre, pkts[i as int].addr) {
                seq![pkts[i as int].addr]
            } else {
                Seq::empty()
            }));
            if !has_addr(pre, pkts[i as int].addr) {
                assert(created@ =~= pre_created + seq![pkts[i as int].addr]);
            } else {
                assert(created@ =~= pre_created + Seq::<Addr>::empty());
            }
        }
        i = i + 1;
    }
    let mut j: usize = 0;
    while j < k
        invariant
            j <= k,
            k <= old(queue)@.len(),
            queue@ == old(queue)@.skip(j as int),
            reg@ == deliver_all(orig, pkts.take(k as int)),
            reg.wf(),
        decreases k - j,
    {
        let ghost before: Seq<RawPacket> = queue@;
        queue.remove(0);
        proof {
            assert(queue@ == before.remove(0));
            assert(queue@ =~= old(queue)@.skip(j + 1));
        }
        j = j + 1;
    }
    proof {
        assert(pkts == packet_views(old(queue)@));
        assert(queue@ =~= old(queue)@.skip(k as int));
    }
    PhaseBReport { processed: k, faults, created }
}

/// What Phase B reports of one tick, for the caller to act on and log.
pub struct PhaseBReport {
    /// How many raw packets were drained from the data queue.
    pub processed: usize,
    /// The source address of each processed packet whose payload did not
    /// decode, in order.
    pub faults: Vec<Addr>,
    /// The address of each connection created for an unrecognized sender,
    /// in creation order.
    pub created: Vec<Addr>,
}

/// What one tick hands back to its caller.
pub struct TickOutcome {
    /// The control messages for the sender worker, in emission order.
    pub control: Vec<InternalSocketEvent>,
    /// How many raw packets Phase B drained from the data queue.
    pub processed: usize,
    /// The source address of each processed packet whose payload did not
    /// decode, in order.
    pub faults: Vec<Addr>,
    /// The address of each connection created for an unrecognized sender,
    /// in creation order.
    pub created: Vec<Addr>,
}

/// One invocation of the dispatch loop: Phase A over the registry, then
/// Phase B over the data queue.
pub fn run_tick(
    reg: &mut ConnectionRegistry,
    queue: &mut Vec<RawPacket>,
    config: &TickConfig,
) -> (outcome: TickOutcome)
    requires
        old(reg).wf(),
        config.valid(),
    ensures
        msg_views(outcome.control@) == phase_a_msgs(old(reg)@),
        outcome.processed as nat == budget(old(queue)@.len(), config.max_throughput),
        final(reg)@ == deliver_all(
            drain_all(old(reg)@),
            packet_views(old(queue)@).take(outcome.processed as int),
        ),
        final(queue)@ == old(queue)@.skip(outcome.processed as int),
        final(reg).wf(),
        outcome.faults@ == fault_addrs(
            packet_views(old(queue)@).take(outcome.processed as int),
        ),
        outcome.created@ == created_addrs(
            drain_all(old(reg)@),
            packet_views(old(queue)@).take(outcome.processed as int),
        ),
{
    let control = phase_a(reg);
    let report = phase_b(reg, queue, config.max_throughput);
    let PhaseBReport { processed, faults, created } = report;
    TickOutcome { control, processed, faults, created }
}

} // verus!
