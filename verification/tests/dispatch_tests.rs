use netmux::codec::{encode, Event};
use netmux::dispatch::{phase_a, phase_b, run_tick, InternalSocketEvent};
use netmux::registry::{Connection, ConnectionRegistry, ConnectionState};
use netmux::types::{Addr, RawPacket, TickConfig};
use netmux::worker::{receiver_step, sender_step, SenderAction, TransportNotification};

fn addr(n: u128) -> Addr {
    Addr { ip: n, port: 9000 }
}

fn conn(a: Addr, state: ConnectionState, outgoing: Vec<Event>) -> Connection {
    Connection { target_addr: a, state, send_buffer: outgoing, receive_buffer: Vec::new() }
}

fn packet(a: Addr, payload: Vec<u8>) -> RawPacket {
    RawPacket { addr: a, payload }
}

fn config(max_throughput: u64) -> TickConfig {
    TickConfig { bind: addr(0), max_throughput }
}

#[test]
fn scenario_connected_and_disconnected() {
    // Connections {A: Connected (outgoing=[e1, e2]), B: Disconnected}; a tick
    // emits SendEvents{A, [e1, e2]} then Stop, and empties A's buffer.
    let a = addr(1);
    let b = addr(2);
    let e1 = Event::Message(vec![1]);
    let e2 = Event::Message(vec![2]);
    let mut reg = ConnectionRegistry::new();
    assert!(reg.insert_connection(conn(a, ConnectionState::Connected, vec![e1.clone(), e2.clone()])));
    assert!(reg.insert_connection(conn(b, ConnectionState::Disconnected, Vec::new())));
    let mut queue: Vec<RawPacket> = Vec::new();
    let outcome = run_tick(&mut reg, &mut queue, &config(10));
    assert_eq!(
        outcome.control,
        vec![
            InternalSocketEvent::SendEvents { target: a, events: vec![e1, e2] },
            InternalSocketEvent::Stop,
        ]
    );
    assert!(reg.get(0).send_buffer.is_empty());
    assert_eq!(outcome.processed, 0);
}

#[test]
fn scenario_budget_defers_excess() {
    // 15 queued packets with max_throughput = 10: exactly 10 processed, the
    // other 5 still queued, unmodified and in order.
    let a = addr(7);
    let mut reg = ConnectionRegistry::new();
    assert!(reg.insert_connection(conn(a, ConnectionState::Connected, Vec::new())));
    let mut queue: Vec<RawPacket> = Vec::new();
    for i in 0..15u8 {
        queue.push(packet(a, vec![4, i]));
    }
    let outcome = run_tick(&mut reg, &mut queue, &config(10));
    assert_eq!(outcome.processed, 10);
    assert_eq!(queue.len(), 5);
    for (k, p) in queue.iter().enumerate() {
        assert_eq!(p.addr, a);
        assert_eq!(p.payload, vec![4, 10 + k as u8]);
    }
    // The first ten events were all delivered: no event data lost.
    let inc = &reg.get(0).receive_buffer;
    assert_eq!(inc.len(), 10);
    for (k, ev) in inc.iter().enumerate() {
        assert_eq!(*ev, Event::Message(vec![k as u8]));
    }
}

#[test]
fn scenario_unknown_sender_creates_connection() {
    // One packet from an unknown address C: after the tick the registry has a
    // connection keyed by C whose incoming buffer holds the decoded event.
    let c = addr(33);
    let mut reg = ConnectionRegistry::new();
    let mut queue = vec![packet(c, encode(&Event::Connect))];
    let outcome = run_tick(&mut reg, &mut queue, &config(10));
    assert_eq!(outcome.processed, 1);
    assert!(queue.is_empty());
    assert_eq!(reg.len(), 1);
    let created = reg.get(0);
    assert_eq!(created.target_addr, c);
    assert_eq!(created.state, ConnectionState::Connecting);
    assert_eq!(created.receive_buffer, vec![Event::Connect]);
    assert_eq!(outcome.created, vec![c]);
    assert!(outcome.faults.is_empty());
}

#[test]
fn malformed_payload_does_not_block_later_delivery() {
    // A malformed payload from A is dropped and reported, but a well-formed
    // payload from A later in the same tick, and one from another address,
    // are both delivered.
    let a = addr(1);
    let b = addr(2);
    let mut reg = ConnectionRegistry::new();
    assert!(reg.insert_connection(conn(a, ConnectionState::Connected, Vec::new())));
    let mut queue = vec![
        packet(a, vec![99]),                          // unknown tag: malformed
        packet(a, encode(&Event::Message(vec![5]))),  // well-formed, same address
        packet(b, encode(&Event::Connected)),         // well-formed, other address
    ];
    let outcome = run_tick(&mut reg, &mut queue, &config(10));
    assert_eq!(outcome.processed, 3);
    assert_eq!(outcome.faults, vec![a]);
    assert_eq!(reg.get(0).receive_buffer, vec![Event::Message(vec![5])]);
    assert_eq!(reg.get(1).target_addr, b);
    assert_eq!(reg.get(1).receive_buffer, vec![Event::Connected]);
}

#[test]
fn addresses_stay_unique() {
    let a = addr(4);
    let mut reg = ConnectionRegistry::new();
    assert!(reg.insert_connection(conn(a, ConnectionState::Connected, Vec::new())));
    // A second record for the same address is refused.
    assert!(!reg.insert_connection(conn(a, ConnectionState::Connecting, Vec::new())));
    assert_eq!(reg.len(), 1);
    assert!(reg.is_well_formed());
    // Two packets from one unknown address create only one connection.
    let c = addr(9);
    let mut queue = vec![packet(c, encode(&Event::Connect)), packet(c, encode(&Event::Connected))];
    run_tick(&mut reg, &mut queue, &config(10));
    assert_eq!(reg.len(), 2);
    assert!(reg.is_well_formed());
    assert_eq!(reg.get(1).receive_buffer, vec![Event::Connect, Event::Connected]);
}

#[test]
fn disconnecting_connection_is_left_alone() {
    let a = addr(5);
    let ev = Event::Message(vec![8]);
    let mut reg = ConnectionRegistry::new();
    assert!(reg.insert_connection(conn(a, ConnectionState::Disconnecting, vec![ev.clone()])));
    let msgs = phase_a(&mut reg);
    assert!(msgs.is_empty());
    assert_eq!(reg.get(0).send_buffer, vec![ev]);
}

#[test]
fn connecting_connection_forwards_too() {
    let a = addr(6);
    let ev = Event::Connect;
    let mut reg = ConnectionRegistry::new();
    assert!(reg.insert_connection(conn(a, ConnectionState::Connecting, vec![ev.clone()])));
    let msgs = phase_a(&mut reg);
    assert_eq!(msgs, vec![InternalSocketEvent::SendEvents { target: a, events: vec![ev] }]);
    assert!(reg.get(0).send_buffer.is_empty());
}

#[test]
fn zero_budget_processes_nothing() {
    let a = addr(3);
    let mut reg = ConnectionRegistry::new();
    assert!(reg.insert_connection(conn(a, ConnectionState::Connected, Vec::new())));
    let mut queue = vec![packet(a, encode(&Event::Connected))];
    let report = phase_b(&mut reg, &mut queue, 0);
    assert_eq!(report.processed, 0);
    assert_eq!(queue.len(), 1);
    assert!(reg.get(0).receive_buffer.is_empty());
}

#[test]
fn sender_step_serializes_in_order() {
    let t = addr(11);
    let msg = InternalSocketEvent::SendEvents {
        target: t,
        events: vec![Event::Connect, Event::Message(vec![7, 8])],
    };
    match sender_step(msg) {
        SenderAction::Transmit(pkts) => {
            assert_eq!(pkts.len(), 2);
            assert_eq!(pkts[0].addr, t);
            assert_eq!(pkts[0].payload, vec![0u8]);
            assert_eq!(pkts[1].addr, t);
            assert_eq!(pkts[1].payload, vec![4u8, 7, 8]);
        }
        SenderAction::Stop => panic!("expected a transmit action"),
    }
    match sender_step(InternalSocketEvent::Stop) {
        SenderAction::Stop => {}
        SenderAction::Transmit(_) => panic!("expected a stop action"),
    }
}

#[test]
fn receiver_step_forwards_packets_only() {
    let p = packet(addr(12), vec![4, 1]);
    match receiver_step(TransportNotification::Packet(p)) {
        Some(q) => {
            assert_eq!(q.addr, addr(12));
            assert_eq!(q.payload, vec![4, 1]);
        }
        None => panic!("a packet notification must be forwarded"),
    }
    assert!(receiver_step(TransportNotification::Unsupported).is_none());
}
