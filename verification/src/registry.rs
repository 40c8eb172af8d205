//! The connection registry: an address-keyed collection of connection
//! records. Its invariant is that no two live connections share a target
//! address, which makes address matching unambiguous.

use vstd::prelude::*;

use crate::codec::{event_views, Event, EventView};
use crate::types::Addr;

verus! {

/// The lifecycle label of a connection.
#[derive(PartialEq, Eq, Structural, Clone, Copy, Debug)]
pub enum ConnectionState {
    /// The connection is being established.
    Connecting,
    /// The connection is established.
    Connected,
    /// The connection is being torn down; it is left alone this tick.
    Disconnecting,
    /// The connection is closed.
    Disconnected,
}

/// A logical endpoint identified by a network address, with buffered outgoing
/// and incoming event sequences and a state label.
#[derive(Debug)]
pub struct Connection {
    /// The unique address of the peer.
    pub target_addr: Addr,
    /// Where the connection stands in its lifecycle.
    pub state: ConnectionState,
    /// Events the application queued, waiting to be forwarded; drained
    /// exactly once per tick.
    pub send_buffer: Vec<Event>,
    /// Events received from the peer, waiting for the application.
    pub receive_buffer: Vec<Event>,
}

/// The mathematical value of a [`Connection`].
#[verifier::ext_equal]
pub struct ConnectionView {
    pub target_addr: Addr,
    pub state: ConnectionState,
    pub send_buffer: Seq<EventView>,
    pub receive_buffer: Seq<EventView>,
}

impl View for Connection {
    type V = ConnectionView;

    open spec fn view(&self) -> ConnectionView {
        ConnectionView {
            target_addr: self.target_addr,
            state: self.state,
            send_buffer: event_views(self.send_buffer@),
            receive_buffer: event_views(self.receive_buffer@),
        }
    }
}

impl Connection {
    /// A fresh connection for a peer at `addr`: connecting, both buffers
    /// empty. This is also what the dispatch loop creates for an
    /// unrecognized sender.
    pub fn new(addr: Addr) -> (c: Connection)
        ensures
            c@ == fresh_connection(addr),
    {
        let c = Connection {
            target_addr: addr,
            state: ConnectionState::Connecting,
            send_buffer: Vec::new(),
            receive_buffer: Vec::new(),
        };
        assert(c@ =~= fresh_connection(addr));
        c
    }
}

/// The value of a connection just created for `addr`.
pub open spec fn fresh_connection(addr: Addr) -> ConnectionView {
    ConnectionView {
        target_addr: addr,
        state: ConnectionState::Connecting,
        send_buffer: Seq::empty(),
        receive_buffer: Seq::empty(),
    }
}

/// The views of a sequence of connections.
pub open spec fn connection_views(s: Seq<Connection>) -> Seq<ConnectionView> {
    s.map_values(|c: Connection| c@)
}

/// Some live connection is keyed by `addr`.
pub open spec fn has_addr(conns: Seq<ConnectionView>, addr: Addr) -> bool {
    exists|i: int| 0 <= i < conns.len() && conns[i].target_addr == addr
}

/// The index of the connection keyed by `addr`; unambiguous wherever
/// [`unique_addrs`] holds.
pub open spec fn idx_of(conns: Seq<ConnectionView>, addr: Addr) -> int {
    choose|i: int| 0 <= i < conns.len() && conns[i].target_addr == addr
}

/// No two live connections share a target address.
pub open spec fn unique_addrs(conns: Seq<ConnectionView>) -> bool {
    forall|i: int, j: int|
        0 <= i < conns.len() && 0 <= j < conns.len() && i != j
            ==> conns[i].target_addr != conns[j].target_addr
}

/// Under [`unique_addrs`], any index whose connection is keyed by `addr` is
/// the one [`idx_of`] picks.
pub proof fn lemma_idx_of_unique(conns: Seq<ConnectionView>, addr: Addr, i: int)
    requires
        unique_addrs(conns),
        0 <= i < conns.len(),
        conns[i].target_addr == addr,
    ensures
        idx_of(conns, addr) == i,
        has_addr(conns, addr),
{
    assert(0 <= i < conns.len() && conns[i].target_addr == addr);
    let w = idx_of(conns, addr);
    assert(0 <= w < conns.len() && conns[w].target_addr == addr);
}

/// The address-keyed collection of connection records. The host tick thread
/// is its sole owner and mutator.
#[derive(Debug)]
pub struct ConnectionRegistry {
    /// The connection records, in creation order.
    pub conns: Vec<Connection>,
}

impl View for ConnectionRegistry {
    type V = Seq<ConnectionView>;

    open spec fn view(&self) -> Seq<ConnectionView> {
        connection_views(self.conns@)
    }
}

impl ConnectionRegistry {
    /// The registry invariant: no two live connections share an address.
    pub open spec fn wf(&self) -> bool {
        unique_addrs(self@)
    }

    /// An empty registry.
    pub fn new() -> (r: ConnectionRegistry)
        ensures
            r@ =~= Seq::<ConnectionView>::empty(),
            r.wf(),
    {
        let r = ConnectionRegistry { conns: Vec::new() };
        assert(r@ =~= Seq::<ConnectionView>::empty());
        r
    }

    /// How many live connections the registry holds.
    pub fn len(&self) -> (n: usize)
        ensures
            n == self@.len(),
    {
        self.conns.len()
    }

    /// Borrow the connection at `i`.
    pub fn get(&self, i: usize) -> (c: &Connection)
        requires
            i < self@.len(),
        ensures
            c@ == self@[i as int],
    {
        &self.conns[i]
    }

    /// Scan for the connection keyed by `addr`; the first match wins.
    pub fn find(&self, addr: Addr) -> (r: Option<usize>)
        ensures
            match r {
                Some(i) => i < self@.len() && self@[i as int].target_addr == addr && (forall|
                    j: int,
                |
                    0 <= j < i ==> self@[j].target_addr != addr),
                None => !has_addr(self@, addr),
            },
    {
        let n = self.conns.len();
        let mut i: usize = 0;
        while i < n
            invariant
                i <= n,
                n == self@.len(),
                forall|j: int| 0 <= j < i ==> self@[j].target_addr != addr,
            decreases n - i,
        {
            if self.conns[i].target_addr == addr {
                assert(self@[i as int] == self.conns@[i as int]@);
                return Some(i);
            }
            assert(self@[i as int] == self.conns@[i as int]@);
            i = i + 1;
        }
        None
    }

    /// Create a connection for the unrecognized sender `addr` and return its
    /// index. The caller must have established that no connection is keyed
    /// by `addr`, so uniqueness is preserved.
    pub fn create(&mut self, addr: Addr) -> (i: usize)
        requires
            !has_addr(old(self)@, addr),
        ensures
            final(self)@ =~= old(self)@.push(fresh_connection(addr)),
            i == old(self)@.len(),
            old(self).wf() ==> final(self).wf(),
    {
        let i = self.conns.len();
        let c = Connection::new(addr);
        self.conns.push(c);
        proof {
            assert(self@ =~= old(self)@.push(fresh_connection(addr)));
            if unique_addrs(old(self)@) {
                assert forall|p: int, q: int|
                    0 <= p < self@.len() && 0 <= q < self@.len() && p != q implies self@[
                    p
                ].target_addr != self@[q].target_addr by {
                    if p < old(self)@.len() && q < old(self)@.len() {
                        assert(old(self)@[p].target_addr != old(self)@[q].target_addr);
                    }
                }
            }
        }
        i
    }

    /// Insert a connection record the application built, unless its address
    /// is already taken; says whether it went in.
    pub fn insert_connection(&mut self, c: Connection) -> (inserted: bool)
        requires
            old(self).wf(),
        ensures
            final(self).wf(),
            inserted == !has_addr(old(self)@, c@.target_addr),
            inserted ==> final(self)@ =~= old(self)@.push(c@),
            !inserted ==> final(self)@ == old(self)@,
    {
        match self.find(c.target_addr) {
            Some(_) => false,
            None => {
                self.conns.push(c);
                proof {
                    assert(self@ =~= old(self)@.push(c@));
                    assert forall|p: int, q: int|
                        0 <= p < self@.len() && 0 <= q < self@.len() && p != q implies self@[
                        p
                    ].target_addr != self@[q].target_addr by {
                        if p < old(self)@.len() && q < old(self)@.len() {
                            assert(old(self)@[p].target_addr != old(self)@[q].target_addr);
                        }
                    }
                }
                true
            },
        }
    }

    /// Check the registry invariant at run time: no two live connections
    /// share a target address.
    pub fn is_well_formed(&self) -> (r: bool)
        ensures
            r == self.wf(),
    {
        let n = self.conns.len();
        let mut i: usize = 0;
        while i < n
            invariant
                i <= n,
                n == self@.len(),
                forall|p: int, q: int|
                    0 <= p < i && 0 <= q < p ==> self@[p].target_addr != self@[q].target_addr,
            decreases n - i,
        {
            let a = self.conns[i].target_addr;
            assert(self@[i as int] == self.conns@[i as int]@);
            match self.find(a) {
                Some(first) => {
                    if first != i {
                        assert(self@[first as int].target_addr == self@[i as int].target_addr);
                        assert(first < i) by {
                            if first > i {
                                assert(self@[i as int].target_addr != a);
                            }
                        }
                        return false;
                    }
                    assert forall|q: int| 0 <= q < i implies self@[i as int].target_addr != self@[
                        q
                    ].target_addr by {
                        assert(self@[q].target_addr != a);
                    }
                },
                None => {
                    assert(false);
                },
            }
            i = i + 1;
        }
        assert forall|p: int, q: int|
            0 <= p < self@.len() && 0 <= q < self@.len() && p != q implies self@[p].target_addr
            != self@[q].target_addr by {
            if p > q {
                assert(self@[p].target_addr != self@[q].target_addr);
            } else {
                assert(self@[q].target_addr != self@[p].target_addr);
            }
        }
        true
    }
}

} // verus!
