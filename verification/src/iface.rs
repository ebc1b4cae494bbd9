//! The table of connections and listeners, and what the application and the
//! packet loop do to it.
//!
//! An [`Interface`] is the one mutable state of the stack. Whoever holds it
//! exclusively may hand it a datagram that arrived
//! ([`Interface::on_datagram`]) or act for the application: bind a port,
//! take a connection from a listener, read from or write to a stream. No
//! operation waits: where the application would have to wait, the operation
//! says so and leaves the state as it is, and the caller tries again once
//! `on_datagram` has said whom to wake.

use crate::tcp::{views, Connection, Quad, Tcb};
use crate::wire::{
    lemma_ipv4_header_round_trip, lemma_ipv4_wire_bytes, lemma_tcp_header_round_trip,
    lemma_tcp_wire_bytes, Ipv4Header, TcpHeader, PROTOCOL_TCP,
};
use std::collections::{HashMap, VecDeque};
use vstd::prelude::*;
use vstd::slice::slice_subrange;

verus! {

broadcast use vstd::std_specs::hash::group_hash_axioms;

/// How many bytes a connection holds for the application until the peer
/// acknowledges them.
pub const SENDQUE_SIZE: usize = 1024;

/// Why an operation of the application failed.
#[derive(Clone, Copy, Debug, PartialEq, Eq, Structural)]
pub enum Error {
    /// The port is bound to another listener.
    AddrInUse,
    /// The interface no longer holds the connection of the stream.
    ConnectionAborted,
    /// The operation could only go on after the peer has acknowledged data.
    WouldBlock,
}

/// Which direction of a stream to shut down.
#[derive(Clone, Copy, Debug, PartialEq, Eq, Structural)]
pub enum Shutdown {
    Read,
    Write,
    Both,
}

/// Whom to wake after a datagram was handled.
#[derive(Clone, Copy, Debug, PartialEq, Eq, Structural)]
pub enum Wake {
    /// Nobody: no waiting operation can go on.
    Nobody,
    /// Those who wait in a read: a connection has data, or will get no more.
    Readers,
    /// Those who wait for a connection: a listener has got one.
    Acceptors,
}

/// What handling one datagram asks of the caller.
pub struct Dispatch {
    /// Whom to wake.
    pub wake: Wake,
    /// The datagrams to send, in order.
    pub datagrams: Vec<Vec<u8>>,
}

/// A port that accepts connections.
#[derive(Debug)]
pub struct TcpListener {
    pub port: u16,
}

/// One end of an accepted connection.
#[derive(Debug)]
pub struct TcpStream {
    pub quad: Quad,
}

/// The connections and the listeners of one tunnel.
pub struct Interface {
    /// Set when the interface is being taken down.
    pub terminate: bool,
    /// The connections, each under the key of its four-tuple.
    pub connections: HashMap<u128, Connection>,
    /// For each bound port, the connections that no one has accepted yet,
    /// oldest first.
    pub pendings: HashMap<u16, VecDeque<Quad>>,
}

/// The mathematical value of an [`Interface`].
pub struct Manager {
    pub terminate: bool,
    pub connections: Map<Quad, Tcb>,
    pub pendings: Map<u16, Seq<Quad>>,
}

impl View for Interface {
    type V = Manager;

    open spec fn view(&self) -> Manager {
        Manager {
            terminate: self.terminate,
            connections: Map::new(
                |q: Quad| self.connections@.contains_key(q.spec_key()),
                |q: Quad| self.connections@[q.spec_key()]@,
            ),
            pendings: Map::new(
                |p: u16| self.pendings@.contains_key(p),
                |p: u16| self.pendings@[p]@,
            ),
        }
    }
}

/// A TCP segment as it is found in a datagram.
pub struct Segment {
    pub ip: Ipv4Header,
    pub tcp: TcpHeader,
    pub data: Seq<u8>,
}

impl Segment {
    /// The four-tuple of the connection that the segment belongs to: its
    /// source is the remote endpoint.
    pub open spec fn quad(self) -> Quad {
        Quad {
            src: (self.ip.source, self.tcp.source_port),
            dst: (self.ip.destination, self.tcp.destination_port),
        }
    }

    /// The TCP segment in a datagram, if it holds one: the datagram must
    /// start with an IPv4 header whose protocol is TCP and whose total length
    /// covers at least the header itself, and a TCP header must follow. The
    /// data is whatever follows the TCP header.
    pub open spec fn in_datagram(buf: Seq<u8>) -> Option<Segment> {
        match Ipv4Header::spec_from_slice(buf) {
            Some(ip) => {
                let rest = buf.skip(ip.spec_header_len());
                if ip.protocol != PROTOCOL_TCP || ip.total_len < ip.spec_header_len() {
                    None
                } else {
                    match TcpHeader::spec_from_slice(rest) {
                        Some(tcp) => Some(
                            Segment { ip, tcp, data: rest.skip(tcp.spec_header_len()) },
                        ),
                        None => None,
                    }
                }
            },
            None => None,
        }
    }
}

impl Manager {
    /// Every connection is filed under its own four-tuple and is well
    /// formed.
    pub open spec fn connections_wf(self) -> bool {
        forall|q: Quad| #[trigger]
            self.connections.contains_key(q) ==> self.connections[q].wf()
                && self.connections[q].quad() == q
    }

    /// Every connection that waits to be accepted waits at the listener of
    /// its own local port, and the interface holds it.
    pub open spec fn pendings_wf(self) -> bool {
        forall|p: u16, i: int|
            #![trigger self.pendings[p][i]]
            self.pendings.contains_key(p) && 0 <= i < self.pendings[p].len()
                ==> self.pendings[p][i].dst.1 == p && self.connections.contains_key(
                self.pendings[p][i],
            )
    }

    /// No connection waits twice at a listener.
    pub open spec fn pendings_distinct(self) -> bool {
        forall|p: u16, i: int, j: int|
            #![trigger self.pendings[p][i], self.pendings[p][j]]
            self.pendings.contains_key(p) && 0 <= i < j < self.pendings[p].len()
                ==> self.pendings[p][i] != self.pendings[p][j]
    }

    /// The invariant of the table.
    pub open spec fn wf(self) -> bool {
        self.connections_wf() && self.pendings_wf() && self.pendings_distinct()
    }

    /// The table with a listener on `port` that has nothing to accept yet.
    pub open spec fn bound(self, port: u16) -> Manager {
        Manager { pendings: self.pendings.insert(port, Seq::empty()), ..self }
    }

    /// The table with the connection of `quad` replaced.
    pub open spec fn with_connection(self, quad: Quad, c: Tcb) -> Manager {
        Manager { connections: self.connections.insert(quad, c), ..self }
    }

    /// The table after a segment arrived, the datagrams to send, and whom to
    /// wake.
    ///
    /// A segment of a connection that the table holds goes to that
    /// connection, and readers are woken if the connection can then be read.
    /// Any other segment may open a connection if its destination port is
    /// bound: the connection is filed, joins the end of the listener's queue,
    /// and those who wait to accept are woken. Everything else is dropped.
    pub open spec fn on_segment(self, seg: Segment) -> (Manager, Seq<Seq<u8>>, Wake) {
        let quad = seg.quad();
        let port = seg.tcp.destination_port;
        if self.connections.contains_key(quad) {
            let (c, out) = self.connections[quad].on_segment(seg.tcp, seg.data);
            (
                self.with_connection(quad, c),
                out,
                if c.readable() {
                    Wake::Readers
                } else {
                    Wake::Nobody
                },
            )
        } else if self.pendings.contains_key(port) {
            match Tcb::passive_open(seg.ip, seg.tcp) {
                Some((c, syn_ack)) => (
                    Manager {
                        connections: self.connections.insert(quad, c),
                        pendings: self.pendings.insert(port, self.pendings[port].push(quad)),
                        ..self
                    },
                    seq![syn_ack],
                    Wake::Acceptors,
                ),
                None => (self, Seq::empty(), Wake::Nobody),
            }
        } else {
            (self, Seq::empty(), Wake::Nobody)
        }
    }

    /// The table after a datagram arrived, the datagrams to send, and whom to
    /// wake. A datagram that holds no TCP segment is dropped.
    pub open spec fn on_datagram(self, buf: Seq<u8>) -> (Manager, Seq<Seq<u8>>, Wake) {
        match Segment::in_datagram(buf) {
            Some(seg) => self.on_segment(seg),
            None => (self, Seq::empty(), Wake::Nobody),
        }
    }
}

impl Manager {
    /// The table after the oldest connection that waits at `port` was
    /// accepted.
    pub open spec fn accepted(self, port: u16) -> Manager {
        Manager { pendings: self.pendings.insert(port, self.pendings[port].skip(1)), ..self }
    }

    /// The table without the listener on `port`.
    pub open spec fn unbound(self, port: u16) -> Manager {
        Manager { pendings: self.pendings.remove(port), ..self }
    }

    /// What a read of at most `len` bytes from the connection of `quad`
    /// gives: the bytes at the front of `incoming`, as many as there are and
    /// as `len` allows; no bytes, for the end of the stream, if the queue is
    /// empty and the peer has finished; no answer if the reader has to wait;
    /// `ConnectionAborted` if the table does not hold the connection.
    pub open spec fn read(self, quad: Quad, len: nat) -> Result<Option<Seq<u8>>, Error> {
        if !self.connections.contains_key(quad) {
            Err(Error::ConnectionAborted)
        } else {
            let c = self.connections[quad];
            if c.incoming.len() > 0 {
                if len <= c.incoming.len() {
                    Ok(Some(c.incoming.take(len as int)))
                } else {
                    Ok(Some(c.incoming))
                }
            } else if c.is_recv_closed() {
                Ok(Some(Seq::empty()))
            } else {
                Ok(None)
            }
        }
    }

    /// The table after `n` bytes were read from the connection of `quad`.
    pub open spec fn after_read(self, quad: Quad, n: nat) -> Manager {
        let c = self.connections[quad];
        self.with_connection(quad, Tcb { incoming: c.incoming.skip(n as int), ..c })
    }

    /// How many of `len` bytes a write to the connection of `quad` takes:
    /// as many as `unacked` has room for; `WouldBlock` if it has none;
    /// `ConnectionAborted` if the table does not hold the connection.
    pub open spec fn write(self, quad: Quad, len: nat) -> Result<nat, Error> {
        if !self.connections.contains_key(quad) {
            Err(Error::ConnectionAborted)
        } else {
            let queued = self.connections[quad].unacked.len();
            if queued >= SENDQUE_SIZE {
                Err(Error::WouldBlock)
            } else if len <= SENDQUE_SIZE - queued {
                Ok(len)
            } else {
                Ok((SENDQUE_SIZE - queued) as nat)
            }
        }
    }

    /// The table after `data` was written to the connection of `quad`.
    pub open spec fn after_write(self, quad: Quad, data: Seq<u8>) -> Manager {
        let c = self.connections[quad];
        self.with_connection(quad, Tcb { unacked: c.unacked + data, ..c })
    }

    /// What a flush of the connection of `quad` gives: success if the peer
    /// has acknowledged everything written; `WouldBlock` if not;
    /// `ConnectionAborted` if the table does not hold the connection.
    pub open spec fn flush(self, quad: Quad) -> Result<(), Error> {
        if !self.connections.contains_key(quad) {
            Err(Error::ConnectionAborted)
        } else if self.connections[quad].unacked.len() == 0 {
            Ok(())
        } else {
            Err(Error::WouldBlock)
        }
    }

    /// The table after the application asked to close the connection of
    /// `quad`.
    pub open spec fn after_shutdown(self, quad: Quad) -> Manager {
        let c = self.connections[quad];
        self.with_connection(quad, Tcb { closed: true, ..c })
    }
}

impl Interface {
    /// The invariant of the table: every connection is filed under the key
    /// of its own four-tuple, and the table it stands for is well formed.
    pub open spec fn wf(&self) -> bool {
        &&& forall|k: u128| #[trigger]
            self.connections@.contains_key(k) ==> self.connections@[k]@.wf()
                && self.connections@[k]@.quad().spec_key() == k
        &&& self@.wf()
    }

    /// An interface without connections and without listeners.
    pub fn new() -> (ih: Interface)
        ensures
            ih.wf(),
            !ih@.terminate,
            ih@.connections == Map::<Quad, Tcb>::empty(),
            ih@.pendings == Map::<u16, Seq<Quad>>::empty(),
    {
        let ih = Interface {
            terminate: false,
            connections: HashMap::new(),
            pendings: HashMap::new(),
        };
        assert(ih@.connections =~= Map::<Quad, Tcb>::empty());
        assert(ih@.pendings =~= Map::<u16, Seq<Quad>>::empty());
        ih
    }

    /// Marks the interface as being taken down.
    pub fn terminate(&mut self)
        ensures
            final(self)@ == (Manager { terminate: true, ..old(self)@ }),
            old(self).wf() ==> final(self).wf(),
    {
        self.terminate = true;
    }

    /// Binds `port`: from now on a SYN to that port opens a connection, which
    /// waits at the listener returned. Fails with `AddrInUse` if the port is
    /// bound already.
    pub fn bind(&mut self, port: u16) -> (r: Result<TcpListener, Error>)
        requires
            old(self).wf(),
        ensures
            final(self).wf(),
            match r {
                Ok(listener) => !old(self)@.pendings.contains_key(port) && listener.port == port
                    && final(self)@ == old(self)@.bound(port),
                Err(e) => old(self)@.pendings.contains_key(port) && e == Error::AddrInUse
                    && final(self)@ == old(self)@,
            },
    {
        if self.pendings.contains_key(&port) {
            return Err(Error::AddrInUse);
        }
        self.pendings.insert(port, VecDeque::new());
        proof {
            assert(self@.pendings =~= old(self)@.pendings.insert(port, Seq::empty()));
            assert(self@.connections =~= old(self)@.connections);
            old(self)@.lemma_bound_keeps_wf(port);
        }
        Ok(TcpListener { port })
    }
}

/// Finds the TCP segment in a datagram: the two headers and the data that
/// follows them. Gives nothing for a datagram that holds none.
pub fn parse_segment(buf: &[u8]) -> (r: Option<(Ipv4Header, TcpHeader, &[u8])>)
    ensures
        match r {
            Some((ip, tcp, data)) => Segment::in_datagram(buf@) == Some(
                Segment { ip, tcp, data: data@ },
            ) && data@.len() + 40 <= buf@.len(),
            None => Segment::in_datagram(buf@).is_none(),
        },
{
    let (ip, ip_len) = match Ipv4Header::from_slice(buf) {
        Some(found) => found,
        None => {
            return None;
        },
    };
    if ip.protocol != PROTOCOL_TCP || (ip.total_len as usize) < ip_len {
        return None;
    }
    let rest = slice_subrange(buf, ip_len, buf.len());
    assert(rest@ =~= buf@.skip(ip_len as int));
    let (tcp, tcp_len) = match TcpHeader::from_slice(rest) {
        Some(found) => found,
        None => {
            return None;
        },
    };
    let data = slice_subrange(rest, tcp_len, rest.len());
    assert(data@ =~= rest@.skip(tcp_len as int));
    Some((ip, tcp, data))
}

impl Interface {
    /// Whether the table holds the connection of `quad`.
    fn holds(&self, quad: &Quad) -> (r: bool)
        ensures
            r == self@.connections.contains_key(*quad),
    {
        let key: u128 = quad.key();
        self.connections.contains_key(&key)
    }

    /// Hands a segment to the connection of `quad`, which the table holds.
    fn deliver(&mut self, quad: Quad, ip: &Ipv4Header, tcp: &TcpHeader, data: &[u8]) -> (r:
        Dispatch)
        requires
            old(self).wf(),
            old(self)@.connections.contains_key(quad),
            data@.len() <= u32::MAX - 2,
        ensures
            final(self).wf(),
            final(self)@ == old(self)@.with_connection(
                quad,
                old(self)@.connections[quad].on_segment(*tcp, data@).0,
            ),
            views(r.datagrams@) == old(self)@.connections[quad].on_segment(*tcp, data@).1,
            r.wake == if old(self)@.connections[quad].on_segment(*tcp, data@).0.readable() {
                Wake::Readers
            } else {
                Wake::Nobody
            },
    {
        let key: u128 = quad.key();
        let mut c: Connection = self.connections.remove(&key).unwrap();
        let ghost before = c@;
        let (available, datagrams) = c.on_packet(ip, tcp, data);
        self.connections.insert(key, c);
        proof {
            before.lemma_on_segment_keeps_quad(*tcp, data@);
            assert(self.connections@ =~= old(self).connections@.insert(key, c));
            lemma_replaced(old(self), self, quad, c);
        }
        Dispatch {
            wake: if available.is_readable() {
                Wake::Readers
            } else {
                Wake::Nobody
            },
            datagrams,
        }
    }

    /// Opens a connection for a first segment to a bound port.
    fn open(&mut self, quad: Quad, ip: &Ipv4Header, tcp: &TcpHeader, data: &[u8]) -> (r: Dispatch)
        requires
            old(self).wf(),
            !old(self)@.connections.contains_key(quad),
            old(self)@.pendings.contains_key(tcp.destination_port),
            quad == (Segment { ip: *ip, tcp: *tcp, data: data@ }).quad(),
        ensures
            final(self).wf(),
            (final(self)@, views(r.datagrams@), r.wake) == old(self)@.on_segment(
                Segment { ip: *ip, tcp: *tcp, data: data@ },
            ),
    {
        let port: u16 = tcp.destination_port;
        let mut datagrams: Vec<Vec<u8>> = Vec::new();
        assert(views(datagrams@) =~= Seq::<Seq<u8>>::empty());
        match Connection::accept(ip, tcp, data) {
            Some((c, syn_ack)) => {
                let key: u128 = quad.key();
                let mut pending: VecDeque<Quad> = self.pendings.remove(&port).unwrap();
                let ghost queue = pending@;
                pending.push_back(quad);
                self.pendings.insert(port, pending);
                self.connections.insert(key, c);
                datagrams.push(syn_ack);
                proof {
                    Tcb::lemma_passive_open(*ip, *tcp);
                    assert(self.pendings@ =~= old(self).pendings@.insert(port, pending));
                    assert(self@.pendings =~= old(self)@.pendings.insert(port, queue.push(quad)));
                    lemma_filed(old(self), self, quad, c);
                    assert(views(datagrams@) =~= seq![syn_ack@]);
                    old(self)@.lemma_on_segment_keeps_wf(
                        Segment { ip: *ip, tcp: *tcp, data: data@ },
                    );
                }
                Dispatch { wake: Wake::Acceptors, datagrams }
            },
            None => Dispatch { wake: Wake::Nobody, datagrams },
        }
    }

    /// Handles one datagram that arrived from the tunnel. Returns the
    /// datagrams to send in answer and whom to wake.
    pub fn on_datagram(&mut self, buf: &[u8]) -> (r: Dispatch)
        requires
            old(self).wf(),
            buf@.len() <= u32::MAX,
        ensures
            final(self).wf(),
            (final(self)@, views(r.datagrams@), r.wake) == old(self)@.on_datagram(buf@),
    {
        let nothing: Vec<Vec<u8>> = Vec::new();
        assert(views(nothing@) =~= Seq::<Seq<u8>>::empty());
        match parse_segment(buf) {
            Some((ip, tcp, data)) => {
                let quad = Quad {
                    src: (ip.source, tcp.source_port),
                    dst: (ip.destination, tcp.destination_port),
                };
                if self.holds(&quad) {
                    self.deliver(quad, &ip, &tcp, data)
                } else if self.pendings.contains_key(&tcp.destination_port) {
                    self.open(quad, &ip, &tcp, data)
                } else {
                    Dispatch { wake: Wake::Nobody, datagrams: nothing }
                }
            },
            None => Dispatch { wake: Wake::Nobody, datagrams: nothing },
        }
    }
}

impl Manager {
    /// Replacing a connection by a well-formed one of the same four-tuple
    /// keeps the table well formed.
    pub proof fn lemma_with_connection_keeps_wf(self, quad: Quad, c: Tcb)
        requires
            self.wf(),
            self.connections.contains_key(quad),
            c.wf(),
            c.quad() == quad,
        ensures
            self.with_connection(quad, c).wf(),
    {
        let after = self.with_connection(quad, c);
        assert forall|p: u16, i: int|
            #![trigger after.pendings[p][i]]
            after.pendings.contains_key(p) && 0 <= i < after.pendings[p].len()
            implies after.pendings[p][i].dst.1 == p && after.connections.contains_key(
            after.pendings[p][i],
        ) by {
            assert(self.connections.contains_key(self.pendings[p][i]));
        }
    }

    /// Whatever segment arrives, the table stays well formed.
    pub proof fn lemma_on_segment_keeps_wf(self, seg: Segment)
        requires
            self.wf(),
        ensures
            self.on_segment(seg).0.wf(),
    {
        let quad = seg.quad();
        let port = seg.tcp.destination_port;
        let after = self.on_segment(seg).0;
        if self.connections.contains_key(quad) {
            let c = self.connections[quad];
            c.lemma_on_segment_keeps_quad(seg.tcp, seg.data);
            self.lemma_with_connection_keeps_wf(quad, c.on_segment(seg.tcp, seg.data).0);
        } else if self.pendings.contains_key(port) && Tcb::opens(seg.tcp) {
            Tcb::lemma_passive_open(seg.ip, seg.tcp);
            let queue = self.pendings[port];
            assert forall|p: u16, i: int|
                #![trigger after.pendings[p][i]]
                after.pendings.contains_key(p) && 0 <= i < after.pendings[p].len()
                implies after.pendings[p][i].dst.1 == p && after.connections.contains_key(
                after.pendings[p][i],
            ) by {
                if p != port || i < queue.len() {
                    assert(after.pendings[p][i] == self.pendings[p][i]);
                }
            }
            assert forall|p: u16, i: int, j: int|
                #![trigger after.pendings[p][i], after.pendings[p][j]]
                after.pendings.contains_key(p) && 0 <= i < j < after.pendings[p].len()
                implies after.pendings[p][i] != after.pendings[p][j] by {
                // what waited before is in the table, and the new connection was not
                assert(after.pendings[p][i] == self.pendings[p][i]);
                if p != port || j < queue.len() {
                    assert(after.pendings[p][j] == self.pendings[p][j]);
                }
            }
        }
    }

    /// Whatever datagram arrives, the table stays well formed.
    pub proof fn lemma_on_datagram_keeps_wf(self, buf: Seq<u8>)
        requires
            self.wf(),
        ensures
            self.on_datagram(buf).0.wf(),
    {
        match Segment::in_datagram(buf) {
            Some(seg) => {
                self.lemma_on_segment_keeps_wf(seg);
            },
            None => {},
        }
    }

    /// Binding a port keeps the table well formed.
    pub proof fn lemma_bound_keeps_wf(self, port: u16)
        requires
            self.wf(),
        ensures
            self.bound(port).wf(),
    {
        let after = self.bound(port);
        assert forall|p: u16, i: int|
            #![trigger after.pendings[p][i]]
            after.pendings.contains_key(p) && 0 <= i < after.pendings[p].len()
            implies after.pendings[p][i].dst.1 == p && after.connections.contains_key(
            after.pendings[p][i],
        ) by {
            assert(after.pendings[p][i] == self.pendings[p][i]);
        }
        assert forall|p: u16, i: int, j: int|
            #![trigger after.pendings[p][i], after.pendings[p][j]]
            after.pendings.contains_key(p) && 0 <= i < j < after.pendings[p].len()
            implies after.pendings[p][i] != after.pendings[p][j] by {
            assert(after.pendings[p][i] == self.pendings[p][i]);
            assert(after.pendings[p][j] == self.pendings[p][j]);
        }
    }

    /// Accepting the oldest connection that waits at a listener keeps the
    /// table well formed.
    pub proof fn lemma_accepted_keeps_wf(self, port: u16)
        requires
            self.wf(),
            self.pendings.contains_key(port),
            self.pendings[port].len() > 0,
        ensures
            self.accepted(port).wf(),
    {
        let after = self.accepted(port);
        assert forall|p: u16, i: int|
            #![trigger after.pendings[p][i]]
            after.pendings.contains_key(p) && 0 <= i < after.pendings[p].len()
            implies after.pendings[p][i].dst.1 == p && after.connections.contains_key(
            after.pendings[p][i],
        ) by {
            if p == port {
                assert(after.pendings[p][i] == self.pendings[p][i + 1]);
            } else {
                assert(after.pendings[p][i] == self.pendings[p][i]);
            }
        }
        assert forall|p: u16, i: int, j: int|
            #![trigger after.pendings[p][i], after.pendings[p][j]]
            after.pendings.contains_key(p) && 0 <= i < j < after.pendings[p].len()
            implies after.pendings[p][i] != after.pendings[p][j] by {
            if p == port {
                assert(after.pendings[p][i] == self.pendings[p][i + 1]);
                assert(after.pendings[p][j] == self.pendings[p][j + 1]);
            } else {
                assert(after.pendings[p][i] == self.pendings[p][i]);
                assert(after.pendings[p][j] == self.pendings[p][j]);
            }
        }
    }

    /// Giving up a listener keeps the table well formed.
    pub proof fn lemma_unbound_keeps_wf(self, port: u16)
        requires
            self.wf(),
        ensures
            self.unbound(port).wf(),
    {
        let after = self.unbound(port);
        assert forall|p: u16, i: int|
            #![trigger after.pendings[p][i]]
            after.pendings.contains_key(p) && 0 <= i < after.pendings[p].len()
            implies after.pendings[p][i].dst.1 == p && after.connections.contains_key(
            after.pendings[p][i],
        ) by {
            assert(after.pendings[p][i] == self.pendings[p][i]);
        }
        assert forall|p: u16, i: int, j: int|
            #![trigger after.pendings[p][i], after.pendings[p][j]]
            after.pendings.contains_key(p) && 0 <= i < j < after.pendings[p].len()
            implies after.pendings[p][i] != after.pendings[p][j] by {
            assert(after.pendings[p][i] == self.pendings[p][i]);
            assert(after.pendings[p][j] == self.pendings[p][j]);
        }
    }
}

/// Replacing a connection by one of the same four-tuple keeps the table
/// well formed, and stands for replacing it in the table.
proof fn lemma_replaced(before: &Interface, after: &Interface, quad: Quad, c: Connection)
    requires
        before.wf(),
        before@.connections.contains_key(quad),
        c@.wf(),
        c@.quad() == quad,
        after.connections@ == before.connections@.insert(quad.spec_key(), c),
        after.pendings@ == before.pendings@,
        after.terminate == before.terminate,
    ensures
        after.wf(),
        after@ == before@.with_connection(quad, c@),
{
    lemma_filed(before, after, quad, c);
    assert(after@.pendings =~= before@.pendings);
    before@.lemma_with_connection_keeps_wf(quad, c@);
}

/// Filing a connection under the key of its four-tuple files it under that
/// four-tuple and no other.
proof fn lemma_filed(before: &Interface, after: &Interface, quad: Quad, c: Connection)
    requires
        after.connections@ == before.connections@.insert(quad.spec_key(), c),
    ensures
        after@.connections == before@.connections.insert(quad, c@),
{
    assert forall|q: Quad| #[trigger]
        after@.connections.contains_key(q) implies after@.connections[q]
        == before@.connections.insert(quad, c@)[q] by {
        if q.spec_key() == quad.spec_key() {
            q.lemma_key_injective(quad);
        }
    }
    assert(after@.connections =~= before@.connections.insert(quad, c@));
}

/// Moves bytes from the front of `queue` into the front of `buf`, as many as
/// there are and as `buf` has room for.
fn fill(buf: &mut [u8], queue: &mut VecDeque<u8>) -> (n: usize)
    ensures
        n == if old(buf)@.len() <= old(queue)@.len() {
            old(buf)@.len()
        } else {
            old(queue)@.len()
        },
        final(buf)@ == old(queue)@.take(n as int) + old(buf)@.skip(n as int),
        final(queue)@ == old(queue)@.skip(n as int),
{
    let mut i: usize = 0;
    assert(queue@.skip(0) =~= queue@);
    assert(buf@ =~= queue@.take(0) + buf@.skip(0));
    while i < buf.len() && queue.len() > 0
        invariant
            i <= old(buf)@.len(),
            i <= old(queue)@.len(),
            buf@.len() == old(buf)@.len(),
            queue@ == old(queue)@.skip(i as int),
            buf@ == old(queue)@.take(i as int) + old(buf)@.skip(i as int),
        decreases old(buf)@.len() - i,
    {
        let b: u8 = queue.pop_front().unwrap();
        buf[i] = b;
        i = i + 1;
        assert(queue@ =~= old(queue)@.skip(i as int));
        assert(buf@ =~= old(queue)@.take(i as int) + old(buf)@.skip(i as int));
    }
    i
}

/// Appends the first `n` bytes of `buf` to `queue`.
fn enqueue(queue: &mut VecDeque<u8>, buf: &[u8], n: usize)
    requires
        n <= buf@.len(),
    ensures
        final(queue)@ == old(queue)@ + buf@.take(n as int),
{
    let mut i: usize = 0;
    assert(queue@ =~= old(queue)@ + buf@.take(0));
    while i < n
        invariant
            i <= n <= buf@.len(),
            queue@ == old(queue)@ + buf@.take(i as int),
        decreases n - i,
    {
        queue.push_back(buf[i]);
        i = i + 1;
        assert(queue@ =~= old(queue)@ + buf@.take(i as int));
    }
}

impl TcpListener {
    /// Takes the oldest connection that waits at this listener. Gives
    /// nothing if none waits: the caller then waits until acceptors are
    /// woken, and tries again. The listener must still be bound.
    pub fn accept(&mut self, ih: &mut Interface) -> (r: Option<TcpStream>)
        requires
            old(ih).wf(),
            old(ih)@.pendings.contains_key(old(self).port),
        ensures
            final(ih).wf(),
            final(self).port == old(self).port,
            match r {
                Some(stream) => old(ih)@.pendings[old(self).port].len() > 0 && stream.quad
                    == old(ih)@.pendings[old(self).port][0] && final(ih)@ == old(ih)@.accepted(
                    old(self).port,
                ),
                None => old(ih)@.pendings[old(self).port].len() == 0 && final(ih)@ == old(ih)@,
            },
    {
        let port: u16 = self.port;
        let mut pending: VecDeque<Quad> = ih.pendings.remove(&port).unwrap();
        let ghost queue = pending@;
        let front = pending.pop_front();
        ih.pendings.insert(port, pending);
        proof {
            assert(queue.skip(1) =~= queue.subrange(1, queue.len() as int));
            assert(ih.pendings@ =~= old(ih).pendings@.insert(port, pending));
            assert(ih@.connections =~= old(ih)@.connections);
            if queue.len() > 0 {
                assert(ih@.pendings =~= old(ih)@.pendings.insert(port, queue.skip(1)));
                old(ih)@.lemma_accepted_keeps_wf(port);
            } else {
                assert(ih@.pendings =~= old(ih)@.pendings);
            }
        }
        match front {
            Some(quad) => Some(TcpStream { quad }),
            None => None,
        }
    }

    /// Gives up the listener: the port is free again. Returns the
    /// connections that waited at the listener, oldest first; the interface
    /// keeps them, and it is for the caller to decide what becomes of them.
    /// The listener must still be bound.
    pub fn close(self, ih: &mut Interface) -> (r: VecDeque<Quad>)
        requires
            old(ih).wf(),
            old(ih)@.pendings.contains_key(self.port),
        ensures
            final(ih).wf(),
            r@ == old(ih)@.pendings[self.port],
            final(ih)@ == old(ih)@.unbound(self.port),
    {
        let port: u16 = self.port;
        let pending: VecDeque<Quad> = ih.pendings.remove(&port).unwrap();
        proof {
            assert(ih@.pendings =~= old(ih)@.pendings.remove(port));
            assert(ih@.connections =~= old(ih)@.connections);
            old(ih)@.lemma_unbound_keeps_wf(port);
        }
        pending
    }
}

impl TcpStream {
    /// Reads from the stream into the front of `buf`. Returns the number of
    /// bytes read, zero at the end of the stream; or nothing if there is
    /// nothing to read yet: the caller then waits until readers are woken,
    /// and tries again.
    pub fn read(&mut self, ih: &mut Interface, buf: &mut [u8]) -> (r: Result<Option<usize>, Error>)
        requires
            old(ih).wf(),
        ensures
            final(ih).wf(),
            final(self).quad == old(self).quad,
            match (r, old(ih)@.read(old(self).quad, old(buf)@.len())) {
                (Ok(Some(n)), Ok(Some(bytes))) => n == bytes.len() && final(buf)@ == bytes + old(buf)@.skip(n as int) && final(ih)@ == old(ih)@.after_read(old(self).quad, n as nat),
                (Ok(None), Ok(None)) => final(buf)@ == old(buf)@ && final(ih)@ == old(ih)@,
                (Err(e), Err(expected)) => e == expected && final(buf)@ == old(buf)@ && final(ih)@ == old(ih)@,
                _ => false,
            },
    {
        let key: u128 = self.quad.key();
        if !ih.connections.contains_key(&key) {
            return Err(Error::ConnectionAborted);
        }
        let mut c: Connection = ih.connections.remove(&key).unwrap();
        let ghost before = c@;
        let r = if c.incoming.len() > 0 {
            Ok(Some(fill(buf, &mut c.incoming)))
        } else if c.is_recv_closed() {
            Ok(Some(0))
        } else {
            Ok(None)
        };
        ih.connections.insert(key, c);
        proof {
            assert(ih.connections@ =~= old(ih).connections@.insert(key, c));
            lemma_replaced(old(ih), ih, self.quad, c);
            if before.incoming.len() == 0 {
                assert(before.incoming.skip(0) =~= before.incoming);
                assert(c@ == before);
                assert(ih@.connections =~= old(ih)@.connections);
                assert(buf@ =~= Seq::<u8>::empty() + old(buf)@.skip(0));
            } else {
                assert(before.incoming.take(before.incoming.len() as int) =~= before.incoming);
            }
        }
        r
    }

    /// Queues bytes of `buf` for sending, as many as the connection has room
    /// for, and returns their number. Nothing is sent. Fails with
    /// `WouldBlock` if the connection has no room.
    pub fn write(&mut self, ih: &mut Interface, buf: &[u8]) -> (r: Result<usize, Error>)
        requires
            old(ih).wf(),
        ensures
            final(ih).wf(),
            final(self).quad == old(self).quad,
            match (r, old(ih)@.write(old(self).quad, buf@.len())) {
                (Ok(n), Ok(expected)) => n == expected && final(ih)@ == old(ih)@.after_write(
                    old(self).quad,
                    buf@.take(n as int),
                ),
                (Err(e), Err(expected)) => e == expected && final(ih)@ == old(ih)@,
                _ => false,
            },
    {
        let key: u128 = self.quad.key();
        if !ih.connections.contains_key(&key) {
            return Err(Error::ConnectionAborted);
        }
        let mut c: Connection = ih.connections.remove(&key).unwrap();
        let ghost before = c@;
        let queued: usize = c.unacked.len();
        let r = if queued >= SENDQUE_SIZE {
            Err(Error::WouldBlock)
        } else {
            let nbytes: usize = if buf.len() <= SENDQUE_SIZE - queued {
                buf.len()
            } else {
                SENDQUE_SIZE - queued
            };
            enqueue(&mut c.unacked, buf, nbytes);
            Ok(nbytes)
        };
        ih.connections.insert(key, c);
        proof {
            assert(ih.connections@ =~= old(ih).connections@.insert(key, c));
            lemma_replaced(old(ih), ih, self.quad, c);
            if queued >= SENDQUE_SIZE {
                assert(c@ == before);
                assert(ih@.connections =~= old(ih)@.connections);
            }
        }
        r
    }

    /// Succeeds if the peer has acknowledged everything written, and fails
    /// with `WouldBlock` if not.
    pub fn flush(&mut self, ih: &Interface) -> (r: Result<(), Error>)
        requires
            ih.wf(),
        ensures
            final(self).quad == old(self).quad,
            r == ih@.flush(old(self).quad),
    {
        let key: u128 = self.quad.key();
        match ih.connections.get(&key) {
            Some(c) => {
                if c.unacked.len() == 0 {
                    Ok(())
                } else {
                    Err(Error::WouldBlock)
                }
            },
            None => Err(Error::ConnectionAborted),
        }
    }

    /// Asks to close the connection, whatever direction `how` names.
    #[allow(unused_variables)]
    pub fn shutdown(&self, ih: &mut Interface, how: Shutdown) -> (r: Result<(), Error>)
        requires
            old(ih).wf(),
        ensures
            final(ih).wf(),
            match r {
                Ok(_) => old(ih)@.connections.contains_key(self.quad) && final(ih)@ == old(ih)@.after_shutdown(self.quad),
                Err(e) => !old(ih)@.connections.contains_key(self.quad) && e
                    == Error::ConnectionAborted && final(ih)@ == old(ih)@,
            },
    {
        let key: u128 = self.quad.key();
        if !ih.connections.contains_key(&key) {
            return Err(Error::ConnectionAborted);
        }
        let mut c: Connection = ih.connections.remove(&key).unwrap();
        c.close();
        ih.connections.insert(key, c);
        proof {
            assert(ih.connections@ =~= old(ih).connections@.insert(key, c));
            lemma_replaced(old(ih), ih, self.quad, c);
        }
        Ok(())
    }
}

impl Manager {
    /// A connection waits at one listener at most, and there once.
    pub proof fn lemma_pending_once(self, p: u16, i: int, q: u16, j: int)
        requires
            self.wf(),
            self.pendings.contains_key(p),
            self.pendings.contains_key(q),
            0 <= i < self.pendings[p].len(),
            0 <= j < self.pendings[q].len(),
            self.pendings[p][i] == self.pendings[q][j],
        ensures
            p == q,
            i == j,
    {
        assert(self.pendings[p][i].dst.1 == p);
        assert(self.pendings[q][j].dst.1 == q);
        if i < j {
            assert(self.pendings[p][i] != self.pendings[p][j]);
        } else if j < i {
            assert(self.pendings[p][j] != self.pendings[p][i]);
        }
    }

    /// What a connection writes, a reader of datagrams finds again: the
    /// segment in a datagram written by a connection has the two headers
    /// written and the data sent.
    pub proof fn lemma_written_datagram_reads_back(c: Tcb, seq: u32, ack: u32, payload: Seq<u8>)
        requires
            c.wf(),
        ensures
            Segment::in_datagram(c.datagram(seq, ack, payload)) == Some(
                Segment {
                    ip: c.outgoing_ip(Tcb::fitting(payload).len()),
                    tcp: c.outgoing_tcp(seq, ack, Tcb::fitting(payload)),
                    data: Tcb::fitting(payload),
                },
            ),
    {
        let sent = Tcb::fitting(payload);
        let ip = c.outgoing_ip(sent.len());
        let tcp = c.outgoing_tcp(seq, ack, sent);
        let buf = c.datagram(seq, ack, payload);
        lemma_tcp_wire_bytes(tcp);
        lemma_ipv4_wire_bytes(ip);
        assert(buf =~= ip.wire() + (tcp.wire() + sent));
        lemma_ipv4_header_round_trip(ip, tcp.wire() + sent);
        assert(buf.skip(20) =~= tcp.wire() + sent);
        lemma_tcp_header_round_trip(tcp, sent);
        assert((tcp.wire() + sent).skip(20) =~= sent);
    }

    /// No reader is left waiting: if a datagram makes a connection readable
    /// that was not, the dispatch says to wake the readers.
    pub proof fn lemma_readers_are_woken(self, buf: Seq<u8>, quad: Quad)
        requires
            self.connections.contains_key(quad),
            !self.connections[quad].readable(),
            self.on_datagram(buf).0.connections[quad].readable(),
        ensures
            self.on_datagram(buf).2 == Wake::Readers,
    {
    }

    /// No acceptor is left waiting: if a datagram gives a listener a
    /// connection to accept, the dispatch says to wake the acceptors.
    pub proof fn lemma_acceptors_are_woken(self, buf: Seq<u8>, port: u16)
        requires
            self.pendings.contains_key(port),
            self.on_datagram(buf).0.pendings[port].len() > self.pendings[port].len(),
        ensures
            self.on_datagram(buf).2 == Wake::Acceptors,
    {
    }

    /// In every connection, what is in flight fits the send window.
    pub open spec fn all_settled(self) -> bool {
        forall|q: Quad| #[trigger]
            self.connections.contains_key(q) ==> self.connections[q].send_settled()
    }

    /// No datagram takes a connection out of the table, frees a port or
    /// binds one; and if what is in flight fitted the send window of every
    /// connection, it still does.
    pub proof fn lemma_on_datagram_keeps(self, buf: Seq<u8>)
        ensures
            forall|q: Quad| #[trigger]
                self.connections.contains_key(q) ==> self.on_datagram(
                    buf,
                ).0.connections.contains_key(q),
            self.on_datagram(buf).0.pendings.dom() == self.pendings.dom(),
            self.on_datagram(buf).0.terminate == self.terminate,
            self.all_settled() ==> self.on_datagram(buf).0.all_settled(),
    {
        let after = self.on_datagram(buf).0;
        match Segment::in_datagram(buf) {
            Some(seg) => {
                let quad = seg.quad();
                let port = seg.tcp.destination_port;
                if self.connections.contains_key(quad) {
                    if self.all_settled() {
                        self.connections[quad].lemma_on_segment_keeps_window(seg.tcp, seg.data);
                    }
                } else if self.pendings.contains_key(port) && Tcb::opens(seg.tcp) {
                    Tcb::lemma_passive_open(seg.ip, seg.tcp);
                    assert(after.pendings.dom() =~= self.pendings.dom());
                }
            },
            None => {},
        }
        assert(after.pendings.dom() =~= self.pendings.dom());
    }
}

} // verus!
