//! The state of one TCP connection and the way it answers segments.
//!
//! A [`Connection`] is created by a SYN that reaches a listening port
//! ([`Connection::accept`]) and from then on takes every segment of its
//! four-tuple ([`Connection::on_packet`]). It never touches the network: what
//! it wants sent, it returns as the bytes of complete IPv4 datagrams.
//!
//! The contracts speak of a connection through its view, a [`Tcb`], and of
//! each operation through a function from the `Tcb` before to the `Tcb` after
//! and the datagrams sent.

use crate::seqnum::{distance, is_between_wrapped, lemma_distance_is_wrapping_sub, HALF_RING};
use crate::wire::{
    lemma_ipv4_checksum_verifies, lemma_tcp_checksum_verifies, Ipv4Header, TcpHeader, PROTOCOL_TCP,
};
use std::collections::VecDeque;
use vstd::prelude::*;
use vstd::slice::slice_subrange;

verus! {

/// The bit of [`Available`] that says that a read would not wait.
pub const CAP_READ: u8 = 0b0000_0001;

/// The bit of [`Available`] that says that a write would not wait. Never set.
pub const CAP_WRITE: u8 = 0b0000_0010;

/// The window that a new connection advertises.
pub const SEND_WINDOW: u16 = 1024;

/// The time to live of every datagram sent.
pub const TIME_TO_LIVE: u8 = 64;

/// The largest datagram written, in bytes.
pub const MAX_DATAGRAM: usize = 1500;

/// The length of the two headers that start every datagram written.
pub const HEADERS_LEN: usize = 40;

/// What a connection can do for the application without making it wait.
#[derive(Clone, Copy, Debug)]
pub struct Available {
    flag: u8,
}

impl Available {
    /// Whether a read would return at once: data is queued, or none will come.
    pub closed spec fn readable(self) -> bool {
        self.flag & CAP_READ != 0
    }

    /// Whether a read would return at once.
    pub fn is_readable(&self) -> (r: bool)
        ensures
            r == self.readable(),
    {
        (self.flag & CAP_READ) > 0
    }
}

/// The two endpoints of a connection. `src` is the remote endpoint, the source
/// of the segments that the connection receives, and `dst` the local one.
/// Addresses are IPv4 addresses as 32-bit numbers, first octet most
/// significant.
#[derive(Clone, Copy, Debug, PartialEq, Eq, Hash, PartialOrd, Ord)]
pub struct Quad {
    pub src: (u32, u16),
    pub dst: (u32, u16),
}

impl Quad {
    /// The four-tuple as one number: remote address, remote port, local
    /// address and local port side by side, 96 bits in all.
    pub open spec fn spec_key(&self) -> u128 {
        (((self.src.0 as int * 0x1_0000 + self.src.1) * 0x1_0000_0000 + self.dst.0) * 0x1_0000
            + self.dst.1) as u128
    }

    /// The four-tuple as one number, under which a table can file the
    /// connection.
    #[verifier::when_used_as_spec(spec_key)]
    pub fn key(&self) -> (k: u128)
        ensures
            k == self.spec_key(),
    {
        ((self.src.0 as u128 * 0x1_0000 + self.src.1 as u128) * 0x1_0000_0000
            + self.dst.0 as u128) * 0x1_0000 + self.dst.1 as u128
    }

    /// Two four-tuples with the same key are the same.
    pub proof fn lemma_key_injective(self, other: Quad)
        requires
            self.spec_key() == other.spec_key(),
        ensures
            self == other,
    {
        let a = self.spec_key();
        let b = other.spec_key();
        assert(self.dst.1 == a as int % 0x1_0000);
        assert(other.dst.1 == b as int % 0x1_0000);
        assert(self.dst.0 == a as int / 0x1_0000 % 0x1_0000_0000);
        assert(other.dst.0 == b as int / 0x1_0000 % 0x1_0000_0000);
        assert(self.src.1 == a as int / 0x1_0000_0000_0000 % 0x1_0000);
        assert(other.src.1 == b as int / 0x1_0000_0000_0000 % 0x1_0000);
        assert(self.src.0 == a as int / 0x1_0000_0000_0000_0000);
        assert(other.src.0 == b as int / 0x1_0000_0000_0000_0000);
    }
}

/// The state of a connection. A connection starts in `SynRcvd`; a port that
/// listens has no connection yet.
#[derive(Clone, Copy, Debug, PartialEq, Eq, Structural)]
pub enum State {
    SynRcvd,
    Estab,
    FinWait1,
    FinWait2,
    CloseWait,
    Closing,
    TimeWait,
}

impl State {
    /// Whether both sides have exchanged their initial sequence numbers.
    pub open spec fn spec_is_synchronized(&self) -> bool {
        self is Estab || self is FinWait1 || self is FinWait2 || self is CloseWait
            || self is Closing
    }

    /// Whether both sides have exchanged their initial sequence numbers.
    #[verifier::when_used_as_spec(spec_is_synchronized)]
    pub fn is_synchronized(&self) -> (r: bool)
        ensures
            r == self.spec_is_synchronized(),
    {
        match *self {
            State::Estab
            | State::FinWait1
            | State::FinWait2
            | State::CloseWait
            | State::Closing => true,
            _ => false,
        }
    }
}

/// The send sequence space.
///
/// ```text
///      1         2          3          4
/// ----------|----------|----------|----------
///        SND.UNA    SND.NXT    SND.UNA
///                             +SND.WND
///
/// 1 - old sequence numbers which have been acknowledged
/// 2 - sequence numbers of unacknowledged data
/// 3 - sequence numbers allowed for new data transmission
/// 4 - future sequence numbers which are not yet allowed
/// ```
#[derive(Clone, Copy, Debug, PartialEq, Eq, Structural)]
pub struct SendSequenceSpace {
    /// send unacknowledged
    pub una: u32,
    /// send next
    pub nxt: u32,
    /// send window
    pub wnd: u16,
    /// send urgent pointer
    pub up: bool,
    /// segment sequence number used for last window update
    pub wl1: u32,
    /// segment acknowledgment number used for last window update
    pub wl2: u32,
    /// initial send sequence number
    pub iss: u32,
}

/// The receive sequence space.
///
/// ```text
///      1          2          3
/// ----------|----------|----------
///        RCV.NXT    RCV.NXT
///                  +RCV.WND
///
/// 1 - old sequence numbers which have been acknowledged
/// 2 - sequence numbers allowed for new reception
/// 3 - future sequence numbers which are not yet allowed
/// ```
#[derive(Clone, Copy, Debug, PartialEq, Eq, Structural)]
pub struct ReceiveSequenceSpace {
    /// receive next
    pub nxt: u32,
    /// receive window
    pub wnd: u16,
    /// receive urgent pointer
    pub up: bool,
    /// initial receive sequence number
    pub irs: u32,
}

impl SendSequenceSpace {
    /// `una <= nxt <= una + wnd` in circular order: what is in flight fits
    /// the window.
    pub open spec fn in_window(self) -> bool {
        distance(self.una, self.nxt) <= self.wnd
    }
}

/// One TCP connection.
pub struct Connection {
    pub state: State,
    pub send: SendSequenceSpace,
    pub recv: ReceiveSequenceSpace,
    /// The IPv4 header of the last datagram written; its addresses never
    /// change.
    pub iph: Ipv4Header,
    /// The TCP header of the last segment written; its ports never change.
    pub tcph: TcpHeader,
    /// Bytes received in sequence that the application has not read yet.
    pub incoming: VecDeque<u8>,
    /// Bytes that the application has written and the peer has not
    /// acknowledged yet.
    pub unacked: VecDeque<u8>,
    /// Whether the application has asked to close the connection.
    pub closed: bool,
}

/// The mathematical value of a [`Connection`]: its transmission control
/// block, with the two queues as sequences of bytes.
pub struct Tcb {
    pub state: State,
    pub send: SendSequenceSpace,
    pub recv: ReceiveSequenceSpace,
    pub iph: Ipv4Header,
    pub tcph: TcpHeader,
    pub incoming: Seq<u8>,
    pub unacked: Seq<u8>,
    pub closed: bool,
}

impl View for Connection {
    type V = Tcb;

    open spec fn view(&self) -> Tcb {
        Tcb {
            state: self.state,
            send: self.send,
            recv: self.recv,
            iph: self.iph,
            tcph: self.tcph,
            incoming: self.incoming@,
            unacked: self.unacked@,
            closed: self.closed,
        }
    }
}

/// The sequence numbers that a segment occupies: one for each byte of data,
/// one for a SYN and one for a FIN.
pub open spec fn segment_len(seg: TcpHeader, data_len: nat) -> nat {
    data_len + (if seg.syn { 1nat } else { 0 }) + (if seg.fin { 1nat } else { 0 })
}

/// Whether a segment that starts at `seq` and occupies `seg_len` sequence
/// numbers falls into the receive window that starts at `nxt` and is `wnd`
/// wide: an empty segment must start in the window, or exactly at `nxt` if the
/// window is closed; any other segment needs an open window that holds its
/// first or its last sequence number.
pub open spec fn acceptable(nxt: u32, wnd: u16, seq: u32, seg_len: nat) -> bool {
    let before = nxt.wrapping_sub(1);
    let end = nxt.wrapping_add(wnd as u32);
    let last = seq.wrapping_add(seg_len as u32).wrapping_sub(1);
    if seg_len == 0 {
        if wnd == 0 {
            seq == nxt
        } else {
            is_between_wrapped(before, seq, end)
        }
    } else {
        wnd > 0 && (is_between_wrapped(before, seq, end) || is_between_wrapped(before, last, end))
    }
}

/// How many leading bytes of a segment's data were received before: the
/// distance from `seq` forward to `nxt`, at most `len`, and zero if the
/// segment starts ahead of `nxt`.
pub open spec fn unread_offset(nxt: u32, seq: u32, len: nat) -> nat {
    let behind = distance(seq, nxt);
    if behind >= HALF_RING {
        0
    } else if behind > len {
        len
    } else {
        behind as nat
    }
}

/// The views of a list of byte vectors.
pub open spec fn views(list: Seq<Vec<u8>>) -> Seq<Seq<u8>> {
    list.map_values(|v: Vec<u8>| v@)
}

impl Tcb {
    /// What every operation needs and keeps: the two header templates have
    /// no options, and the IPv4 template names TCP as its protocol.
    pub open spec fn wf(self) -> bool {
        self.iph.ihl == 5 && self.tcph.data_offset == 5 && self.iph.protocol == PROTOCOL_TCP
    }

    /// What is in flight fits the send window, and neither SYN nor FIN waits
    /// in the template to go out with the next segment.
    pub open spec fn send_settled(self) -> bool {
        self.send.in_window() && !self.tcph.syn && !self.tcph.fin
    }

    /// The four-tuple of the connection.
    pub open spec fn quad(self) -> Quad {
        Quad {
            src: (self.iph.destination, self.tcph.destination_port),
            dst: (self.iph.source, self.tcph.source_port),
        }
    }

    /// Whether the peer has sent its FIN: no data will follow what is queued.
    pub open spec fn is_recv_closed(self) -> bool {
        self.state is CloseWait || self.state is Closing || self.state is TimeWait
    }

    /// Whether a read would return at once.
    pub open spec fn readable(self) -> bool {
        self.is_recv_closed() || self.incoming.len() > 0
    }

    /// The part of `payload` that fits into one datagram.
    pub open spec fn fitting(payload: Seq<u8>) -> Seq<u8> {
        if payload.len() <= MAX_DATAGRAM - HEADERS_LEN {
            payload
        } else {
            payload.take(MAX_DATAGRAM - HEADERS_LEN)
        }
    }

    /// The IPv4 header of a datagram that carries `payload_len` bytes of
    /// data: the template with the total length and a valid checksum.
    pub open spec fn outgoing_ip(self, payload_len: nat) -> Ipv4Header {
        let h = Ipv4Header { total_len: (HEADERS_LEN + payload_len) as u16, ..self.iph };
        h.with_header_checksum(h.spec_calc_header_checksum())
    }

    /// The TCP header of a segment: the template with the two numbers and a
    /// valid checksum.
    pub open spec fn outgoing_tcp(self, seq: u32, ack: u32, payload: Seq<u8>) -> TcpHeader {
        let h = TcpHeader { sequence_number: seq, acknowledgment_number: ack, ..self.tcph };
        h.with_checksum(h.spec_calc_checksum_ipv4(self.iph.source, self.iph.destination, payload))
    }

    /// The datagram that carries a segment with the flags of the template,
    /// the given sequence and acknowledgment numbers and as much of `payload`
    /// as fits.
    pub open spec fn datagram(self, seq: u32, ack: u32, payload: Seq<u8>) -> Seq<u8> {
        let sent = Self::fitting(payload);
        self.outgoing_ip(sent.len()).wire() + self.outgoing_tcp(seq, ack, sent).wire() + sent
    }

    /// The connection after that datagram was written: `send.nxt` has moved
    /// over the data sent and over a SYN and a FIN, and the template no longer
    /// holds the two flags.
    pub open spec fn after_emit(self, seq: u32, ack: u32, payload: Seq<u8>) -> Tcb {
        let sent = Self::fitting(payload);
        let advance = segment_len(self.tcph, sent.len());
        Tcb {
            send: SendSequenceSpace {
                nxt: self.send.nxt.wrapping_add(advance as u32),
                ..self.send
            },
            iph: self.outgoing_ip(sent.len()),
            tcph: TcpHeader { syn: false, fin: false, ..self.outgoing_tcp(seq, ack, sent) },
            ..self
        }
    }

    /// The connection after an acknowledgment of what was received so far
    /// was written, with `payload` as data.
    pub open spec fn after_ack(self, payload: Seq<u8>) -> Tcb {
        self.after_emit(self.send.nxt, self.recv.nxt, payload)
    }

    /// That acknowledgment.
    pub open spec fn ack_datagram(self, payload: Seq<u8>) -> Seq<u8> {
        self.datagram(self.send.nxt, self.recv.nxt, payload)
    }
}

impl Tcb {
    /// The connection that a first segment opens, before anything is sent:
    /// nothing is in flight from `iss = 0`, the next byte expected is the one
    /// after the peer's SYN, and the templates answer from the address and
    /// port that the segment was sent to.
    pub open spec fn opened_by(iph: Ipv4Header, tcph: TcpHeader) -> Tcb {
        Tcb {
            state: State::SynRcvd,
            send: SendSequenceSpace {
                iss: 0,
                una: 0,
                nxt: 0,
                wnd: SEND_WINDOW,
                up: false,
                wl1: 0,
                wl2: 0,
            },
            recv: ReceiveSequenceSpace {
                irs: tcph.sequence_number,
                nxt: tcph.sequence_number.wrapping_add(1),
                wnd: tcph.window_size,
                up: false,
            },
            iph: Ipv4Header {
                ihl: 5,
                total_len: 20,
                time_to_live: TIME_TO_LIVE,
                protocol: PROTOCOL_TCP,
                header_checksum: 0,
                source: iph.destination,
                destination: iph.source,
            },
            tcph: TcpHeader {
                source_port: tcph.destination_port,
                destination_port: tcph.source_port,
                sequence_number: 0,
                acknowledgment_number: 0,
                data_offset: 5,
                urg: false,
                ack: true,
                psh: false,
                rst: false,
                syn: true,
                fin: false,
                window_size: SEND_WINDOW,
                checksum: 0,
                urgent_pointer: 0,
            },
            incoming: Seq::empty(),
            unacked: Seq::empty(),
            closed: false,
        }
    }

    /// Whether a first segment opens a connection: it must be a SYN that
    /// neither acknowledges nor resets.
    pub open spec fn opens(tcph: TcpHeader) -> bool {
        tcph.syn && !tcph.ack && !tcph.rst
    }

    /// The connection that a first segment opens and the SYN+ACK sent in
    /// answer, if the segment opens one.
    pub open spec fn passive_open(iph: Ipv4Header, tcph: TcpHeader) -> Option<(Tcb, Seq<u8>)> {
        if Self::opens(tcph) {
            let c = Self::opened_by(iph, tcph);
            Some((c.after_ack(Seq::empty()), c.ack_datagram(Seq::empty())))
        } else {
            None
        }
    }

    /// Whether the connection takes a segment with header `seg` and
    /// `data_len` bytes of data: whether it falls into the receive window.
    pub open spec fn accepts(self, seg: TcpHeader, data_len: nat) -> bool {
        acceptable(self.recv.nxt, self.recv.wnd, seg.sequence_number, segment_len(seg, data_len))
    }

    /// Whether `ack` acknowledges the SYN+ACK: `una - 1 < ack < nxt + 1`.
    pub open spec fn completes_handshake(self, ack: u32) -> bool {
        is_between_wrapped(self.send.una.wrapping_sub(1), ack, self.send.nxt.wrapping_add(1))
    }

    /// The connection with the reset flag set in its template.
    pub open spec fn resetting(self) -> Tcb {
        Tcb { tcph: TcpHeader { rst: true, ..self.tcph }, ..self }
    }

    /// The reset sent: sequence number zero, acknowledgment number zero.
    pub open spec fn rst_datagram(self) -> Seq<u8> {
        self.resetting().datagram(0, 0, Seq::empty())
    }

    /// The connection after a reset was sent.
    pub open spec fn after_rst(self) -> Tcb {
        self.resetting().after_emit(0, 0, Seq::empty())
    }

    /// The connection with the FIN flag set in its template.
    pub open spec fn finishing(self) -> Tcb {
        Tcb { tcph: TcpHeader { fin: true, ..self.tcph }, ..self }
    }

    /// The FIN sent.
    pub open spec fn fin_datagram(self) -> Seq<u8> {
        self.finishing().ack_datagram(Seq::empty())
    }

    /// The connection after a FIN was sent: an established connection waits
    /// for the FIN to be acknowledged.
    pub open spec fn after_fin(self) -> Tcb {
        let sent = self.finishing().after_ack(Seq::empty());
        if sent.state is Estab {
            Tcb { state: State::FinWait1, ..sent }
        } else {
            sent
        }
    }

    /// Whether the state takes acknowledgments of data and data.
    pub open spec fn takes_data(self) -> bool {
        self.state is Estab || self.state is FinWait1 || self.state is FinWait2
    }

    /// A connection that waited for the handshake to complete is established.
    pub open spec fn established(self) -> Tcb {
        if self.state is SynRcvd {
            Tcb { state: State::Estab, ..self }
        } else {
            self
        }
    }

    /// Whether `ack` acknowledges something new: `una < ack < nxt + 1`.
    pub open spec fn acknowledges_new(self, ack: u32) -> bool {
        is_between_wrapped(self.send.una, ack, self.send.nxt.wrapping_add(1))
    }

    /// The connection after the acknowledgment number `ack` was read: if it
    /// acknowledges something new, `send.una` moves to it and as many bytes
    /// leave the front of `unacked`, as far as there are any.
    pub open spec fn acknowledged(self, ack: u32) -> Tcb {
        if self.takes_data() && self.acknowledges_new(ack) {
            let acked = distance(self.send.una, ack);
            let gone = if acked <= self.unacked.len() {
                acked
            } else {
                self.unacked.len() as int
            };
            Tcb {
                send: SendSequenceSpace { una: ack, ..self.send },
                unacked: self.unacked.skip(gone),
                ..self
            }
        } else {
            self
        }
    }

    /// Whether the peer has acknowledged our FIN: `una` stands two past
    /// `iss`, after the SYN and the FIN.
    pub open spec fn our_fin_acked(self) -> bool {
        self.send.una == self.send.iss.wrapping_add(2)
    }

    /// A connection whose FIN was acknowledged waits for the peer's FIN.
    pub open spec fn fin_noted(self) -> Tcb {
        if self.state is FinWait1 && self.our_fin_acked() {
            Tcb { state: State::FinWait2, ..self }
        } else {
            self
        }
    }

    /// The connection after the data of a segment that starts at `seq` was
    /// queued: the bytes not received before are appended to `incoming`, and
    /// `recv.nxt` is the sequence number after the segment's last byte.
    pub open spec fn queued(self, seq: u32, data: Seq<u8>) -> Tcb {
        Tcb {
            incoming: self.incoming + data.skip(
                unread_offset(self.recv.nxt, seq, data.len()) as int,
            ),
            recv: ReceiveSequenceSpace { nxt: seq.wrapping_add(data.len() as u32), ..self.recv },
            ..self
        }
    }

    /// The connection after the data of a segment was taken, and the
    /// datagrams sent: in a state that takes data, data is queued and
    /// acknowledged; otherwise, and for a segment without data, nothing
    /// happens.
    pub open spec fn on_data(self, seq: u32, data: Seq<u8>) -> (Tcb, Seq<Seq<u8>>) {
        if self.takes_data() && data.len() > 0 {
            let q = self.queued(seq, data);
            (q.after_ack(Seq::empty()), seq![q.ack_datagram(Seq::empty())])
        } else {
            (self, Seq::empty())
        }
    }

    /// The connection with `recv.nxt` moved over the peer's FIN.
    pub open spec fn fin_counted(self) -> Tcb {
        Tcb {
            recv: ReceiveSequenceSpace { nxt: self.recv.nxt.wrapping_add(1), ..self.recv },
            ..self
        }
    }

    /// The connection in another state.
    pub open spec fn in_state(self, state: State) -> Tcb {
        Tcb { state, ..self }
    }

    /// The connection after the FIN flag of a segment was taken, and the
    /// datagrams sent. A FIN occupies one sequence number. Before we have
    /// sent a FIN of our own, the peer's FIN is acknowledged and the
    /// connection waits for the application to close. After our FIN, the
    /// peer's FIN ends the connection if ours was acknowledged, and is
    /// acknowledged unless it arrives in `FinWait1` together with that
    /// acknowledgment; if ours is still in flight, both sides are closing. In
    /// the other states a FIN is ignored.
    pub open spec fn on_fin(self, seg: TcpHeader) -> (Tcb, Seq<Seq<u8>>) {
        let counted = self.fin_counted();
        let answered = counted.after_ack(Seq::empty());
        let answer = seq![counted.ack_datagram(Seq::empty())];
        if !seg.fin {
            (self, Seq::empty())
        } else {
            match self.state {
                State::SynRcvd | State::Estab => (answered.in_state(State::CloseWait), answer),
                State::FinWait1 => if self.our_fin_acked() {
                    (counted.in_state(State::TimeWait), Seq::empty())
                } else {
                    (answered.in_state(State::Closing), answer)
                },
                State::FinWait2 => (answered.in_state(State::TimeWait), answer),
                _ => (self, Seq::empty()),
            }
        }
    }

    /// The connection after a segment that the receive window takes and that
    /// acknowledges, and the datagrams sent: the acknowledgment is read, then
    /// the data, then the FIN.
    pub open spec fn on_acceptable(self, seg: TcpHeader, data: Seq<u8>) -> (Tcb, Seq<Seq<u8>>) {
        let acked = self.established().acknowledged(seg.acknowledgment_number).fin_noted();
        let (with_data, first) = acked.on_data(seg.sequence_number, data);
        let (with_fin, second) = with_data.on_fin(seg);
        (with_fin, first + second)
    }

    /// The connection after a segment with header `seg` and data `data`, and
    /// the datagrams sent in answer.
    ///
    /// A segment outside the receive window changes nothing and gets no
    /// answer. A segment without ACK only moves `recv.nxt` past its SYN, if it
    /// has one. During the handshake, an acknowledgment of anything but our
    /// SYN is answered by a reset, and nothing else happens. Every other
    /// segment goes through [`Tcb::on_acceptable`].
    pub open spec fn on_segment(self, seg: TcpHeader, data: Seq<u8>) -> (Tcb, Seq<Seq<u8>>) {
        if !self.accepts(seg, data.len()) {
            (self, Seq::empty())
        } else if !seg.ack {
            if seg.syn {
                (
                    Tcb {
                        recv: ReceiveSequenceSpace {
                            nxt: seg.sequence_number.wrapping_add(1),
                            ..self.recv
                        },
                        ..self
                    },
                    Seq::empty(),
                )
            } else {
                (self, Seq::empty())
            }
        } else if self.state is SynRcvd && !self.completes_handshake(seg.acknowledgment_number) {
            (self.after_rst(), seq![self.rst_datagram()])
        } else {
            self.on_acceptable(seg, data)
        }
    }
}

/// The part of `payload` that fits into one datagram.
fn fitting(payload: &[u8]) -> (sent: &[u8])
    ensures
        sent@ == Tcb::fitting(payload@),
        sent@.len() <= MAX_DATAGRAM - HEADERS_LEN,
{
    if payload.len() <= MAX_DATAGRAM - HEADERS_LEN {
        payload
    } else {
        let sent = slice_subrange(payload, 0, MAX_DATAGRAM - HEADERS_LEN);
        assert(sent@ =~= payload@.take((MAX_DATAGRAM - HEADERS_LEN) as int));
        sent
    }
}

/// The IPv4 header of a datagram that carries `payload_len` bytes of data.
fn seal_ip(template: &Ipv4Header, payload_len: usize) -> (h: Ipv4Header)
    requires
        template.ihl == 5,
        payload_len <= MAX_DATAGRAM - HEADERS_LEN,
    ensures
        h == (Ipv4Header {
            total_len: (HEADERS_LEN + payload_len) as u16,
            ..*template
        }).with_header_checksum(
            (Ipv4Header {
                total_len: (HEADERS_LEN + payload_len) as u16,
                ..*template
            }).spec_calc_header_checksum(),
        ),
{
    let mut h: Ipv4Header = *template;
    h.total_len = (HEADERS_LEN + payload_len) as u16;
    h.header_checksum = h.calc_header_checksum().unwrap();
    h
}

/// The TCP header of a segment with the given numbers and data, sent
/// between the addresses of `ip`.
fn seal_tcp(template: &TcpHeader, ip: &Ipv4Header, seq: u32, ack: u32, sent: &[u8]) -> (h:
    TcpHeader)
    requires
        template.data_offset == 5,
        sent@.len() <= MAX_DATAGRAM - HEADERS_LEN,
    ensures
        h == (TcpHeader {
            sequence_number: seq,
            acknowledgment_number: ack,
            ..*template
        }).with_checksum(
            (TcpHeader {
                sequence_number: seq,
                acknowledgment_number: ack,
                ..*template
            }).spec_calc_checksum_ipv4(ip.source, ip.destination, sent@),
        ),
{
    let mut h: TcpHeader = *template;
    h.sequence_number = seq;
    h.acknowledgment_number = ack;
    h.checksum = h.calc_checksum_ipv4(ip.source, ip.destination, sent).unwrap();
    h
}

/// The three parts of a datagram in one vector.
fn concat3(ip: Vec<u8>, tcp: Vec<u8>, data: &[u8]) -> (r: Vec<u8>)
    ensures
        r@ == ip@ + tcp@ + data@,
{
    let mut buf: Vec<u8> = ip;
    buf.extend_from_slice(tcp.as_slice());
    buf.extend_from_slice(data);
    buf
}

impl Connection {
    /// Whether the peer has sent its FIN: no data will follow what is queued.
    pub fn is_recv_closed(&self) -> (r: bool)
        ensures
            r == self@.is_recv_closed(),
    {
        match self.state {
            State::CloseWait | State::Closing | State::TimeWait => true,
            _ => false,
        }
    }

    /// What the connection can do for the application without making it
    /// wait.
    pub fn availability(&self) -> (a: Available)
        ensures
            a.readable() == self@.readable(),
    {
        let mut x = Available { flag: 0 };
        if self.is_recv_closed() || self.incoming.len() > 0 {
            x.flag = x.flag | CAP_READ;
        }
        assert(0u8 & 1u8 == 0 && (0u8 | 1u8) & 1u8 != 0) by (bit_vector);
        x
    }

    /// Writes one segment: the flags of the template, the given numbers and
    /// as much of `payload` as fits into one datagram.
    fn emit(&mut self, seq: u32, ack: u32, payload: &[u8]) -> (r: Vec<u8>)
        requires
            old(self)@.wf(),
        ensures
            r@ == old(self)@.datagram(seq, ack, payload@),
            final(self)@ == old(self)@.after_emit(seq, ack, payload@),
            final(self)@.wf(),
    {
        let sent = fitting(payload);
        let iph: Ipv4Header = seal_ip(&self.iph, sent.len());
        let tcph: TcpHeader = seal_tcp(&self.tcph, &self.iph, seq, ack, sent);
        let buf: Vec<u8> = concat3(iph.to_bytes().unwrap(), tcph.to_bytes().unwrap(), sent);
        let advance: u32 = sent.len() as u32 + (if tcph.syn { 1u32 } else { 0u32 }) + (
        if tcph.fin {
            1u32
        } else {
            0u32
        });
        self.iph = iph;
        self.tcph = TcpHeader { syn: false, fin: false, ..tcph };
        self.send.nxt = self.send.nxt.wrapping_add(advance);
        buf
    }

    /// Writes one segment that starts at `seq`, acknowledges everything
    /// received so far and carries as much of `payload` as fits into one
    /// datagram. `send.nxt` moves over what was sent, and a SYN or FIN set in
    /// the template goes out with this segment only. Returns the datagram.
    pub fn write(&mut self, seq: u32, payload: &[u8]) -> (r: Vec<u8>)
        requires
            old(self)@.wf(),
        ensures
            r@ == old(self)@.datagram(seq, old(self)@.recv.nxt, payload@),
            final(self)@ == old(self)@.after_emit(seq, old(self)@.recv.nxt, payload@),
            final(self)@.wf(),
    {
        let ack: u32 = self.recv.nxt;
        self.emit(seq, ack, payload)
    }

    /// Writes an acknowledgment of everything received so far, at
    /// `send.nxt`, with `buf` as data. Returns the datagram.
    pub fn send_ack(&mut self, buf: &[u8]) -> (r: Vec<u8>)
        requires
            old(self)@.wf(),
        ensures
            r@ == old(self)@.ack_datagram(buf@),
            final(self)@ == old(self)@.after_ack(buf@),
            final(self)@.wf(),
    {
        let seq: u32 = self.send.nxt;
        self.write(seq, buf)
    }

    /// Writes an acknowledgment without data.
    fn ack(&mut self) -> (r: Vec<u8>)
        requires
            old(self)@.wf(),
        ensures
            r@ == old(self)@.ack_datagram(Seq::empty()),
            final(self)@ == old(self)@.after_ack(Seq::empty()),
            final(self)@.wf(),
    {
        let none: Vec<u8> = Vec::new();
        self.send_ack(none.as_slice())
    }

    /// Writes a reset: the reset flag is set in the template, where it stays,
    /// and a segment with sequence number zero and acknowledgment number zero
    /// goes out. Returns the datagram.
    pub fn send_rst(&mut self) -> (r: Vec<u8>)
        requires
            old(self)@.wf(),
        ensures
            r@ == old(self)@.rst_datagram(),
            final(self)@ == old(self)@.after_rst(),
            final(self)@.wf(),
    {
        self.tcph.rst = true;
        let none: Vec<u8> = Vec::new();
        self.emit(0, 0, none.as_slice())
    }

    /// Notes that the application has asked to close the connection.
    pub fn close(&mut self)
        ensures
            final(self)@ == (Tcb { closed: true, ..old(self)@ }),
    {
        self.closed = true;
    }

    /// Writes a FIN at `send.nxt`; an established connection then waits for
    /// it to be acknowledged. Returns the datagram.
    pub fn send_fin(&mut self) -> (r: Vec<u8>)
        requires
            old(self)@.wf(),
        ensures
            r@ == old(self)@.fin_datagram(),
            final(self)@ == old(self)@.after_fin(),
            final(self)@.wf(),
    {
        self.tcph.fin = true;
        let r = self.ack();
        match self.state {
            State::Estab => {
                self.state = State::FinWait1;
            },
            _ => {},
        }
        r
    }

    /// Opens a connection for a first segment that reached a listening port.
    /// Returns the connection, in `SynRcvd`, and the SYN+ACK to send; or
    /// nothing if the segment is not a SYN, or acknowledges or resets.
    #[allow(unused_variables)]
    pub fn accept(iph: &Ipv4Header, tcph: &TcpHeader, data: &[u8]) -> (r: Option<
        (Connection, Vec<u8>),
    >)
        ensures
            match r {
                Some((c, syn_ack)) => Tcb::passive_open(*iph, *tcph) == Some((c@, syn_ack@))
                    && c@.wf(),
                None => Tcb::passive_open(*iph, *tcph).is_none(),
            },
    {
        if !tcph.syn || tcph.ack || tcph.rst {
            return None;
        }
        let iss: u32 = 0;
        let mut c = Connection {
            state: State::SynRcvd,
            send: SendSequenceSpace {
                iss,
                una: iss,
                nxt: iss,
                wnd: SEND_WINDOW,
                up: false,
                wl1: 0,
                wl2: 0,
            },
            recv: ReceiveSequenceSpace {
                irs: tcph.sequence_number,
                nxt: tcph.sequence_number.wrapping_add(1),
                wnd: tcph.window_size,
                up: false,
            },
            iph: Ipv4Header {
                ihl: 5,
                total_len: 20,
                time_to_live: TIME_TO_LIVE,
                protocol: PROTOCOL_TCP,
                header_checksum: 0,
                source: iph.destination,
                destination: iph.source,
            },
            tcph: TcpHeader {
                source_port: tcph.destination_port,
                destination_port: tcph.source_port,
                sequence_number: iss,
                acknowledgment_number: 0,
                data_offset: 5,
                urg: false,
                ack: false,
                psh: false,
                rst: false,
                syn: false,
                fin: false,
                window_size: SEND_WINDOW,
                checksum: 0,
                urgent_pointer: 0,
            },
            incoming: VecDeque::new(),
            unacked: VecDeque::new(),
            closed: false,
        };
        c.tcph.syn = true;
        c.tcph.ack = true;
        assert(c@ == Tcb::opened_by(*iph, *tcph));
        let syn_ack = c.ack();
        Some((c, syn_ack))
    }

    /// Whether the connection takes a segment with header `tcph` and
    /// `data_len` bytes of data.
    fn accepts(&self, tcph: &TcpHeader, data_len: usize) -> (r: bool)
        requires
            data_len <= u32::MAX - 2,
        ensures
            r == self@.accepts(*tcph, data_len as nat),
    {
        let seq: u32 = tcph.sequence_number;
        let slen: u32 = data_len as u32 + (if tcph.syn { 1u32 } else { 0u32 }) + (if tcph.fin {
            1u32
        } else {
            0u32
        });
        let before: u32 = self.recv.nxt.wrapping_sub(1);
        let end: u32 = self.recv.nxt.wrapping_add(self.recv.wnd as u32);
        if slen == 0 {
            if self.recv.wnd == 0 {
                seq == self.recv.nxt
            } else {
                is_between_wrapped(before, seq, end)
            }
        } else {
            self.recv.wnd != 0 && (is_between_wrapped(before, seq, end) || is_between_wrapped(
                before,
                seq.wrapping_add(slen).wrapping_sub(1),
                end,
            ))
        }
    }

    /// Whether the state takes acknowledgments of data and data.
    fn takes_data(&self) -> (r: bool)
        ensures
            r == self@.takes_data(),
    {
        match self.state {
            State::Estab | State::FinWait1 | State::FinWait2 => true,
            _ => false,
        }
    }

    /// Reads the acknowledgment number of a segment.
    fn acknowledge(&mut self, ack: u32)
        ensures
            final(self)@ == old(self)@.acknowledged(ack),
    {
        if self.takes_data() && is_between_wrapped(
            self.send.una,
            ack,
            self.send.nxt.wrapping_add(1),
        ) {
            let acked: u32 = ack.wrapping_sub(self.send.una);
            proof {
                lemma_distance_is_wrapping_sub(self.send.una, ack);
            }
            self.send.una = ack;
            drop_front(&mut self.unacked, acked);
        }
    }

    /// Takes the data of a segment.
    fn take_data(&mut self, seq: u32, data: &[u8], out: &mut Vec<Vec<u8>>)
        requires
            old(self)@.wf(),
            data@.len() <= u32::MAX,
        ensures
            final(self)@ == old(self)@.on_data(seq, data@).0,
            views(final(out)@) == views(old(out)@) + old(self)@.on_data(seq, data@).1,
            final(self)@.wf(),
    {
        if self.takes_data() && data.len() > 0 {
            let off: usize = unread_at(self.recv.nxt, seq, data.len());
            append(&mut self.incoming, slice_subrange(data, off, data.len()));
            self.recv.nxt = seq.wrapping_add(data.len() as u32);
            let ack = self.ack();
            push_datagram(out, ack);
        } else {
            assert(views(out@) + Seq::<Seq<u8>>::empty() =~= views(out@));
        }
    }

    /// Takes the FIN flag of a segment.
    fn take_fin(&mut self, tcph: &TcpHeader, out: &mut Vec<Vec<u8>>)
        requires
            old(self)@.wf(),
        ensures
            final(self)@ == old(self)@.on_fin(*tcph).0,
            views(final(out)@) == views(old(out)@) + old(self)@.on_fin(*tcph).1,
            final(self)@.wf(),
    {
        assert(views(out@) + Seq::<Seq<u8>>::empty() =~= views(out@));
        if tcph.fin {
            match self.state {
                State::SynRcvd | State::Estab => {
                    self.recv.nxt = self.recv.nxt.wrapping_add(1);
                    let ack = self.ack();
                    push_datagram(out, ack);
                    self.state = State::CloseWait;
                },
                State::FinWait1 => {
                    let acked: bool = self.send.una == self.send.iss.wrapping_add(2);
                    self.recv.nxt = self.recv.nxt.wrapping_add(1);
                    if acked {
                        self.state = State::TimeWait;
                    } else {
                        let ack = self.ack();
                        push_datagram(out, ack);
                        self.state = State::Closing;
                    }
                },
                State::FinWait2 => {
                    self.recv.nxt = self.recv.nxt.wrapping_add(1);
                    let ack = self.ack();
                    push_datagram(out, ack);
                    self.state = State::TimeWait;
                },
                _ => {},
            }
        }
    }

    /// Takes one segment of this connection: `tcph` is its header, `data`
    /// what follows the header. Returns what the connection can now do for
    /// the application, and the datagrams to send in answer, in order.
    #[allow(unused_variables)]
    pub fn on_packet(&mut self, iph: &Ipv4Header, tcph: &TcpHeader, data: &[u8]) -> (r: (
        Available,
        Vec<Vec<u8>>,
    ))
        requires
            old(self)@.wf(),
            data@.len() <= u32::MAX - 2,
        ensures
            final(self)@ == old(self)@.on_segment(*tcph, data@).0,
            views(r.1@) == old(self)@.on_segment(*tcph, data@).1,
            r.0.readable() == final(self)@.readable(),
            final(self)@.wf(),
    {
        let mut out: Vec<Vec<u8>> = Vec::new();
        assert(views(out@) =~= Seq::<Seq<u8>>::empty());
        if !self.accepts(tcph, data.len()) {
            return (self.availability(), out);
        }
        if !tcph.ack {
            if tcph.syn {
                self.recv.nxt = tcph.sequence_number.wrapping_add(1);
            }
            return (self.availability(), out);
        }
        let ack: u32 = tcph.acknowledgment_number;
        match self.state {
            State::SynRcvd => {
                if is_between_wrapped(
                    self.send.una.wrapping_sub(1),
                    ack,
                    self.send.nxt.wrapping_add(1),
                ) {
                    self.state = State::Estab;
                } else {
                    let rst = self.send_rst();
                    push_datagram(&mut out, rst);
                    assert(views(out@) =~= seq![rst@]);
                    return (self.availability(), out);
                }
            },
            _ => {},
        }
        self.acknowledge(ack);
        match self.state {
            State::FinWait1 => {
                if self.send.una == self.send.iss.wrapping_add(2) {
                    self.state = State::FinWait2;
                }
            },
            _ => {},
        }
        self.take_data(tcph.sequence_number, data, &mut out);
        self.take_fin(tcph, &mut out);
        (self.availability(), out)
    }
}

/// Removes `count` bytes from the front of `queue`, or all of them if there
/// are fewer.
fn drop_front(queue: &mut VecDeque<u8>, count: u32)
    ensures
        final(queue)@ == old(queue)@.skip(
            if count <= old(queue)@.len() {
                count as int
            } else {
                old(queue)@.len() as int
            },
        ),
{
    let mut i: u32 = 0;
    assert(queue@.skip(0) =~= queue@);
    while i < count && queue.len() > 0
        invariant
            i <= count,
            i <= old(queue)@.len(),
            queue@ == old(queue)@.skip(i as int),
        decreases count - i,
    {
        queue.pop_front();
        i = i + 1;
        assert(queue@ =~= old(queue)@.skip(i as int));
    }
}

/// Appends `bytes` to the back of `queue`.
fn append(queue: &mut VecDeque<u8>, bytes: &[u8])
    ensures
        final(queue)@ == old(queue)@ + bytes@,
{
    let mut i: usize = 0;
    assert(queue@ =~= old(queue)@ + bytes@.take(0));
    while i < bytes.len()
        invariant
            i <= bytes@.len(),
            queue@ == old(queue)@ + bytes@.take(i as int),
        decreases bytes@.len() - i,
    {
        queue.push_back(bytes[i]);
        i = i + 1;
        assert(queue@ =~= old(queue)@ + bytes@.take(i as int));
    }
    assert(bytes@.take(bytes@.len() as int) =~= bytes@);
}

/// How many leading bytes of a segment's data were received before.
fn unread_at(nxt: u32, seq: u32, len: usize) -> (off: usize)
    ensures
        off == unread_offset(nxt, seq, len as nat),
        off <= len,
{
    let behind: u32 = nxt.wrapping_sub(seq);
    proof {
        lemma_distance_is_wrapping_sub(seq, nxt);
    }
    if behind >= HALF_RING {
        0
    } else if behind as usize > len {
        len
    } else {
        behind as usize
    }
}

/// Adds one datagram to the list of those to send.
fn push_datagram(out: &mut Vec<Vec<u8>>, datagram: Vec<u8>)
    ensures
        final(out)@ == old(out)@.push(datagram),
        views(final(out)@) == views(old(out)@) + seq![datagram@],
{
    out.push(datagram);
    assert(views(out@) =~= views(old(out)@) + seq![datagram@]);
}

/// An empty segment that starts exactly at `recv.nxt` is always taken: by an
/// open window because it starts inside it, and by a closed window because
/// that is the one sequence number it still admits.
pub proof fn lemma_empty_segment_at_next_is_acceptable(nxt: u32, wnd: u16)
    ensures
        acceptable(nxt, wnd, nxt, 0),
{
    lemma_distance_is_wrapping_sub(nxt.wrapping_sub(1), nxt);
    lemma_distance_is_wrapping_sub(nxt, nxt.wrapping_add(wnd as u32));
}

/// A closed window takes an empty segment at `recv.nxt` and nothing else.
pub proof fn lemma_closed_window(nxt: u32, seq: u32, seg_len: nat)
    ensures
        acceptable(nxt, 0, seq, seg_len) <==> seg_len == 0 && seq == nxt,
{
}

impl Tcb {
    /// Writing a segment changes neither the addresses nor the ports of the
    /// templates, and keeps them free of options.
    pub proof fn lemma_emit_keeps_quad(self, seq: u32, ack: u32, payload: Seq<u8>)
        ensures
            self.after_emit(seq, ack, payload).quad() == self.quad(),
            self.wf() ==> self.after_emit(seq, ack, payload).wf(),
    {
    }

    /// No segment changes the four-tuple of a connection.
    pub proof fn lemma_on_segment_keeps_quad(self, seg: TcpHeader, data: Seq<u8>)
        ensures
            self.on_segment(seg, data).0.quad() == self.quad(),
            self.wf() ==> self.on_segment(seg, data).0.wf(),
    {
        let none = Seq::<u8>::empty();
        self.resetting().lemma_emit_keeps_quad(0, 0, none);
        let acked = self.established().acknowledged(seg.acknowledgment_number).fin_noted();
        let q = acked.queued(seg.sequence_number, data);
        q.lemma_emit_keeps_quad(q.send.nxt, q.recv.nxt, none);
        let with_data = acked.on_data(seg.sequence_number, data).0;
        let counted = with_data.fin_counted();
        counted.lemma_emit_keeps_quad(counted.send.nxt, counted.recv.nxt, none);
    }

    /// A connection is opened under the four-tuple of the segment that opens
    /// it, the segment's source being the remote endpoint; it waits for the
    /// handshake to complete, with its SYN in flight.
    pub proof fn lemma_passive_open(iph: Ipv4Header, tcph: TcpHeader)
        requires
            Self::opens(tcph),
        ensures
            Self::passive_open(iph, tcph).unwrap().0.quad() == (Quad {
                src: (iph.source, tcph.source_port),
                dst: (iph.destination, tcph.destination_port),
            }),
            Self::passive_open(iph, tcph).unwrap().0.wf(),
            Self::passive_open(iph, tcph).unwrap().0.state is SynRcvd,
            Self::passive_open(iph, tcph).unwrap().0.send.nxt == 1,
            Self::passive_open(iph, tcph).unwrap().0.send_settled(),
    {
        let c = Self::opened_by(iph, tcph);
        c.lemma_emit_keeps_quad(c.send.nxt, c.recv.nxt, Seq::empty());
    }

    /// Every datagram written carries valid checksums: the Internet checksum
    /// over the IPv4 header is zero, and so is the one over the pseudo-header
    /// and the TCP segment.
    pub proof fn lemma_datagram_verifies(self, seq: u32, ack: u32, payload: Seq<u8>)
        ensures
            self.outgoing_ip(Self::fitting(payload).len()).checksum_verifies(),
            self.outgoing_tcp(seq, ack, Self::fitting(payload)).checksum_verifies(
                self.iph.source,
                self.iph.destination,
                Self::fitting(payload),
            ),
    {
        let sent = Self::fitting(payload);
        let ip = Ipv4Header { total_len: (HEADERS_LEN + sent.len()) as u16, ..self.iph };
        let tcp = TcpHeader { sequence_number: seq, acknowledgment_number: ack, ..self.tcph };
        lemma_ipv4_checksum_verifies(ip);
        lemma_tcp_checksum_verifies(tcp, self.iph.source, self.iph.destination, sent);
    }

    /// A segment outside the receive window changes nothing and is not
    /// answered.
    pub proof fn lemma_unacceptable_is_dropped(self, seg: TcpHeader, data: Seq<u8>)
        requires
            !self.accepts(seg, data.len()),
        ensures
            self.on_segment(seg, data) == (self, Seq::<Seq<u8>>::empty()),
    {
    }

    /// After the handshake, a segment that carries neither data nor FIN is
    /// never answered: an acknowledgment is not acknowledged.
    pub proof fn lemma_bare_ack_is_not_answered(self, seg: TcpHeader)
        requires
            !(self.state is SynRcvd),
            !seg.fin,
        ensures
            self.on_segment(seg, Seq::empty()).1 == Seq::<Seq<u8>>::empty(),
    {
        let none = Seq::<u8>::empty();
        assert(self.on_acceptable(seg, none).1 =~= Seq::<Seq<u8>>::empty());
    }

    /// What is in flight keeps fitting the send window, whatever segment
    /// arrives: an acknowledgment only moves `send.una` towards `send.nxt`,
    /// and the answers to a segment carry neither data nor SYN nor FIN.
    pub proof fn lemma_on_segment_keeps_window(self, seg: TcpHeader, data: Seq<u8>)
        requires
            self.send_settled(),
        ensures
            self.on_segment(seg, data).0.send_settled(),
    {
        let ack = seg.acknowledgment_number;
        let est = self.established();
        if est.takes_data() && est.acknowledges_new(ack) {
            lemma_distance_is_wrapping_sub(est.send.una, ack);
            lemma_distance_is_wrapping_sub(ack, est.send.nxt.wrapping_add(1));
            lemma_distance_is_wrapping_sub(est.send.una, est.send.nxt);
            lemma_distance_is_wrapping_sub(ack, est.send.nxt);
        }
    }
}

} // verus!
