//! The layout of IPv4 and TCP headers on the wire.
//!
//! Headers are read and written by the `etherparse` crate. This module holds
//! the header values that the rest of the library works on, states the byte
//! layout that `etherparse` is trusted to follow, and proves what follows from
//! that layout: that a written header reads back unchanged, and that the
//! checksums the library writes are valid.

use crate::checksum::{be16, internet_checksum, lemma_checksum_cancels, spec_internet_checksum};
use vstd::prelude::*;

verus! {

/// The length of an IPv4 header without options, and of a TCP header without
/// options.
pub const MIN_HEADER_LEN: usize = 20;

/// The IPv4 protocol number of TCP.
pub const PROTOCOL_TCP: u8 = 6;

/// The four bytes of a 32-bit value, most significant first.
pub open spec fn be32(value: u32) -> Seq<u8> {
    seq![
        (value / 0x100_0000) as u8,
        (value / 0x1_0000 % 256) as u8,
        (value / 0x100 % 256) as u8,
        (value % 256) as u8,
    ]
}

/// The 16-bit value whose big-endian bytes are `hi`, `lo`.
pub open spec fn from_be16(hi: u8, lo: u8) -> u16 {
    (hi * 256 + lo) as u16
}

/// The 32-bit value whose big-endian bytes are `b0` to `b3`.
pub open spec fn from_be32(b0: u8, b1: u8, b2: u8, b3: u8) -> u32 {
    (b0 * 0x100_0000 + b1 * 0x1_0000 + b2 * 0x100 + b3) as u32
}

/// Whether the bit of weight `weight` (a power of two) is set in `byte`.
pub open spec fn bit(byte: u8, weight: int) -> bool {
    byte as int / weight % 2 == 1
}

/// The fields of a TCP header that precede its options.
#[derive(Clone, Copy, Debug, PartialEq, Eq, Structural)]
pub struct TcpHeader {
    pub source_port: u16,
    pub destination_port: u16,
    pub sequence_number: u32,
    pub acknowledgment_number: u32,
    /// The length of the header with its options, in 32-bit words.
    pub data_offset: u8,
    pub urg: bool,
    pub ack: bool,
    pub psh: bool,
    pub rst: bool,
    pub syn: bool,
    pub fin: bool,
    pub window_size: u16,
    pub checksum: u16,
    pub urgent_pointer: u16,
}

/// The fields of an IPv4 header that the library reads or sets.
#[derive(Clone, Copy, Debug, PartialEq, Eq, Structural)]
pub struct Ipv4Header {
    /// The length of the header with its options, in 32-bit words.
    pub ihl: u8,
    /// The length of the whole datagram, header included.
    pub total_len: u16,
    pub time_to_live: u8,
    pub protocol: u8,
    pub header_checksum: u16,
    pub source: u32,
    pub destination: u32,
}

impl TcpHeader {
    /// The byte that carries the six control flags.
    pub open spec fn flag_byte(self) -> u8 {
        ((if self.fin { 1int } else { 0 }) + (if self.syn { 2int } else { 0 })
            + (if self.rst { 4int } else { 0 }) + (if self.psh { 8int } else { 0 })
            + (if self.ack { 16int } else { 0 }) + (if self.urg { 32int } else { 0 })) as u8
    }

    /// The twenty bytes of the header on the wire.
    #[verifier::opaque]
    pub open spec fn wire(self) -> Seq<u8> {
        be16(self.source_port) + be16(self.destination_port) + be32(self.sequence_number) + be32(
            self.acknowledgment_number,
        ) + seq![(self.data_offset * 16) as u8, self.flag_byte()] + be16(self.window_size) + be16(
            self.checksum,
        ) + be16(self.urgent_pointer)
    }

    /// The header length in bytes that the data offset announces.
    pub open spec fn spec_header_len(self) -> int {
        self.data_offset * 4
    }

    /// What reading a TCP header from the front of `bytes` gives: nothing if
    /// fewer than twenty bytes are there, if the data offset is under five, or
    /// if the header that the data offset announces is longer than `bytes`.
    pub open spec fn spec_from_slice(bytes: Seq<u8>) -> Option<TcpHeader> {
        if bytes.len() >= 20 && bytes[12] / 16 >= 5 && bytes.len() >= (bytes[12] / 16) * 4 {
            Some(
                TcpHeader {
                    source_port: from_be16(bytes[0], bytes[1]),
                    destination_port: from_be16(bytes[2], bytes[3]),
                    sequence_number: from_be32(bytes[4], bytes[5], bytes[6], bytes[7]),
                    acknowledgment_number: from_be32(bytes[8], bytes[9], bytes[10], bytes[11]),
                    data_offset: bytes[12] / 16,
                    urg: bit(bytes[13], 32),
                    ack: bit(bytes[13], 16),
                    psh: bit(bytes[13], 8),
                    rst: bit(bytes[13], 4),
                    syn: bit(bytes[13], 2),
                    fin: bit(bytes[13], 1),
                    window_size: from_be16(bytes[14], bytes[15]),
                    checksum: from_be16(bytes[16], bytes[17]),
                    urgent_pointer: from_be16(bytes[18], bytes[19]),
                },
            )
        } else {
            None
        }
    }
}

impl Ipv4Header {
    /// The twenty bytes of an option-less header on the wire: version 4, no
    /// service bits, identification zero, "don't fragment" set, fragment
    /// offset zero.
    #[verifier::opaque]
    pub open spec fn wire(self) -> Seq<u8> {
        seq![(0x40 + self.ihl) as u8, 0u8] + be16(self.total_len) + seq![0u8, 0u8, 0x40u8, 0u8]
            + seq![self.time_to_live, self.protocol] + be16(self.header_checksum) + be32(
            self.source,
        ) + be32(self.destination)
    }

    /// The header length in bytes that the header announces.
    pub open spec fn spec_header_len(self) -> int {
        self.ihl * 4
    }

    /// What reading an IPv4 header from the front of `bytes` gives: nothing if
    /// fewer than twenty bytes are there, if the version is not 4, if the
    /// header length is under five words, or if the header that it announces
    /// is longer than `bytes`.
    pub open spec fn spec_from_slice(bytes: Seq<u8>) -> Option<Ipv4Header> {
        if bytes.len() >= 20 && bytes[0] / 16 == 4 && bytes[0] % 16 >= 5 && bytes.len() >= (
        bytes[0] % 16) * 4 {
            Some(
                Ipv4Header {
                    ihl: bytes[0] % 16,
                    total_len: from_be16(bytes[2], bytes[3]),
                    time_to_live: bytes[8],
                    protocol: bytes[9],
                    header_checksum: from_be16(bytes[10], bytes[11]),
                    source: from_be32(bytes[12], bytes[13], bytes[14], bytes[15]),
                    destination: from_be32(bytes[16], bytes[17], bytes[18], bytes[19]),
                },
            )
        } else {
            None
        }
    }
}

/// Reads a TCP header with `etherparse::TcpHeaderSlice::from_slice` and its
/// accessors. Trusted: the slice is accepted exactly when it holds twenty
/// bytes, a data offset of at least five and as many bytes as the data offset
/// announces; and each accessor reads its field from the position that the
/// TCP header layout gives it, multi-byte fields in big-endian order.
#[verifier::external_body]
fn tcp_header_from_slice(bytes: &[u8]) -> (r: Option<TcpHeader>)
    ensures
        r == TcpHeader::spec_from_slice(bytes@),
{
    match etherparse::TcpHeaderSlice::from_slice(bytes) {
        Ok(s) => Some(TcpHeader {
            source_port: s.source_port(), destination_port: s.destination_port(),
            sequence_number: s.sequence_number(),
            acknowledgment_number: s.acknowledgment_number(), data_offset: s.data_offset(),
            urg: s.urg(), ack: s.ack(), psh: s.psh(), rst: s.rst(), syn: s.syn(), fin: s.fin(),
            window_size: s.window_size(), checksum: s.checksum(),
            urgent_pointer: s.urgent_pointer(),
        }),
        Err(_) => None,
    }
}

/// Reads an IPv4 header with `etherparse::Ipv4HeaderSlice::from_slice` and its
/// accessors. Trusted: the slice is accepted exactly when it holds twenty
/// bytes, version 4, a header length of at least five words and as many bytes
/// as that length announces; and each accessor reads its field from the
/// position that the IPv4 header layout gives it, in big-endian order.
#[verifier::external_body]
fn ipv4_header_from_slice(bytes: &[u8]) -> (r: Option<Ipv4Header>)
    ensures
        r == Ipv4Header::spec_from_slice(bytes@),
{
    match etherparse::Ipv4HeaderSlice::from_slice(bytes) {
        Ok(s) => Some(Ipv4Header {
            ihl: s.ihl(), total_len: s.total_len(), time_to_live: s.ttl(),
            protocol: s.protocol().0, header_checksum: s.header_checksum(),
            source: u32::from_be_bytes(s.source()),
            destination: u32::from_be_bytes(s.destination()),
        }),
        Err(_) => None,
    }
}

/// Writes a TCP header without options with `etherparse::TcpHeader::to_bytes`.
/// Trusted: the result is the twenty bytes of the TCP header layout, with the
/// checksum field as given and the three flags that the library does not use
/// cleared.
#[verifier::external_body]
fn tcp_header_to_bytes(h: &TcpHeader) -> (r: Vec<u8>)
    requires
        h.data_offset == 5,
    ensures
        r@ == h.wire(),
{
    let mut t = etherparse::TcpHeader::new(
        h.source_port, h.destination_port, h.sequence_number, h.window_size,
    );
    t.acknowledgment_number = h.acknowledgment_number;
    (t.urg, t.ack, t.psh) = (h.urg, h.ack, h.psh);
    (t.rst, t.syn, t.fin) = (h.rst, h.syn, h.fin);
    (t.checksum, t.urgent_pointer) = (h.checksum, h.urgent_pointer);
    t.to_bytes().to_vec()
}

/// Writes an IPv4 header without options with
/// `etherparse::Ipv4Header::to_bytes`. Trusted: the result is the twenty bytes
/// of the IPv4 header layout, with the checksum field as given and the fields
/// that the library does not set at the defaults of `etherparse`:
/// identification zero, "don't fragment" set.
#[verifier::external_body]
fn ipv4_header_to_bytes(h: &Ipv4Header) -> (r: Vec<u8>)
    requires
        h.ihl == 5,
    ensures
        r@ == h.wire(),
{
    etherparse::Ipv4Header {
        total_len: h.total_len,
        time_to_live: h.time_to_live,
        protocol: etherparse::IpNumber(h.protocol),
        header_checksum: h.header_checksum,
        source: h.source.to_be_bytes(),
        destination: h.destination.to_be_bytes(),
        ..Default::default()
    }.to_bytes().to_vec()
}

impl TcpHeader {
    /// Reads a TCP header from the front of `bytes` and returns it with the
    /// length of the header, options included.
    pub fn from_slice(bytes: &[u8]) -> (r: Option<(TcpHeader, usize)>)
        ensures
            match r {
                Some((h, len)) => TcpHeader::spec_from_slice(bytes@) == Some(h) && len
                    == h.spec_header_len() && 20 <= len <= bytes@.len(),
                None => TcpHeader::spec_from_slice(bytes@).is_none(),
            },
    {
        match tcp_header_from_slice(bytes) {
            Some(h) => Some((h, h.data_offset as usize * 4)),
            None => None,
        }
    }

    /// Writes the header without options. Gives nothing if the data offset
    /// announces options.
    pub fn to_bytes(&self) -> (r: Option<Vec<u8>>)
        ensures
            self.data_offset == 5 ==> r.is_some() && r.unwrap()@ == self.wire(),
            self.data_offset != 5 ==> r.is_none(),
    {
        if self.data_offset == 5 {
            Some(tcp_header_to_bytes(self))
        } else {
            None
        }
    }
}

impl Ipv4Header {
    /// Reads an IPv4 header from the front of `bytes` and returns it with the
    /// length of the header, options included.
    pub fn from_slice(bytes: &[u8]) -> (r: Option<(Ipv4Header, usize)>)
        ensures
            match r {
                Some((h, len)) => Ipv4Header::spec_from_slice(bytes@) == Some(h) && len
                    == h.spec_header_len() && 20 <= len <= bytes@.len(),
                None => Ipv4Header::spec_from_slice(bytes@).is_none(),
            },
    {
        match ipv4_header_from_slice(bytes) {
            Some(h) => Some((h, h.ihl as usize * 4)),
            None => None,
        }
    }

    /// Writes the header without options. Gives nothing if the header length
    /// announces options.
    pub fn to_bytes(&self) -> (r: Option<Vec<u8>>)
        ensures
            self.ihl == 5 ==> r.is_some() && r.unwrap()@ == self.wire(),
            self.ihl != 5 ==> r.is_none(),
    {
        if self.ihl == 5 {
            Some(ipv4_header_to_bytes(self))
        } else {
            None
        }
    }
}

/// The pseudo-header that stands before a TCP segment when its checksum is
/// computed: source address, destination address, a zero byte, the protocol
/// number of TCP, and the length of the segment.
pub open spec fn pseudo_header(source: u32, destination: u32, tcp_len: u16) -> Seq<u8> {
    be32(source) + be32(destination) + seq![0u8, PROTOCOL_TCP] + be16(tcp_len)
}

/// Reading the big-endian bytes of a value gives the value back.
pub proof fn lemma_be_round_trip(word: u16, value: u32)
    ensures
        from_be16((word / 256) as u8, (word % 256) as u8) == word,
        from_be32(
            (value / 0x100_0000) as u8,
            (value / 0x1_0000 % 256) as u8,
            (value / 0x100 % 256) as u8,
            (value % 256) as u8,
        ) == value,
{
}

/// The bytes of a header are at the positions that the layout gives them.
pub proof fn lemma_tcp_wire_bytes(h: TcpHeader)
    ensures
        h.wire().len() == 20,
        h.wire() =~= seq![
            (h.source_port / 256) as u8,
            (h.source_port % 256) as u8,
            (h.destination_port / 256) as u8,
            (h.destination_port % 256) as u8,
            (h.sequence_number / 0x100_0000) as u8,
            (h.sequence_number / 0x1_0000 % 256) as u8,
            (h.sequence_number / 0x100 % 256) as u8,
            (h.sequence_number % 256) as u8,
            (h.acknowledgment_number / 0x100_0000) as u8,
            (h.acknowledgment_number / 0x1_0000 % 256) as u8,
            (h.acknowledgment_number / 0x100 % 256) as u8,
            (h.acknowledgment_number % 256) as u8,
            (h.data_offset * 16) as u8,
            h.flag_byte(),
            (h.window_size / 256) as u8,
            (h.window_size % 256) as u8,
            (h.checksum / 256) as u8,
            (h.checksum % 256) as u8,
            (h.urgent_pointer / 256) as u8,
            (h.urgent_pointer % 256) as u8,
        ],
{
    reveal(TcpHeader::wire);
}

/// The bytes of a header are at the positions that the layout gives them.
pub proof fn lemma_ipv4_wire_bytes(h: Ipv4Header)
    ensures
        h.wire().len() == 20,
        h.wire() =~= seq![
            (0x40 + h.ihl) as u8,
            0u8,
            (h.total_len / 256) as u8,
            (h.total_len % 256) as u8,
            0u8,
            0u8,
            0x40u8,
            0u8,
            h.time_to_live,
            h.protocol,
            (h.header_checksum / 256) as u8,
            (h.header_checksum % 256) as u8,
            (h.source / 0x100_0000) as u8,
            (h.source / 0x1_0000 % 256) as u8,
            (h.source / 0x100 % 256) as u8,
            (h.source % 256) as u8,
            (h.destination / 0x100_0000) as u8,
            (h.destination / 0x1_0000 % 256) as u8,
            (h.destination / 0x100 % 256) as u8,
            (h.destination % 256) as u8,
        ],
{
    reveal(Ipv4Header::wire);
}

/// A TCP header that is written and read again comes back unchanged,
/// whatever follows it on the wire, as long as the bytes that follow hold the
/// options that its data offset announces.
pub proof fn lemma_tcp_header_round_trip(h: TcpHeader, rest: Seq<u8>)
    requires
        5 <= h.data_offset <= 15,
        rest.len() >= (h.data_offset - 5) * 4,
    ensures
        TcpHeader::spec_from_slice(h.wire() + rest) == Some(h),
{
    lemma_tcp_wire_bytes(h);
    let bytes = h.wire() + rest;
    assert(forall|i: int| 0 <= i < 20 ==> bytes[i] == h.wire()[i]);
    let parsed = TcpHeader::spec_from_slice(bytes).unwrap();
    lemma_be_round_trip(h.source_port, h.sequence_number);
    lemma_be_round_trip(h.destination_port, h.acknowledgment_number);
    lemma_be_round_trip(h.window_size, 0);
    lemma_be_round_trip(h.checksum, 0);
    lemma_be_round_trip(h.urgent_pointer, 0);
    assert(bytes[12] / 16 == h.data_offset);
    assert(bytes[13] == h.flag_byte());
    assert(parsed.fin == h.fin);
    assert(parsed.syn == h.syn);
    assert(parsed.rst == h.rst);
    assert(parsed.psh == h.psh);
    assert(parsed.ack == h.ack);
    assert(parsed.urg == h.urg);
}

/// An IPv4 header without options that is written and read again comes back
/// unchanged, whatever follows it on the wire.
pub proof fn lemma_ipv4_header_round_trip(h: Ipv4Header, rest: Seq<u8>)
    requires
        h.ihl == 5,
    ensures
        Ipv4Header::spec_from_slice(h.wire() + rest) == Some(h),
{
    lemma_ipv4_wire_bytes(h);
    let bytes = h.wire() + rest;
    assert(forall|i: int| 0 <= i < 20 ==> bytes[i] == h.wire()[i]);
    lemma_be_round_trip(h.total_len, h.source);
    lemma_be_round_trip(h.header_checksum, h.destination);
}

impl TcpHeader {
    /// This header with another checksum field.
    pub open spec fn with_checksum(self, checksum: u16) -> TcpHeader {
        TcpHeader { checksum, ..self }
    }

    /// The bytes that the TCP checksum covers: the pseudo-header, the header
    /// and the payload.
    #[verifier::opaque]
    pub open spec fn checksummed(self, source: u32, destination: u32, payload: Seq<u8>) -> Seq<u8> {
        pseudo_header(source, destination, (20 + payload.len()) as u16) + self.wire() + payload
    }

    /// The TCP checksum of a segment made of this header, without options,
    /// and `payload`: the Internet checksum of the pseudo-header, the header
    /// with its checksum field taken as zero, and the payload.
    pub open spec fn spec_calc_checksum_ipv4(
        self,
        source: u32,
        destination: u32,
        payload: Seq<u8>,
    ) -> u16 {
        spec_internet_checksum(self.with_checksum(0).checksummed(source, destination, payload))
    }

    /// Whether the checksum field is the one a receiver expects: the Internet
    /// checksum over everything, the field itself included, is zero.
    pub open spec fn checksum_verifies(self, source: u32, destination: u32, payload: Seq<u8>) -> bool {
        spec_internet_checksum(self.checksummed(source, destination, payload)) == 0
    }

    /// Computes the TCP checksum of the segment made of this header and
    /// `payload`, sent from `source` to `destination`. The value is returned,
    /// not stored. Gives nothing if the header announces options or if the
    /// segment is too long for its length to fit the pseudo-header.
    pub fn calc_checksum_ipv4(&self, source: u32, destination: u32, payload: &[u8]) -> (r: Option<
        u16,
    >)
        ensures
            r == if self.data_offset == 5 && payload@.len() <= 0xFFFF - 20 {
                Some(self.spec_calc_checksum_ipv4(source, destination, payload@))
            } else {
                None
            },
    {
        if self.data_offset != 5 || payload.len() > 0xFFFF - 20 {
            return None;
        }
        let zeroed = TcpHeader { checksum: 0, ..*self };
        let mut buf: Vec<u8> = Vec::new();
        push_be32(&mut buf, source);
        push_be32(&mut buf, destination);
        buf.push(0);
        buf.push(PROTOCOL_TCP);
        push_be16(&mut buf, (20 + payload.len()) as u16);
        assert(buf@ =~= pseudo_header(source, destination, (20 + payload@.len()) as u16));
        let header = tcp_header_to_bytes(&zeroed);
        buf.extend_from_slice(header.as_slice());
        buf.extend_from_slice(payload);
        assert(buf@ =~= self.with_checksum(0).checksummed(source, destination, payload@)) by {
            reveal(TcpHeader::checksummed);
        }
        Some(internet_checksum(buf.as_slice()))
    }
}

impl Ipv4Header {
    /// This header with another checksum field.
    pub open spec fn with_header_checksum(self, header_checksum: u16) -> Ipv4Header {
        Ipv4Header { header_checksum, ..self }
    }

    /// The header checksum: the Internet checksum of the header with its
    /// checksum field taken as zero.
    pub open spec fn spec_calc_header_checksum(self) -> u16 {
        spec_internet_checksum(self.with_header_checksum(0).wire())
    }

    /// Whether the checksum field is the one a receiver expects: the Internet
    /// checksum over the header, the field itself included, is zero.
    pub open spec fn checksum_verifies(self) -> bool {
        spec_internet_checksum(self.wire()) == 0
    }

    /// Computes the header checksum. The value is returned, not stored. Gives
    /// nothing if the header announces options.
    pub fn calc_header_checksum(&self) -> (r: Option<u16>)
        ensures
            r == if self.ihl == 5 {
                Some(self.spec_calc_header_checksum())
            } else {
                None
            },
    {
        if self.ihl != 5 {
            return None;
        }
        let zeroed = Ipv4Header { header_checksum: 0, ..*self };
        let bytes = ipv4_header_to_bytes(&zeroed);
        Some(internet_checksum(bytes.as_slice()))
    }
}

/// Appends the big-endian bytes of `value`.
fn push_be16(out: &mut Vec<u8>, value: u16)
    ensures
        final(out)@ == old(out)@ + be16(value),
{
    out.push((value / 256) as u8);
    out.push((value % 256) as u8);
    assert(out@ =~= old(out)@ + be16(value));
}

/// Appends the big-endian bytes of `value`.
fn push_be32(out: &mut Vec<u8>, value: u32)
    ensures
        final(out)@ == old(out)@ + be32(value),
{
    out.push((value / 0x100_0000) as u8);
    out.push((value / 0x1_0000 % 256) as u8);
    out.push((value / 0x100 % 256) as u8);
    out.push((value % 256) as u8);
    assert(out@ =~= old(out)@ + be32(value));
}

/// Regrouping a concatenation of five parts.
proof fn lemma_regroup(a: Seq<u8>, b: Seq<u8>, c: Seq<u8>, d: Seq<u8>, e: Seq<u8>)
    ensures
        a + (b + c + d) + e == (a + b) + c + (d + e),
{
    assert(a + (b + c + d) + e =~= (a + b) + c + (d + e));
}

/// A TCP header on the wire is the sixteen bytes before the checksum, the
/// checksum, and the two bytes after it; the bytes around the checksum do not
/// depend on it.
proof fn lemma_tcp_wire_split(h: TcpHeader)
    ensures
        h.wire() == h.with_checksum(0).wire().take(16) + be16(h.checksum) + h.with_checksum(
            0,
        ).wire().skip(18),
        h.with_checksum(0).wire().take(16).len() == 16,
{
    lemma_tcp_wire_bytes(h);
    lemma_tcp_wire_bytes(h.with_checksum(0));
    assert(h.wire() =~= h.with_checksum(0).wire().take(16) + be16(h.checksum) + h.with_checksum(
        0,
    ).wire().skip(18));
}

/// An IPv4 header on the wire is the ten bytes before the checksum, the
/// checksum, and the eight bytes after it; the bytes around the checksum do
/// not depend on it.
proof fn lemma_ipv4_wire_split(h: Ipv4Header)
    ensures
        h.wire() == h.with_header_checksum(0).wire().take(10) + be16(h.header_checksum)
            + h.with_header_checksum(0).wire().skip(12),
        h.with_header_checksum(0).wire().take(10).len() == 10,
{
    lemma_ipv4_wire_bytes(h);
    lemma_ipv4_wire_bytes(h.with_header_checksum(0));
    assert(h.wire() =~= h.with_header_checksum(0).wire().take(10) + be16(h.header_checksum)
        + h.with_header_checksum(0).wire().skip(12));
}

/// A TCP header that carries the checksum computed for it verifies: the
/// Internet checksum over pseudo-header, header and payload is zero.
pub proof fn lemma_tcp_checksum_verifies(
    h: TcpHeader,
    source: u32,
    destination: u32,
    payload: Seq<u8>,
)
    ensures
        h.with_checksum(h.spec_calc_checksum_ipv4(source, destination, payload)).checksum_verifies(
            source,
            destination,
            payload,
        ),
{
    let c = h.spec_calc_checksum_ipv4(source, destination, payload);
    let zeroed = h.with_checksum(0);
    let filled = h.with_checksum(c);
    let pseudo = pseudo_header(source, destination, (20 + payload.len()) as u16);
    let head = zeroed.wire().take(16);
    let tail = zeroed.wire().skip(18);
    assert(filled.with_checksum(0) == zeroed);
    assert(zeroed.with_checksum(0) == zeroed);
    lemma_tcp_wire_split(zeroed);
    lemma_tcp_wire_split(filled);
    lemma_regroup(pseudo, head, be16(0), tail, payload);
    lemma_regroup(pseudo, head, be16(c), tail, payload);
    assert(pseudo.len() == 12);
    reveal(TcpHeader::checksummed);
    lemma_checksum_cancels(pseudo + head, tail + payload);
}

/// An IPv4 header that carries the checksum computed for it verifies: the
/// Internet checksum over the header is zero.
pub proof fn lemma_ipv4_checksum_verifies(h: Ipv4Header)
    ensures
        h.with_header_checksum(h.spec_calc_header_checksum()).checksum_verifies(),
{
    let c = h.spec_calc_header_checksum();
    let zeroed = h.with_header_checksum(0);
    let filled = h.with_header_checksum(c);
    assert(filled.with_header_checksum(0) == zeroed);
    assert(zeroed.with_header_checksum(0) == zeroed);
    lemma_ipv4_wire_split(zeroed);
    lemma_ipv4_wire_split(filled);
    lemma_checksum_cancels(zeroed.wire().take(10), zeroed.wire().skip(12));
}

} // verus!
