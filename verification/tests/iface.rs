use tuntcp::iface::{
    parse_segment, Error, Interface, Shutdown, TcpListener, TcpStream, Wake, SENDQUE_SIZE,
};
use tuntcp::tcp::{Quad, State};

const PEER: [u8; 4] = [192, 168, 0, 2];
const LOCAL: [u8; 4] = [192, 168, 0, 1];
const PEER_PORT: u16 = 40000;

struct Flags {
    syn: bool,
    ack: Option<u32>,
    fin: bool,
    rst: bool,
}

const SYN: Flags = Flags { syn: true, ack: None, fin: false, rst: false };

fn ack(n: u32) -> Flags {
    Flags { syn: false, ack: Some(n), fin: false, rst: false }
}

fn fin_ack(n: u32) -> Flags {
    Flags { syn: false, ack: Some(n), fin: true, rst: false }
}

/// A datagram from the peer, written by etherparse.
fn datagram(port: u16, seq: u32, window: u16, flags: Flags, payload: &[u8]) -> Vec<u8> {
    let mut tcp = etherparse::TcpHeader::new(PEER_PORT, port, seq, window);
    tcp.syn = flags.syn;
    tcp.fin = flags.fin;
    tcp.rst = flags.rst;
    if let Some(n) = flags.ack {
        tcp.ack = true;
        tcp.acknowledgment_number = n;
    }
    let ip = etherparse::Ipv4Header::new(
        (20 + payload.len()) as u16,
        64,
        etherparse::IpNumber::TCP,
        PEER,
        LOCAL,
    )
    .unwrap();
    tcp.checksum = tcp.calc_checksum_ipv4(&ip, payload).unwrap();
    let mut out: Vec<u8> = Vec::new();
    ip.write(&mut out).unwrap();
    tcp.write(&mut out).unwrap();
    out.extend_from_slice(payload);
    out
}

struct Reply {
    seq: u32,
    ack: u32,
    window: u16,
    syn: bool,
    ack_flag: bool,
    fin: bool,
    rst: bool,
    payload_len: usize,
}

/// Reads an answer with etherparse and checks addresses, ports and both
/// checksums on the way.
fn reply(datagram: &[u8], port: u16) -> Reply {
    let ip = etherparse::Ipv4HeaderSlice::from_slice(datagram).unwrap();
    assert_eq!(ip.source(), LOCAL);
    assert_eq!(ip.destination(), PEER);
    assert_eq!(ip.ttl(), 64);
    assert_eq!(ip.protocol(), etherparse::IpNumber::TCP);
    assert_eq!(ip.total_len() as usize, datagram.len());
    assert_eq!(ip.header_checksum(), ip.to_header().calc_header_checksum());
    let rest = &datagram[20..];
    let tcp = etherparse::TcpHeaderSlice::from_slice(rest).unwrap();
    assert_eq!(tcp.source_port(), port);
    assert_eq!(tcp.destination_port(), PEER_PORT);
    assert_eq!(tcp.checksum(), tcp.calc_checksum_ipv4(&ip, &rest[20..]).unwrap());
    Reply {
        seq: tcp.sequence_number(),
        ack: tcp.acknowledgment_number(),
        window: tcp.window_size(),
        syn: tcp.syn(),
        ack_flag: tcp.ack(),
        fin: tcp.fin(),
        rst: tcp.rst(),
        payload_len: rest.len() - 20,
    }
}

fn quad(port: u16) -> Quad {
    Quad { src: (0xc0a8_0002, PEER_PORT), dst: (0xc0a8_0001, port) }
}

fn state_of(ih: &Interface, port: u16) -> State {
    ih.connections.get(&quad(port).key()).unwrap().state
}

fn recv_nxt(ih: &Interface, port: u16) -> u32 {
    ih.connections.get(&quad(port).key()).unwrap().recv.nxt
}

/// An interface with a listener on `port` and one connection, opened by a
/// SYN with the given sequence number and window, established and accepted.
fn connected(port: u16, isn: u32, window: u16) -> (Interface, TcpListener, TcpStream) {
    let mut ih = Interface::new();
    let mut listener = ih.bind(port).unwrap();
    ih.on_datagram(&datagram(port, isn, window, SYN, &[]));
    let first = isn.wrapping_add(1);
    ih.on_datagram(&datagram(port, first, window, ack(1), &[]));
    let stream = listener.accept(&mut ih).unwrap();
    assert_eq!(state_of(&ih, port), State::Estab);
    (ih, listener, stream)
}

#[test]
fn three_way_handshake() {
    let mut ih = Interface::new();
    let mut listener = ih.bind(8000).unwrap();
    assert!(listener.accept(&mut ih).is_none());

    let d = ih.on_datagram(&datagram(8000, 1000, 4096, SYN, &[]));
    assert_eq!(d.wake, Wake::Acceptors);
    assert_eq!(d.datagrams.len(), 1);
    let r = reply(&d.datagrams[0], 8000);
    assert!(r.syn && r.ack_flag && !r.fin && !r.rst);
    assert_eq!((r.seq, r.ack, r.window), (0, 1001, 1024));
    assert_eq!(r.payload_len, 0);
    assert_eq!(state_of(&ih, 8000), State::SynRcvd);

    let d = ih.on_datagram(&datagram(8000, 1001, 4096, ack(1), &[]));
    assert_eq!(d.wake, Wake::Nobody);
    assert!(d.datagrams.is_empty());

    let stream = listener.accept(&mut ih).unwrap();
    assert_eq!(stream.quad, quad(8000));
    assert_eq!(state_of(&ih, 8000), State::Estab);
    assert!(listener.accept(&mut ih).is_none());
}

#[test]
fn data_delivery() {
    let (mut ih, _listener, mut stream) = connected(8000, 1000, 4096);
    let mut buf = [0u8; 16];
    assert_eq!(stream.read(&mut ih, &mut buf), Ok(None));

    let d = ih.on_datagram(&datagram(8000, 1001, 4096, ack(1), b"hello"));
    assert_eq!(d.wake, Wake::Readers);
    assert_eq!(d.datagrams.len(), 1);
    let r = reply(&d.datagrams[0], 8000);
    assert!(r.ack_flag && !r.syn && !r.fin && !r.rst);
    assert_eq!((r.seq, r.ack), (1, 1006));

    assert_eq!(stream.read(&mut ih, &mut buf), Ok(Some(5)));
    assert_eq!(&buf[..5], b"hello");
    assert_eq!(&buf[5..], &[0u8; 11]);
    assert_eq!(stream.read(&mut ih, &mut buf), Ok(None));
}

#[test]
fn out_of_window_segment() {
    let (mut ih, _listener, mut stream) = connected(8000, 1000, 1024);
    let before = {
        let c = ih.connections.get(&quad(8000).key()).unwrap();
        assert_eq!((c.recv.nxt, c.recv.wnd), (1001, 1024));
        (c.state, c.send, c.recv)
    };
    let d = ih.on_datagram(&datagram(8000, 5000, 1024, ack(1), b"x"));
    assert!(d.datagrams.is_empty());
    assert_eq!(d.wake, Wake::Nobody);
    let c = ih.connections.get(&quad(8000).key()).unwrap();
    assert_eq!((c.state, c.send, c.recv), before);
    let mut buf = [0u8; 4];
    assert_eq!(stream.read(&mut ih, &mut buf), Ok(None));
}

#[test]
fn passive_close() {
    let (mut ih, _listener, mut stream) = connected(8000, 1000, 4096);
    ih.on_datagram(&datagram(8000, 1001, 4096, ack(1), b"hello"));
    let mut buf = [0u8; 16];
    assert_eq!(stream.read(&mut ih, &mut buf), Ok(Some(5)));

    let d = ih.on_datagram(&datagram(8000, 1006, 4096, fin_ack(1), &[]));
    assert_eq!(d.wake, Wake::Readers);
    assert_eq!(d.datagrams.len(), 1);
    let r = reply(&d.datagrams[0], 8000);
    assert!(r.ack_flag && !r.syn && !r.fin && !r.rst);
    assert_eq!((r.seq, r.ack), (1, 1007));
    assert_eq!(state_of(&ih, 8000), State::CloseWait);
    assert_eq!(stream.read(&mut ih, &mut buf), Ok(Some(0)));
    assert_eq!(stream.read(&mut ih, &mut buf), Ok(Some(0)));
}

#[test]
fn passive_close_with_data_still_queued() {
    let (mut ih, _listener, mut stream) = connected(8000, 1000, 4096);
    ih.on_datagram(&datagram(8000, 1001, 4096, ack(1), b"hello"));
    ih.on_datagram(&datagram(8000, 1006, 4096, fin_ack(1), &[]));
    let mut buf = [0u8; 3];
    assert_eq!(stream.read(&mut ih, &mut buf), Ok(Some(3)));
    assert_eq!(&buf, b"hel");
    assert_eq!(stream.read(&mut ih, &mut buf), Ok(Some(2)));
    assert_eq!(&buf, b"lol");
    assert_eq!(stream.read(&mut ih, &mut buf), Ok(Some(0)));
}

#[test]
fn duplicate_ack_is_not_answered() {
    let (mut ih, _listener, _stream) = connected(8000, 1000, 4096);
    ih.on_datagram(&datagram(8000, 1001, 4096, ack(1), b"hello"));
    let before = {
        let c = ih.connections.get(&quad(8000).key()).unwrap();
        assert_eq!(c.send.una, 1);
        (c.state, c.send, c.recv, c.incoming.clone())
    };
    let d = ih.on_datagram(&datagram(8000, 1006, 4096, ack(1), &[]));
    assert!(d.datagrams.is_empty());
    let c = ih.connections.get(&quad(8000).key()).unwrap();
    assert_eq!((c.state, c.send, c.recv, c.incoming.clone()), before);
}

#[test]
fn sequence_wraparound() {
    let isn: u32 = u32::MAX - 2;
    let (mut ih, _listener, mut stream) = connected(8000, isn, 4096);
    assert_eq!(recv_nxt(&ih, 8000), u32::MAX - 1);
    let d = ih.on_datagram(&datagram(8000, isn, 4096, ack(1), b"0123456789"));
    assert_eq!(recv_nxt(&ih, 8000), 7);
    assert_eq!(reply(&d.datagrams[0], 8000).ack, 7);
    let mut buf = [0u8; 16];
    assert_eq!(stream.read(&mut ih, &mut buf), Ok(Some(9)));
    assert_eq!(&buf[..9], b"123456789");
}

#[test]
fn bind_twice_is_refused() {
    let mut ih = Interface::new();
    let listener = ih.bind(8000).unwrap();
    assert_eq!(listener.port, 8000);
    assert_eq!(ih.bind(8000).unwrap_err(), Error::AddrInUse);
    assert!(ih.bind(8001).is_ok());
    assert_eq!(ih.pendings.len(), 2);
}

#[test]
fn listener_close_frees_the_port() {
    let mut ih = Interface::new();
    let listener = ih.bind(8000).unwrap();
    ih.on_datagram(&datagram(8000, 1000, 4096, SYN, &[]));
    let left = listener.close(&mut ih);
    assert_eq!(left.iter().copied().collect::<Vec<Quad>>(), vec![quad(8000)]);
    assert!(ih.pendings.is_empty());
    assert_eq!(ih.connections.len(), 1);
    // the port can be bound again, and nothing waits there
    let mut again = ih.bind(8000).unwrap();
    assert!(again.accept(&mut ih).is_none());
}

#[test]
fn syn_to_unbound_port_is_dropped() {
    let mut ih = Interface::new();
    let _listener = ih.bind(8000).unwrap();
    let d = ih.on_datagram(&datagram(9000, 1000, 4096, SYN, &[]));
    assert!(d.datagrams.is_empty());
    assert_eq!(d.wake, Wake::Nobody);
    assert!(ih.connections.is_empty());
}

#[test]
fn first_segment_that_is_no_syn_is_dropped() {
    let mut ih = Interface::new();
    let mut listener = ih.bind(8000).unwrap();
    for flags in [
        ack(1),
        Flags { syn: true, ack: Some(1), fin: false, rst: false },
        Flags { syn: true, ack: None, fin: false, rst: true },
        Flags { syn: false, ack: None, fin: false, rst: true },
        Flags { syn: false, ack: None, fin: false, rst: false },
    ] {
        let d = ih.on_datagram(&datagram(8000, 1000, 4096, flags, &[]));
        assert!(d.datagrams.is_empty());
        assert_eq!(d.wake, Wake::Nobody);
    }
    assert!(ih.connections.is_empty());
    assert!(listener.accept(&mut ih).is_none());
}

#[test]
fn repeated_syn_opens_one_connection() {
    let mut ih = Interface::new();
    let mut listener = ih.bind(8000).unwrap();
    ih.on_datagram(&datagram(8000, 1000, 4096, SYN, &[]));
    let d = ih.on_datagram(&datagram(8000, 1000, 4096, SYN, &[]));
    assert!(d.datagrams.is_empty());
    assert_eq!(ih.connections.len(), 1);
    assert!(listener.accept(&mut ih).is_some());
    assert!(listener.accept(&mut ih).is_none());
}

#[test]
fn connections_are_accepted_oldest_first() {
    let mut ih = Interface::new();
    let mut listener = ih.bind(8000).unwrap();
    let mut from = |port: u16, ih: &mut Interface| {
        let mut d = datagram(8000, 1, 4096, SYN, &[]);
        // another source port; the checksum is not looked at
        d[20] = (port >> 8) as u8;
        d[21] = (port & 0xff) as u8;
        ih.on_datagram(&d);
    };
    from(3, &mut ih);
    from(1, &mut ih);
    from(2, &mut ih);
    let ports: Vec<u16> =
        (0..3).map(|_| listener.accept(&mut ih).unwrap().quad.src.1).collect();
    assert_eq!(ports, vec![3, 1, 2]);
    assert!(listener.accept(&mut ih).is_none());
}

#[test]
fn datagram_that_holds_no_segment_is_dropped() {
    let mut ih = Interface::new();
    let _listener = ih.bind(8000).unwrap();
    let good = datagram(8000, 1000, 4096, SYN, &[]);
    let mut cases: Vec<Vec<u8>> = Vec::new();
    cases.push(Vec::new());
    cases.push(good[..19].to_vec());
    cases.push(good[..39].to_vec());
    let mut udp = good.clone();
    udp[9] = 17;
    cases.push(udp);
    let mut v6 = good.clone();
    v6[0] = 0x65;
    cases.push(v6);
    let mut short_ihl = good.clone();
    short_ihl[0] = 0x44;
    cases.push(short_ihl);
    let mut short_offset = good.clone();
    short_offset[32] = 0x40;
    cases.push(short_offset);
    let mut long_offset = good.clone();
    long_offset[32] = 0x60;
    cases.push(long_offset);
    let mut short_total = good.clone();
    short_total[2] = 0;
    short_total[3] = 19;
    cases.push(short_total);
    for case in cases {
        assert!(parse_segment(&case).is_none());
        let d = ih.on_datagram(&case);
        assert!(d.datagrams.is_empty());
        assert_eq!(d.wake, Wake::Nobody);
    }
    assert!(ih.connections.is_empty());
    assert!(parse_segment(&good).is_some());
}

#[test]
fn segment_is_found_behind_options() {
    let plain = datagram(8000, 1000, 4096, SYN, b"data");
    let mut d: Vec<u8> = Vec::new();
    d.extend_from_slice(&plain[..20]);
    d[0] = 0x46;
    d.extend_from_slice(&[1, 1, 1, 0]);
    d.extend_from_slice(&plain[20..40]);
    d[24 + 12] = 0x60;
    d.extend_from_slice(&[1, 1, 1, 0]);
    d.extend_from_slice(b"data");
    let (ip, tcp, data) = parse_segment(&d).unwrap();
    assert_eq!((ip.ihl, ip.source, ip.destination), (6, 0xc0a8_0002, 0xc0a8_0001));
    assert_eq!((tcp.data_offset, tcp.source_port, tcp.destination_port), (6, PEER_PORT, 8000));
    assert_eq!(tcp.sequence_number, 1000);
    assert!(tcp.syn && !tcp.ack);
    assert_eq!(data, b"data");
}

#[test]
fn handshake_with_wrong_ack_is_reset() {
    let mut ih = Interface::new();
    let _listener = ih.bind(8000).unwrap();
    ih.on_datagram(&datagram(8000, 1000, 4096, SYN, &[]));
    let d = ih.on_datagram(&datagram(8000, 1001, 4096, ack(9), &[]));
    assert_eq!(d.datagrams.len(), 1);
    let r = reply(&d.datagrams[0], 8000);
    assert!(r.rst);
    assert_eq!((r.seq, r.ack), (0, 0));
    assert_eq!(state_of(&ih, 8000), State::SynRcvd);
}

#[test]
fn read_takes_what_fits() {
    let (mut ih, _listener, mut stream) = connected(8000, 1000, 4096);
    ih.on_datagram(&datagram(8000, 1001, 4096, ack(1), b"hello"));
    let mut none = [0u8; 0];
    assert_eq!(stream.read(&mut ih, &mut none), Ok(Some(0)));
    let mut two = [0u8; 2];
    assert_eq!(stream.read(&mut ih, &mut two), Ok(Some(2)));
    assert_eq!(&two, b"he");
    let mut rest = [9u8; 8];
    assert_eq!(stream.read(&mut ih, &mut rest), Ok(Some(3)));
    assert_eq!(&rest, &[b'l', b'l', b'o', 9, 9, 9, 9, 9]);
}

#[test]
fn stream_without_connection_is_aborted() {
    let mut ih = Interface::new();
    let mut stream = TcpStream { quad: quad(8000) };
    let mut buf = [0u8; 4];
    assert_eq!(stream.read(&mut ih, &mut buf), Err(Error::ConnectionAborted));
    assert_eq!(stream.write(&mut ih, b"abc"), Err(Error::ConnectionAborted));
    assert_eq!(stream.flush(&ih), Err(Error::ConnectionAborted));
    assert_eq!(stream.shutdown(&mut ih, Shutdown::Write), Err(Error::ConnectionAborted));
}

#[test]
fn write_queues_up_to_capacity() {
    let (mut ih, _listener, mut stream) = connected(8000, 1000, 4096);
    assert_eq!(stream.flush(&ih), Ok(()));
    assert_eq!(stream.write(&mut ih, b"abc"), Ok(3));
    assert_eq!(stream.flush(&ih), Err(Error::WouldBlock));
    assert_eq!(stream.write(&mut ih, &[]), Ok(0));
    let big = vec![7u8; 2000];
    assert_eq!(stream.write(&mut ih, &big), Ok(SENDQUE_SIZE - 3));
    assert_eq!(stream.write(&mut ih, b"x"), Err(Error::WouldBlock));
    assert_eq!(stream.write(&mut ih, &[]), Err(Error::WouldBlock));
    let c = ih.connections.get(&quad(8000).key()).unwrap();
    assert_eq!(c.unacked.len(), 1024);
    assert_eq!(c.unacked.iter().take(4).copied().collect::<Vec<u8>>(), vec![b'a', b'b', b'c', 7]);
    // nothing was sent
    assert_eq!(c.send.nxt, 1);
}

#[test]
fn shutdown_marks_the_connection() {
    let (mut ih, _listener, stream) = connected(8000, 1000, 4096);
    for how in [Shutdown::Read, Shutdown::Write, Shutdown::Both] {
        assert_eq!(stream.shutdown(&mut ih, how), Ok(()));
        let c = ih.connections.get(&quad(8000).key()).unwrap();
        assert!(c.closed);
        assert_eq!(c.state, State::Estab);
    }
}

#[test]
fn terminate_sets_the_flag() {
    let mut ih = Interface::new();
    assert!(!ih.terminate);
    ih.terminate();
    assert!(ih.terminate);
}

#[test]
fn connections_are_kept_apart() {
    let mut ih = Interface::new();
    let mut a = ih.bind(8000).unwrap();
    let mut b = ih.bind(8001).unwrap();
    ih.on_datagram(&datagram(8000, 100, 4096, SYN, &[]));
    ih.on_datagram(&datagram(8001, 200, 4096, SYN, &[]));
    ih.on_datagram(&datagram(8001, 201, 4096, ack(1), b"to b"));
    ih.on_datagram(&datagram(8000, 101, 4096, ack(1), b"to a"));
    let mut sa = a.accept(&mut ih).unwrap();
    let mut sb = b.accept(&mut ih).unwrap();
    let mut buf = [0u8; 8];
    assert_eq!(sa.read(&mut ih, &mut buf), Ok(Some(4)));
    assert_eq!(&buf[..4], b"to a");
    assert_eq!(sb.read(&mut ih, &mut buf), Ok(Some(4)));
    assert_eq!(&buf[..4], b"to b");
}
