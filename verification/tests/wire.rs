use tuntcp::checksum::internet_checksum;
use tuntcp::wire::{Ipv4Header, TcpHeader, MIN_HEADER_LEN, PROTOCOL_TCP};

fn sample_tcp() -> TcpHeader {
    TcpHeader {
        source_port: 0x1f90,
        destination_port: 0xc001,
        sequence_number: 0x0102_0304,
        acknowledgment_number: 0xa0b0_c0d0,
        data_offset: 5,
        urg: false,
        ack: true,
        psh: false,
        rst: false,
        syn: true,
        fin: false,
        window_size: 0x0400,
        checksum: 0xbeef,
        urgent_pointer: 0x0007,
    }
}

fn sample_ip() -> Ipv4Header {
    Ipv4Header {
        ihl: 5,
        total_len: 40,
        time_to_live: 64,
        protocol: PROTOCOL_TCP,
        header_checksum: 0x1234,
        source: 0xc0a8_0001,
        destination: 0xc0a8_0002,
    }
}

fn reference_tcp(h: &TcpHeader) -> etherparse::TcpHeader {
    let mut t = etherparse::TcpHeader::new(
        h.source_port,
        h.destination_port,
        h.sequence_number,
        h.window_size,
    );
    t.acknowledgment_number = h.acknowledgment_number;
    t.urg = h.urg;
    t.ack = h.ack;
    t.psh = h.psh;
    t.rst = h.rst;
    t.syn = h.syn;
    t.fin = h.fin;
    t.checksum = h.checksum;
    t.urgent_pointer = h.urgent_pointer;
    t
}

#[test]
fn tcp_header_bytes_are_big_endian_in_layout_order() {
    let bytes = sample_tcp().to_bytes().unwrap();
    assert_eq!(
        bytes,
        vec![
            0x1f, 0x90, 0xc0, 0x01, 0x01, 0x02, 0x03, 0x04, 0xa0, 0xb0, 0xc0, 0xd0, 0x50, 0x12,
            0x04, 0x00, 0xbe, 0xef, 0x00, 0x07,
        ]
    );
    assert_eq!(bytes.len(), MIN_HEADER_LEN);
}

#[test]
fn tcp_header_each_flag_has_its_bit() {
    let mut h = sample_tcp();
    h.syn = false;
    h.ack = false;
    let flags = |h: &TcpHeader| h.to_bytes().unwrap()[13];
    assert_eq!(flags(&h), 0);
    assert_eq!(flags(&TcpHeader { fin: true, ..h }), 0x01);
    assert_eq!(flags(&TcpHeader { syn: true, ..h }), 0x02);
    assert_eq!(flags(&TcpHeader { rst: true, ..h }), 0x04);
    assert_eq!(flags(&TcpHeader { psh: true, ..h }), 0x08);
    assert_eq!(flags(&TcpHeader { ack: true, ..h }), 0x10);
    assert_eq!(flags(&TcpHeader { urg: true, ..h }), 0x20);
}

#[test]
fn tcp_header_with_options_is_not_written() {
    let h = TcpHeader { data_offset: 6, ..sample_tcp() };
    assert_eq!(h.to_bytes(), None);
    let h = TcpHeader { data_offset: 4, ..sample_tcp() };
    assert_eq!(h.to_bytes(), None);
}

#[test]
fn tcp_header_round_trip() {
    let h = sample_tcp();
    let mut bytes = h.to_bytes().unwrap();
    assert_eq!(TcpHeader::from_slice(&bytes), Some((h, 20)));
    bytes.extend_from_slice(b"payload");
    assert_eq!(TcpHeader::from_slice(&bytes), Some((h, 20)));
}

#[test]
fn tcp_header_round_trip_of_extreme_values() {
    let h = TcpHeader {
        source_port: 0xffff,
        destination_port: 0,
        sequence_number: 0xffff_ffff,
        acknowledgment_number: 0,
        data_offset: 5,
        urg: true,
        ack: true,
        psh: true,
        rst: true,
        syn: true,
        fin: true,
        window_size: 0xffff,
        checksum: 0,
        urgent_pointer: 0xffff,
    };
    assert_eq!(TcpHeader::from_slice(&h.to_bytes().unwrap()), Some((h, 20)));
    let h = TcpHeader {
        source_port: 0,
        destination_port: 0xffff,
        sequence_number: 0,
        acknowledgment_number: 0xffff_ffff,
        data_offset: 5,
        urg: false,
        ack: false,
        psh: false,
        rst: false,
        syn: false,
        fin: false,
        window_size: 0,
        checksum: 0xffff,
        urgent_pointer: 0,
    };
    assert_eq!(TcpHeader::from_slice(&h.to_bytes().unwrap()), Some((h, 20)));
}

#[test]
fn tcp_header_with_options_is_read() {
    let mut bytes = sample_tcp().to_bytes().unwrap();
    bytes[12] = 0x70;
    bytes.extend_from_slice(&[1, 1, 1, 1, 1, 1, 1, 0]);
    bytes.extend_from_slice(b"xyz");
    let expected = TcpHeader { data_offset: 7, ..sample_tcp() };
    assert_eq!(TcpHeader::from_slice(&bytes), Some((expected, 28)));
}

#[test]
fn tcp_header_shorter_than_twenty_bytes_is_refused() {
    let bytes = sample_tcp().to_bytes().unwrap();
    assert_eq!(TcpHeader::from_slice(&bytes[..19]), None);
    assert_eq!(TcpHeader::from_slice(&[]), None);
    assert!(TcpHeader::from_slice(&bytes[..20]).is_some());
}

#[test]
fn tcp_header_with_small_data_offset_is_refused() {
    let mut bytes = sample_tcp().to_bytes().unwrap();
    bytes[12] = 0x40;
    assert_eq!(TcpHeader::from_slice(&bytes), None);
    bytes[12] = 0x00;
    assert_eq!(TcpHeader::from_slice(&bytes), None);
}

#[test]
fn tcp_header_longer_than_slice_is_refused() {
    let mut bytes = sample_tcp().to_bytes().unwrap();
    bytes[12] = 0x60;
    assert_eq!(TcpHeader::from_slice(&bytes), None);
    bytes.extend_from_slice(&[0, 0, 0]);
    assert_eq!(TcpHeader::from_slice(&bytes), None);
    bytes.push(0);
    assert!(TcpHeader::from_slice(&bytes).is_some());
}

#[test]
fn tcp_header_ignores_reserved_bits() {
    let mut bytes = sample_tcp().to_bytes().unwrap();
    bytes[12] |= 0x0f;
    bytes[13] |= 0xc0;
    assert_eq!(TcpHeader::from_slice(&bytes), Some((sample_tcp(), 20)));
}

#[test]
fn ipv4_header_bytes_are_big_endian_in_layout_order() {
    let bytes = sample_ip().to_bytes().unwrap();
    assert_eq!(
        bytes,
        vec![
            0x45, 0x00, 0x00, 0x28, 0x00, 0x00, 0x40, 0x00, 0x40, 0x06, 0x12, 0x34, 0xc0, 0xa8,
            0x00, 0x01, 0xc0, 0xa8, 0x00, 0x02,
        ]
    );
}

#[test]
fn ipv4_header_with_options_is_not_written() {
    let h = Ipv4Header { ihl: 6, ..sample_ip() };
    assert_eq!(h.to_bytes(), None);
    assert_eq!(h.calc_header_checksum(), None);
}

#[test]
fn ipv4_header_round_trip() {
    let h = sample_ip();
    let mut bytes = h.to_bytes().unwrap();
    assert_eq!(Ipv4Header::from_slice(&bytes), Some((h, 20)));
    bytes.extend_from_slice(&[9; 20]);
    assert_eq!(Ipv4Header::from_slice(&bytes), Some((h, 20)));
    let h = Ipv4Header {
        ihl: 5,
        total_len: 0xffff,
        time_to_live: 0xff,
        protocol: 0xff,
        header_checksum: 0xffff,
        source: 0xffff_ffff,
        destination: 0,
    };
    assert_eq!(Ipv4Header::from_slice(&h.to_bytes().unwrap()), Some((h, 20)));
}

#[test]
fn ipv4_header_with_options_is_read() {
    let mut bytes = sample_ip().to_bytes().unwrap();
    bytes[0] = 0x46;
    bytes.extend_from_slice(&[1, 1, 1, 0]);
    let expected = Ipv4Header { ihl: 6, ..sample_ip() };
    assert_eq!(Ipv4Header::from_slice(&bytes), Some((expected, 24)));
}

#[test]
fn ipv4_header_malformed_is_refused() {
    let good = sample_ip().to_bytes().unwrap();
    assert_eq!(Ipv4Header::from_slice(&good[..19]), None);
    let mut bytes = good.clone();
    bytes[0] = 0x65;
    assert_eq!(Ipv4Header::from_slice(&bytes), None);
    let mut bytes = good.clone();
    bytes[0] = 0x44;
    assert_eq!(Ipv4Header::from_slice(&bytes), None);
    let mut bytes = good.clone();
    bytes[0] = 0x46;
    assert_eq!(Ipv4Header::from_slice(&bytes), None);
}

#[test]
fn ipv4_header_checksum_agrees_with_reference() {
    let h = sample_ip();
    let reference = etherparse::Ipv4Header::new(
        20,
        64,
        etherparse::IpNumber::TCP,
        [192, 168, 0, 1],
        [192, 168, 0, 2],
    )
    .unwrap();
    assert_eq!(h.calc_header_checksum(), Some(reference.calc_header_checksum()));
    // the field itself does not count
    let other = Ipv4Header { header_checksum: 0, ..h };
    assert_eq!(other.calc_header_checksum(), h.calc_header_checksum());
}

#[test]
fn ipv4_header_with_its_checksum_verifies() {
    let h = sample_ip();
    let sealed = Ipv4Header { header_checksum: h.calc_header_checksum().unwrap(), ..h };
    assert_eq!(internet_checksum(&sealed.to_bytes().unwrap()), 0);
    // 0x4500 + 0x0028 + 0x4000 + 0x4006 + 0xc0a8 + 0x0001 + 0xc0a8 + 0x0002 = 0x24681,
    // folded 0x4683
    assert_eq!(sealed.header_checksum, 0xb97c);
}

#[test]
fn tcp_checksum_agrees_with_reference() {
    let h = sample_tcp();
    let payloads: [&[u8]; 4] = [b"", b"a", b"hello", &[0xff; 1460]];
    let addresses: [(u32, u32); 3] =
        [(0xc0a8_0001, 0xc0a8_0002), (0, 0), (0xffff_ffff, 0x0a00_0001)];
    for payload in payloads {
        for (source, destination) in addresses {
            let expected = reference_tcp(&h)
                .calc_checksum_ipv4_raw(
                    source.to_be_bytes(),
                    destination.to_be_bytes(),
                    payload,
                )
                .unwrap();
            assert_eq!(h.calc_checksum_ipv4(source, destination, payload), Some(expected));
        }
    }
}

#[test]
fn tcp_checksum_does_not_count_the_field() {
    let h = sample_tcp();
    let other = TcpHeader { checksum: 0, ..h };
    assert_eq!(
        h.calc_checksum_ipv4(1, 2, b"abc"),
        other.calc_checksum_ipv4(1, 2, b"abc")
    );
}

#[test]
fn tcp_checksum_of_known_segment() {
    // 10.0.0.1 -> 10.0.0.2, ports 1 -> 2, everything else zero but the data offset
    let h = TcpHeader {
        source_port: 1,
        destination_port: 2,
        sequence_number: 0,
        acknowledgment_number: 0,
        data_offset: 5,
        urg: false,
        ack: false,
        psh: false,
        rst: false,
        syn: false,
        fin: false,
        window_size: 0,
        checksum: 0,
        urgent_pointer: 0,
    };
    // pseudo-header: 0a00 0001 0a00 0002 0006 0014; header: 0001 0002 5000
    // sum = 0x0a00 + 0x0001 + 0x0a00 + 0x0002 + 0x0006 + 0x0014 + 0x0001 + 0x0002 + 0x5000
    let sum: u32 = 0x0a00 + 0x0001 + 0x0a00 + 0x0002 + 0x0006 + 0x0014 + 0x0001 + 0x0002 + 0x5000;
    assert_eq!(h.calc_checksum_ipv4(0x0a00_0001, 0x0a00_0002, b""), Some(!(sum as u16)));
}

#[test]
fn tcp_checksum_needs_a_segment_that_fits() {
    let h = sample_tcp();
    let payload = vec![0u8; 0xffff - 20];
    assert!(h.calc_checksum_ipv4(1, 2, &payload).is_some());
    let payload = vec![0u8; 0xffff - 19];
    assert_eq!(h.calc_checksum_ipv4(1, 2, &payload), None);
    let h = TcpHeader { data_offset: 6, ..h };
    assert_eq!(h.calc_checksum_ipv4(1, 2, b""), None);
}

#[test]
fn tcp_segment_with_its_checksum_verifies() {
    let h = sample_tcp();
    let (source, destination) = (0xc0a8_0001u32, 0xc0a8_0002u32);
    for payload in [&b""[..], &b"x"[..], &b"hello world"[..]] {
        let c = h.calc_checksum_ipv4(source, destination, payload).unwrap();
        let sealed = TcpHeader { checksum: c, ..h };
        let mut all: Vec<u8> = Vec::new();
        all.extend_from_slice(&source.to_be_bytes());
        all.extend_from_slice(&destination.to_be_bytes());
        all.extend_from_slice(&[0, PROTOCOL_TCP]);
        all.extend_from_slice(&((20 + payload.len()) as u16).to_be_bytes());
        all.extend_from_slice(&sealed.to_bytes().unwrap());
        all.extend_from_slice(payload);
        assert_eq!(internet_checksum(&all), 0);
    }
}

/// What the layout says a TCP header in `b` is, written out with division
/// and remainder.
fn tcp_by_layout(b: &[u8]) -> Option<(TcpHeader, usize)> {
    if b.len() < 20 || b[12] / 16 < 5 || b.len() < (b[12] / 16) as usize * 4 {
        return None;
    }
    let word = |i: usize| b[i] as u16 * 256 + b[i + 1] as u16;
    let long = |i: usize| word(i) as u32 * 65536 + word(i + 2) as u32;
    let bit = |weight: u8| b[13] / weight % 2 == 1;
    Some((
        TcpHeader {
            source_port: word(0),
            destination_port: word(2),
            sequence_number: long(4),
            acknowledgment_number: long(8),
            data_offset: b[12] / 16,
            urg: bit(32),
            ack: bit(16),
            psh: bit(8),
            rst: bit(4),
            syn: bit(2),
            fin: bit(1),
            window_size: word(14),
            checksum: word(16),
            urgent_pointer: word(18),
        },
        (b[12] / 16) as usize * 4,
    ))
}

/// What the layout says an IPv4 header in `b` is.
fn ipv4_by_layout(b: &[u8]) -> Option<(Ipv4Header, usize)> {
    if b.len() < 20 || b[0] / 16 != 4 || b[0] % 16 < 5 || b.len() < (b[0] % 16) as usize * 4 {
        return None;
    }
    let word = |i: usize| b[i] as u16 * 256 + b[i + 1] as u16;
    let long = |i: usize| word(i) as u32 * 65536 + word(i + 2) as u32;
    Some((
        Ipv4Header {
            ihl: b[0] % 16,
            total_len: word(2),
            time_to_live: b[8],
            protocol: b[9],
            header_checksum: word(10),
            source: long(12),
            destination: long(16),
        },
        (b[0] % 16) as usize * 4,
    ))
}

fn noise(state: &mut u32, len: usize) -> Vec<u8> {
    let mut out = Vec::with_capacity(len);
    for _ in 0..len {
        *state = state.wrapping_mul(1_664_525).wrapping_add(1_013_904_223);
        out.push((*state >> 24) as u8);
    }
    out
}

#[test]
fn tcp_header_is_read_as_the_layout_says() {
    let mut state: u32 = 7;
    let mut accepted = 0;
    for round in 0..4000usize {
        let mut bytes = noise(&mut state, round % 70);
        if bytes.len() > 12 && round % 2 == 0 {
            // make a plausible data offset more likely
            bytes[12] = (bytes[12] & 0x0f) | (((5 + round % 11) as u8) << 4);
        }
        let read = TcpHeader::from_slice(&bytes);
        assert_eq!(read, tcp_by_layout(&bytes));
        if read.is_some() {
            accepted += 1;
        }
    }
    assert!(accepted > 500);
}

#[test]
fn ipv4_header_is_read_as_the_layout_says() {
    let mut state: u32 = 11;
    let mut accepted = 0;
    for round in 0..4000usize {
        let mut bytes = noise(&mut state, round % 70);
        if !bytes.is_empty() && round % 2 == 0 {
            bytes[0] = 0x40 | (bytes[0] & 0x0f);
        }
        let read = Ipv4Header::from_slice(&bytes);
        assert_eq!(read, ipv4_by_layout(&bytes));
        if read.is_some() {
            accepted += 1;
        }
    }
    assert!(accepted > 300);
}

#[test]
fn headers_are_written_as_the_layout_says() {
    let mut state: u32 = 13;
    for _ in 0..2000 {
        let b = noise(&mut state, 20);
        let word = |i: usize| b[i] as u16 * 256 + b[i + 1] as u16;
        let long = |i: usize| word(i) as u32 * 65536 + word(i + 2) as u32;
        let tcp = TcpHeader {
            source_port: word(0),
            destination_port: word(2),
            sequence_number: long(4),
            acknowledgment_number: long(8),
            data_offset: 5,
            urg: b[13] & 32 != 0,
            ack: b[13] & 16 != 0,
            psh: b[13] & 8 != 0,
            rst: b[13] & 4 != 0,
            syn: b[13] & 2 != 0,
            fin: b[13] & 1 != 0,
            window_size: word(14),
            checksum: word(16),
            urgent_pointer: word(18),
        };
        let mut expected = b.clone();
        expected[12] = 0x50;
        expected[13] &= 0x3f;
        assert_eq!(tcp.to_bytes().unwrap(), expected);
        assert_eq!(TcpHeader::from_slice(&expected), Some((tcp, 20)));

        let ip = Ipv4Header {
            ihl: 5,
            total_len: word(2),
            time_to_live: b[8],
            protocol: b[9],
            header_checksum: word(10),
            source: long(12),
            destination: long(16),
        };
        let mut expected = b.clone();
        expected[0] = 0x45;
        expected[1] = 0;
        expected[4..8].copy_from_slice(&[0, 0, 0x40, 0]);
        assert_eq!(ip.to_bytes().unwrap(), expected);
        assert_eq!(Ipv4Header::from_slice(&expected), Some((ip, 20)));
    }
}
