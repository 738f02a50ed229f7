use farsight::net::tcp::{
    cookie, finalize_checksum, finalize_partial, from_octets, ipv4_sum, octets, raw_partial, tcp,
    tcp_sum, TcpFlags, ACK_BIT, COOKIE_K64, FIN_BIT, PSH_BIT, RST_BIT, SYN_BIT, TCP_PACKET,
};

fn reference_cookie(o: [u8; 4], port: u16, seed: u64) -> u32 {
    let word = (o[0] as u64) | ((o[1] as u64) << 8) | ((o[2] as u64) << 16) | ((o[3] as u64) << 24);
    word.wrapping_mul(COOKIE_K64)
        .wrapping_add(port as u64)
        .wrapping_mul(COOKIE_K64)
        .wrapping_add(seed)
        .wrapping_mul(COOKIE_K64) as u32
}

fn reference_checksum(src: [u8; 4], dst: [u8; 4], data: &[u8]) -> u16 {
    let mut bytes: Vec<u8> = Vec::new();
    bytes.extend_from_slice(&src);
    bytes.extend_from_slice(&dst);
    bytes.push(0);
    bytes.push(6);
    bytes.push((data.len() >> 8) as u8);
    bytes.push((data.len() & 0xff) as u8);
    bytes.extend_from_slice(data);
    if bytes.len() % 2 == 1 {
        bytes.push(0);
    }
    let mut sum: u32 = 0;
    for pair in bytes.chunks(2) {
        sum += ((pair[0] as u32) << 8) | pair[1] as u32;
        if sum > 0xffff {
            sum = (sum & 0xffff) + 1;
        }
    }
    !(sum as u16)
}

#[test]
fn octets_and_bits_agree() {
    assert_eq!(octets(0x0a00_0001), [10, 0, 0, 1]);
    assert_eq!(from_octets(&[192, 168, 1, 1]), 0xc0a8_0101);
    assert_eq!(from_octets(&octets(0xdead_beef)), 0xdead_beef);
    assert_eq!(octets(0), [0, 0, 0, 0]);
    assert_eq!(octets(u32::MAX), [255, 255, 255, 255]);
}

#[test]
fn template_is_a_syn_frame_without_addresses() {
    assert_eq!(TCP_PACKET.len(), 62);
    assert_eq!(&TCP_PACKET[12..14], &[0x08, 0x00]);
    assert_eq!(TCP_PACKET[14], 0x45);
    assert_eq!(&TCP_PACKET[16..18], &[0x00, 0x30]);
    assert_eq!(TCP_PACKET[20], 0x40);
    assert_eq!(TCP_PACKET[22], 64);
    assert_eq!(TCP_PACKET[23], 6);
    assert_eq!(TCP_PACKET[46], 0x70);
    assert_eq!(&TCP_PACKET[48..50], &[0x80, 0x00]);
    assert_eq!(&TCP_PACKET[54..58], &[0x02, 0x04, 0x05, 0x3c]);
    assert_eq!(&TCP_PACKET[58..62], &[0x01, 0x01, 0x04, 0x02]);
}

#[test]
fn fixed_header_words_sum_to_the_cached_constant() {
    let mut sum: u32 = 0;
    for i in [14usize, 16, 18, 20, 22] {
        sum += ((TCP_PACKET[i] as u32) << 8) | TCP_PACKET[i + 1] as u32;
    }
    assert_eq!(sum, 50487);
}

#[test]
fn flags_have_their_header_bits() {
    assert_eq!(TcpFlags::fin().bits(), 0x01);
    assert_eq!(TcpFlags::syn().bits(), 0x02);
    assert_eq!(TcpFlags::rst().bits(), 0x04);
    assert_eq!(TcpFlags::psh().bits(), 0x08);
    assert_eq!(TcpFlags::ack().bits(), 0x10);
    assert_eq!(TcpFlags::urg().bits(), 0x20);
    assert_eq!(TcpFlags::ece().bits(), 0x40);
    assert_eq!(TcpFlags::cwr().bits(), 0x80);
    assert_eq!(TcpFlags::empty().bits(), 0);
    assert_eq!((FIN_BIT, SYN_BIT, RST_BIT, PSH_BIT, ACK_BIT), (1, 2, 4, 8, 16));
}

#[test]
fn flags_union_contains_intersects() {
    let syn_ack = TcpFlags::syn().union(TcpFlags::ack());
    assert_eq!(syn_ack.bits(), 0x12);
    assert!(syn_ack.contains(TcpFlags::syn()));
    assert!(syn_ack.contains(syn_ack));
    assert!(!TcpFlags::ack().contains(syn_ack));
    assert!(syn_ack.intersects(TcpFlags::ack()));
    assert!(!syn_ack.intersects(TcpFlags::fin()));
    assert!(!syn_ack.intersects(TcpFlags::empty()));
    assert_eq!(TcpFlags::from_bits_retain(0xc2).bits(), 0xc2);
    assert_eq!(TcpFlags::from_bits_retain(0x12), syn_ack);
}

#[test]
fn cookie_has_its_exact_value() {
    assert_eq!(cookie(0x0a00_0001, 25565, 0x0123_4567_89ab_cdef), 0x8a0b_7162);
    assert_eq!(cookie(0x0102_0304, 80, 7), 0xbd6e_49f0);
    assert_eq!(cookie(0, 0, 0), 0);
}

#[test]
fn cookie_follows_the_formula() {
    for (ip, port, seed) in [
        ([10u8, 0, 0, 1], 25565u16, 0x0123_4567_89ab_cdefu64),
        ([255, 255, 255, 255], 65535, u64::MAX),
        ([1, 2, 3, 4], 1, 0),
        ([203, 0, 113, 9], 443, 0xffff_ffff_0000_0000),
    ] {
        assert_eq!(cookie(from_octets(&ip), port, seed), reference_cookie(ip, port, seed));
    }
}

#[test]
fn cookie_changes_with_address_and_port() {
    let base = cookie(0x0a00_0001, 25565, 42);
    for bit in 0..32 {
        assert_ne!(cookie(0x0a00_0001 ^ (1 << bit), 25565, 42), base);
    }
    for bit in 0..16 {
        assert_ne!(cookie(0x0a00_0001, 25565 ^ (1 << bit), 42), base);
    }
    for bit in 0..32 {
        assert_ne!(cookie(0x0a00_0001, 25565, 42 ^ (1 << bit)), base);
    }
}

#[test]
fn cookie_ignores_the_high_half_of_the_seed() {
    assert_eq!(cookie(0x0a00_0001, 25565, 42), cookie(0x0a00_0001, 25565, 42 | (1 << 40)));
}

#[test]
fn ipv4_sum_adds_both_words() {
    assert_eq!(ipv4_sum(&[10, 0, 0, 1]), 0x0a00 + 0x0001);
    assert_eq!(ipv4_sum(&[255, 255, 255, 255]), 0x1_fffe);
    assert_eq!(ipv4_sum(&[0, 0, 0, 0]), 0);
}

#[test]
fn finalize_folds_carries() {
    assert_eq!(finalize_partial(0), 0);
    assert_eq!(finalize_partial(1), 1);
    assert_eq!(finalize_partial(0xffff), 0xffff);
    assert_eq!(finalize_partial(0x1_0000), 1);
    assert_eq!(finalize_partial(0x1_fffe), 0xffff);
    assert_eq!(finalize_partial(0xffff_ffff), 0xffff);
    assert_eq!(finalize_partial(0x1234_5678), 0x1234 + 0x5678);
    assert_eq!(finalize_checksum(0), 0xffff);
    assert_eq!(finalize_checksum(0xffff), 0);
    assert_eq!(finalize_checksum(0x1234_5678), !(0x1234u16 + 0x5678));
}

#[test]
fn raw_partial_adds_protocol_and_length() {
    assert_eq!(raw_partial(0, 0), 6);
    assert_eq!(raw_partial(0x0a01 + 0xc0a8, 28), 0x0a01 + 0xc0a8 + 6 + 28);
    assert_eq!(raw_partial(0x1_fffe, 28), finalize_partial(0x1_fffe + 34));
}

#[test]
fn tcp_sum_pads_an_odd_byte() {
    assert_eq!(tcp_sum(&[]), 0);
    assert_eq!(tcp_sum(&[0x12]), 0x1200);
    assert_eq!(tcp_sum(&[0x12, 0x34]), 0x1234);
    assert_eq!(tcp_sum(&[0x12, 0x34, 0x56]), 0x1234 + 0x5600);
    assert_eq!(tcp_sum(&[0xff; 6]), 3 * 0xffff);
}

#[test]
fn tcp_checksum_has_its_exact_value() {
    assert_eq!(tcp(&[1, 2, 3, 4, 5, 6, 7], &[192, 168, 0, 1], &[10, 0, 0, 1]), 0x253c);
}

#[test]
fn tcp_checksum_is_the_rfc_793_checksum() {
    let long: Vec<u8> = (0..1461u32).map(|i| (i * 7 + 3) as u8).collect();
    for data in [&[][..], &[0xff][..], &[0xff, 0xff][..], &b"hello world"[..], &long[..]] {
        for (src, dst) in [
            ([192u8, 168, 0, 1], [10u8, 0, 0, 1]),
            ([255, 255, 255, 255], [255, 255, 255, 255]),
            ([0, 0, 0, 0], [0, 0, 0, 0]),
        ] {
            assert_eq!(tcp(data, &src, &dst), reference_checksum(src, dst, data));
        }
    }
}
