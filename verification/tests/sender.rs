use farsight::controller::scanner::{Scanner, SHUFFLE_ROUNDS};
use farsight::controller::sender::{
    frame_len, prepare_frame, tx_descriptor, write_packet, PacketTemplate, Sender,
};
use farsight::controller::session::{shuffle_range, writer_done};
use farsight::controller::shared::SharedData;
use farsight::net::mac::MacAddr;
use farsight::net::range::AddressRanges;
use farsight::net::tcp::{cookie, from_octets, tcp, TcpFlags, TCP_PACKET};
use farsight::xdp::umem::Umem;
use perfect_rand::PerfectRng;
use std::collections::HashSet;
use std::sync::atomic::AtomicU64;

fn shared(ports: (u16, u16)) -> SharedData {
    SharedData::new(
        Umem::new(0, 2048, 8).unwrap(),
        from_octets(&[192, 168, 0, 2]),
        MacAddr::from_octets([1, 2, 3, 4, 5, 6]),
        MacAddr::from_octets([0xa, 0xb, 0xc, 0xd, 0xe, 0xf]),
        ports,
        1,
        0x0123_4567_89ab_cdef,
    )
}

fn prepared() -> Vec<u8> {
    let mut frame = vec![0x55u8; 2048];
    prepare_frame(&mut frame, &shared((61000, 61999)));
    frame
}

fn header_checksum_is_valid(data: &[u8]) -> bool {
    let mut sum: u32 = 0;
    for i in (14..34).step_by(2) {
        sum += ((data[i] as u32) << 8) | data[i + 1] as u32;
    }
    while sum > 0xffff {
        sum = (sum & 0xffff) + (sum >> 16);
    }
    sum == 0xffff
}

fn completed_by_nic(data: &[u8], len: usize) -> u16 {
    let mut segment = data[34..len].to_vec();
    let partial = ((segment[16] as u32) << 8) | segment[17] as u32;
    segment[16] = 0;
    segment[17] = 0;
    let mut sum: u32 = partial;
    for pair in segment.chunks(2) {
        sum += ((pair[0] as u32) << 8) | if pair.len() > 1 { pair[1] as u32 } else { 0 };
    }
    while sum > 0xffff {
        sum = (sum & 0xffff) + (sum >> 16);
    }
    !(sum as u16)
}

#[test]
fn a_prepared_frame_holds_metadata_and_template() {
    let frame = prepared();
    assert_eq!(&frame[..16], &[2, 0, 0, 0, 0, 0, 0, 0, 34, 0, 16, 0, 0, 0, 0, 0]);
    let data = &frame[16..78];
    assert_eq!(&data[0..6], &[1, 2, 3, 4, 5, 6]);
    assert_eq!(&data[6..12], &[0xa, 0xb, 0xc, 0xd, 0xe, 0xf]);
    assert_eq!(&data[12..26], &TCP_PACKET[12..26]);
    assert_eq!(&data[26..30], &[192, 168, 0, 2]);
    assert_eq!(&data[30..62], &TCP_PACKET[30..62]);
    assert!(frame[78..].iter().all(|b| *b == 0x55));
}

#[test]
fn tx_descriptors_point_past_the_metadata() {
    let desc = tx_descriptor(3, 2048).unwrap();
    assert_eq!(desc.addr, 3 * 2048 + 16);
    assert_eq!(desc.options, 2);
    assert_eq!(desc.len, 0);
    assert_eq!(tx_descriptor(0, 0).unwrap().addr, 16);
    assert!(tx_descriptor(u32::MAX, u32::MAX).is_some());
}

#[test]
fn a_syn_is_written_field_by_field() {
    let mut frame = prepared();
    let data = &mut frame[16..];
    let peer = from_octets(&[10, 0, 0, 1]);
    let template = PacketTemplate::new(TcpFlags::syn(), peer, Some(61234), 25565, 0x0102_0304, 0, None);
    let source_sum = 0xc0a8 + 0x0002;
    assert_eq!(write_packet(data, &template, 61234, source_sum), Some(62));
    assert_eq!(&data[0..6], &[1, 2, 3, 4, 5, 6]);
    assert_eq!(&data[16..18], &[0, 48]);
    assert_eq!(&data[26..30], &[192, 168, 0, 2]);
    assert_eq!(&data[30..34], &[10, 0, 0, 1]);
    assert_eq!(&data[34..36], &61234u16.to_be_bytes());
    assert_eq!(&data[36..38], &25565u16.to_be_bytes());
    assert_eq!(&data[38..42], &[1, 2, 3, 4]);
    assert_eq!(&data[42..46], &[0, 0, 0, 0]);
    assert_eq!(data[46], 0x70);
    assert_eq!(data[47], 0x02);
    assert_eq!(&data[54..62], &TCP_PACKET[54..62]);
    assert!(header_checksum_is_valid(data));
    let expected_header: u32 = 50487 + 0xc0a8 + 0x0002 + 0x0a00 + 0x0001;
    let folded = (expected_header & 0xffff) + (expected_header >> 16);
    assert_eq!(&data[24..26], &(!(folded as u16)).to_be_bytes());
    let partial: u16 = 0xc0a8 + 0x0002 + 0x0a00 + 0x0001 + 6 + 28;
    assert_eq!(&data[50..52], &partial.to_be_bytes());
}

#[test]
fn a_payload_follows_the_headers_and_counts_in_both_checksums() {
    let mut frame = prepared();
    let data = &mut frame[16..];
    let peer = from_octets(&[10, 0, 0, 1]);
    let body = b"hello, world!";
    let template = PacketTemplate::new(
        TcpFlags::psh().union(TcpFlags::ack()),
        peer,
        Some(61234),
        25565,
        7,
        9,
        Some(&body[..]),
    );
    assert_eq!(write_packet(data, &template, 61234, 0xc0a8 + 0x0002), Some(62 + 13));
    assert_eq!(&data[16..18], &[0, 61]);
    assert_eq!(&data[62..75], &body[..]);
    assert_eq!(data[75], 0x55);
    assert_eq!(data[47], 0x18);
    assert!(header_checksum_is_valid(data));
    let mut segment = data[34..75].to_vec();
    segment[16] = 0;
    segment[17] = 0;
    assert_eq!(completed_by_nic(data, 75), tcp(&segment, &[192, 168, 0, 2], &[10, 0, 0, 1]));
}

#[test]
fn a_frame_written_twice_holds_the_second_segment() {
    let mut frame = prepared();
    let data = &mut frame[16..];
    let body = b"first";
    let with_body = PacketTemplate::new(TcpFlags::ack(), 1, Some(2), 3, 4, 5, Some(&body[..]));
    write_packet(data, &with_body, 2, 0xc0a8 + 0x0002);
    assert_eq!(&data[16..18], &[0, 53]);
    let bare = PacketTemplate::new(TcpFlags::syn(), 9, Some(8), 7, 6, 5, None);
    assert_eq!(write_packet(data, &bare, 8, 0xc0a8 + 0x0002), Some(62));
    assert_eq!(&data[16..18], &[0, 48]);
    assert!(header_checksum_is_valid(data));
}

#[test]
fn a_segment_that_does_not_fit_is_not_written() {
    let mut small = vec![0x55u8; 70];
    let body = [0u8; 9];
    let template = PacketTemplate::new(TcpFlags::ack(), 1, Some(2), 3, 4, 5, Some(&body[..]));
    assert_eq!(write_packet(&mut small, &template, 2, 0), None);
    assert!(small.iter().all(|b| *b == 0x55));
    let fits = PacketTemplate::new(TcpFlags::ack(), 1, Some(2), 3, 4, 5, Some(&body[..8]));
    assert_eq!(write_packet(&mut small, &fits, 2, 0), Some(70));
    let mut tiny = vec![0u8; 61];
    let bare = PacketTemplate::new(TcpFlags::ack(), 1, Some(2), 3, 4, 5, None);
    assert_eq!(write_packet(&mut tiny, &bare, 2, 0), None);
    let mut huge = vec![0u8; 70000];
    let long = vec![0u8; 65535 - 48 + 1];
    let too_long = PacketTemplate::new(TcpFlags::ack(), 1, Some(2), 3, 4, 5, Some(&long[..]));
    assert_eq!(write_packet(&mut huge, &too_long, 2, 0), None);
    let longest = PacketTemplate::new(TcpFlags::ack(), 1, Some(2), 3, 4, 5, Some(&long[..65487]));
    assert_eq!(write_packet(&mut huge, &longest, 2, 0), Some(62 + 65487));
    assert_eq!(&huge[16..18], &[0xff, 0xff]);
}

#[test]
fn sender_draws_source_ports_from_the_range() {
    let mut sender = Sender::new(shared((61000, 61009)));
    assert_eq!(sender.shared().seed, 0x0123_4567_89ab_cdef);
    let mut seen: HashSet<u16> = HashSet::new();
    for _ in 0..500 {
        let mut frame = prepared();
        let data = &mut frame[16..];
        let template = PacketTemplate::new(TcpFlags::syn(), 1, None, 3, 4, 5, None);
        assert_eq!(sender.fill(data, &template), Some(62));
        let port = u16::from_be_bytes([data[34], data[35]]);
        assert!((61000..=61009).contains(&port));
        seen.insert(port);
        assert!(header_checksum_is_valid(data));
    }
    assert!(seen.len() > 1);
}

#[test]
fn sender_keeps_a_given_source_port() {
    let mut sender = Sender::new(shared((61000, 61000)));
    let mut frame = prepared();
    let data = &mut frame[16..];
    let template = PacketTemplate::new(TcpFlags::ack(), 1, Some(4242), 3, 4, 5, None);
    assert_eq!(sender.fill(data, &template), Some(62));
    assert_eq!(&data[34..36], &4242u16.to_be_bytes());
    let open = PacketTemplate::new(TcpFlags::ack(), 1, None, 3, 4, 5, None);
    assert_eq!(sender.fill(data, &open), Some(62));
    assert_eq!(&data[34..36], &61000u16.to_be_bytes());
}

#[test]
fn scanner_visits_every_target_once() {
    let ranges = AddressRanges::from_vec(vec![(100, 80)..(149, 81), (1000, 1)..(1000, 20)]).compile();
    let index = AtomicU64::new(0);
    let seed = 0x0123_4567_89ab_cdef;
    let rng = PerfectRng::new(120, seed, SHUFFLE_ROUNDS);
    let shuffle = |k: u64| rng.shuffle(k);
    let mut scanner = Scanner::new(&ranges, &index, seed);
    let mut seen: HashSet<(u32, u16)> = HashSet::new();
    let mut in_order = true;
    for k in 0..120 {
        let probe = scanner.tick(&shuffle).unwrap();
        assert_eq!(probe.flags.bits(), 0x02);
        assert_eq!(probe.ack, 0);
        assert_eq!(probe.source_port, None);
        assert!(probe.body.is_none());
        assert_eq!(probe.seq, cookie(probe.ip, probe.port, seed));
        assert!(seen.insert((probe.ip, probe.port)));
        if (probe.ip, probe.port) != ranges.index(k) {
            in_order = false;
        }
    }
    assert_eq!(seen.len(), 120);
    assert!(!in_order);
    assert!(scanner.tick(&shuffle).is_none());
    assert!(scanner.tick(&shuffle).is_none());
    assert_eq!(index.load(std::sync::atomic::Ordering::Acquire), 122);
}

#[test]
fn scanners_share_one_counter() {
    let ranges = AddressRanges::from_vec(vec![(0, 1)..(9, 1)]).compile();
    let index = AtomicU64::new(0);
    let rng = PerfectRng::new(10, 5, SHUFFLE_ROUNDS);
    let shuffle = |k: u64| rng.shuffle(k);
    let mut a = Scanner::new(&ranges, &index, 5);
    let mut b = Scanner::new(&ranges, &index, 5);
    let mut seen: HashSet<u32> = HashSet::new();
    for _ in 0..5 {
        assert!(seen.insert(a.tick(&shuffle).unwrap().ip));
        assert!(seen.insert(b.tick(&shuffle).unwrap().ip));
    }
    assert!(a.tick(&shuffle).is_none());
    assert_eq!(a.tick_at(3, &shuffle).unwrap().ip, b.tick_at(3, &shuffle).unwrap().ip);
}

#[test]
fn scanner_over_nothing_has_nothing_to_send() {
    let ranges = AddressRanges::from_vec(vec![]).compile();
    let index = AtomicU64::new(0);
    let mut scanner = Scanner::new(&ranges, &index, 5);
    assert!(scanner.tick(&|k: u64| k).is_none());
    assert!(scanner.probe(0).is_none());
}

#[test]
fn the_order_depends_on_the_seed() {
    let ranges = AddressRanges::from_vec(vec![(0, 1)..(999, 1)]).compile();
    let index = AtomicU64::new(0);
    let scanner = Scanner::new(&ranges, &index, 1);
    let first = PerfectRng::new(1000, 1, SHUFFLE_ROUNDS);
    let second = PerfectRng::new(1000, 2, SHUFFLE_ROUNDS);
    let order_a: Vec<u32> =
        (0..1000).map(|k| scanner.tick_at(k, &|k: u64| first.shuffle(k)).unwrap().ip).collect();
    let order_b: Vec<u32> =
        (0..1000).map(|k| scanner.tick_at(k, &|k: u64| second.shuffle(k)).unwrap().ip).collect();
    assert_ne!(order_a, order_b);
    let mut sorted = order_a.clone();
    sorted.sort();
    assert_eq!(sorted, (0..1000).collect::<Vec<u32>>());
}

#[test]
fn a_tick_sends_the_probe_for_where_the_shuffle_points() {
    let ranges = AddressRanges::from_vec(vec![(0, 1)..(9, 1)]).compile();
    let index = AtomicU64::new(0);
    let scanner = Scanner::new(&ranges, &index, 5);
    let backwards = |k: u64| 9 - k;
    for k in 0..10 {
        let at = scanner.tick_at(k, &backwards).unwrap();
        assert_eq!((at.ip, at.port), ranges.index(9 - k as usize));
        assert_eq!(at.seq, cookie(at.ip, at.port, 5));
        assert_eq!(at.flags.bits(), 0x02);
    }
    assert!(scanner.tick_at(10, &backwards).is_none());
    assert!(scanner.tick_at(u64::MAX, &backwards).is_none());
    assert!(scanner.tick_at(3, &|_k: u64| 10).is_none());
    assert!(scanner.probe(10).is_none());
    assert_eq!(scanner.probe(4).unwrap().ip, 4);
}

#[test]
fn frame_length_is_headers_and_payload() {
    let body = [0u8; 9];
    let template = PacketTemplate::new(TcpFlags::ack(), 1, Some(2), 3, 4, 5, Some(&body[..]));
    assert_eq!(frame_len(&template, 71), Some(71));
    assert_eq!(frame_len(&template, 2032), Some(71));
    assert_eq!(frame_len(&template, 70), None);
    assert_eq!(frame_len(&template, 0), None);
    let bare = PacketTemplate::new(TcpFlags::syn(), 1, None, 3, 4, 0, None);
    assert_eq!(frame_len(&bare, 62), Some(62));
    assert_eq!(frame_len(&bare, 61), None);
    let long = vec![0u8; 65488];
    let too_long = PacketTemplate::new(TcpFlags::ack(), 1, Some(2), 3, 4, 5, Some(&long[..]));
    assert_eq!(frame_len(&too_long, usize::MAX), None);
    let longest = PacketTemplate::new(TcpFlags::ack(), 1, Some(2), 3, 4, 5, Some(&long[..65487]));
    assert_eq!(frame_len(&longest, usize::MAX), Some(62 + 65487));
}

#[test]
fn only_ranges_with_targets_are_shuffled() {
    let none = AddressRanges::from_vec(vec![]).compile();
    assert_eq!(shuffle_range(&none), None);
    let one = AddressRanges::from_vec(vec![(7, 7)..(7, 7)]).compile();
    assert_eq!(shuffle_range(&one), Some(1));
    let whole = AddressRanges::from_vec(vec![(0, 0)..(u32::MAX, 65535)]).compile();
    assert_eq!(shuffle_range(&whole), Some(1 << 48));
    let many: Vec<_> = (0..32768).map(|_| (0u32, 0u16)..(u32::MAX, 65535u16)).collect();
    let half = AddressRanges::from_vec(many).compile();
    assert_eq!(half.count(), 1usize << 63);
    assert_eq!(shuffle_range(&half), Some(1 << 63));
    let more: Vec<_> = (0..32769).map(|_| (0u32, 0u16)..(u32::MAX, 65535u16)).collect();
    assert_eq!(shuffle_range(&AddressRanges::from_vec(more).compile()), None);
}

#[test]
fn the_writer_stops_when_done_and_idle_for_the_timeout() {
    assert!(writer_done(5, 5, true));
    assert!(writer_done(6, 5, true));
    assert!(!writer_done(4, 5, true));
    assert!(!writer_done(u64::MAX, 5, false));
    assert!(writer_done(0, 0, true));
    assert!(!writer_done(0, 0, false));
}
