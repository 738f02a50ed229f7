use farsight::config::{CollectionConfig, XdpAttachMode, XdpMode};
use farsight::controller::printer::{Printer, Throughput};
use farsight::controller::protocol::minecraft::SLPParser;
use farsight::controller::protocol::ParserKind;
use farsight::controller::strategy::ip::SlashN;
use farsight::controller::strategy::port::{AllPortsNonPrivileged, OnePort, RangedPorts};
use farsight::controller::strategy::selector::{explore_with, select_exploit, select_explore, Selected};
use farsight::controller::strategy::{combine, Strategy, StrategyError, StrategyTransformer};
use farsight::database::{collection_for, Scanling};
use farsight::net::nic::{Queue, Queues};
use farsight::net::range::{Ipv4Ranges, PortRanges};
use farsight::net::tcp::from_octets;
use farsight::xdp::filter::{classify, XdpAction};

fn addr(a: u8, b: u8, c: u8, d: u8) -> u32 {
    from_octets(&[a, b, c, d])
}

fn generated<S: Strategy>(s: &S) -> Vec<std::ops::Range<S::Output>> {
    s.generate_ranges().unwrap().into_inner().into_iter().map(|(r, _)| r).collect()
}

#[test]
fn slash_n_is_one_block() {
    assert_eq!(generated(&SlashN::new(addr(10, 1, 2, 3), 8)), vec![addr(10, 0, 0, 0)..addr(10, 255, 255, 255)]);
    assert_eq!(generated(&SlashN::new(addr(10, 1, 2, 3), 0)), vec![0..u32::MAX]);
    assert_eq!(generated(&SlashN::new(addr(10, 1, 2, 3), 32)), vec![addr(10, 1, 2, 3)..addr(10, 1, 2, 3)]);
    assert_eq!(generated(&SlashN::new(u32::MAX, 1)), vec![addr(128, 0, 0, 0)..u32::MAX]);
}

#[test]
fn slash_n_above_32_has_no_ranges() {
    assert!(matches!(SlashN::new(0, 33).generate_ranges(), Err(StrategyError::CidrOutOfRange)));
    assert!(matches!(SlashN::new(0, 255).generate_ranges(), Err(StrategyError::CidrOutOfRange)));
}

#[test]
fn port_strategies_include_their_ends() {
    assert_eq!(generated(&AllPortsNonPrivileged), vec![1024..65535]);
    assert_eq!(generated(&OnePort::new(25565)), vec![25565..25565]);
    assert_eq!(generated(&RangedPorts::new(80, 443)), vec![80..443]);
    let one = SlashN::new(addr(1, 1, 1, 1), 32).combine_with(OnePort::new(25565));
    let compiled = one.generate_ranges().unwrap().compile();
    assert_eq!(compiled.count(), 1);
    assert_eq!(compiled.index(0), (addr(1, 1, 1, 1), 25565));
    let ranged = SlashN::new(addr(1, 1, 1, 0), 31).combine_with(RangedPorts::new(80, 82));
    assert_eq!(ranged.generate_ranges().unwrap().compile().count(), 6);
}

#[test]
fn combined_strategy_pairs_every_range_with_every_range() {
    let addresses = Ipv4Ranges::from_vec(vec![1..2, 5..9]);
    let ports = PortRanges::from_vec(vec![80..81, 443..443, 8000..8080]);
    let product: Vec<_> = combine(&addresses, &ports).into_inner().into_iter().map(|(r, _)| r).collect();
    assert_eq!(
        product,
        vec![
            (1, 80)..(2, 81),
            (5, 80)..(9, 81),
            (1, 443)..(2, 443),
            (5, 443)..(9, 443),
            (1, 8000)..(2, 8080),
            (5, 8000)..(9, 8080),
        ]
    );
    assert!(combine(&Ipv4Ranges::from_vec(vec![]), &ports).into_inner().is_empty());
    assert!(combine(&addresses, &PortRanges::from_vec(vec![])).into_inner().is_empty());
}

#[test]
fn combined_strategy_passes_errors_on() {
    let bad = SlashN::new(0, 40).combine_with(AllPortsNonPrivileged);
    assert!(matches!(bad.generate_ranges(), Err(StrategyError::CidrOutOfRange)));
    let good = SlashN::new(addr(10, 0, 0, 0), 24).combine_with(OnePort::new(22));
    assert_eq!(generated(&good), vec![(addr(10, 0, 0, 0), 22)..(addr(10, 0, 0, 255), 22)]);
}

#[test]
fn exploit_is_everything_above_the_privileged_ports() {
    let selected = select_exploit();
    assert!(matches!(selected, Selected::Exploit(_)));
    assert_eq!(generated(&selected), vec![(0, 1024)..(u32::MAX, 65535)]);
}

#[test]
fn explore_with_given_draws() {
    let selected = explore_with(addr(10, 9, 8, 7), 16, 2000, 3000);
    assert_eq!(generated(&selected), vec![(addr(10, 9, 0, 0), 2000)..(addr(10, 9, 255, 255), 3000)]);
    let bad = explore_with(0, 99, 1, 2);
    assert!(matches!(bad.generate_ranges(), Err(StrategyError::CidrOutOfRange)));
}

#[test]
fn explore_draws_a_block_and_ports_above_the_privileged() {
    for _ in 0..200 {
        let selected = select_explore();
        let Selected::Explore(ref combined) = selected else { panic!("not an exploration") };
        assert!(combined.0 .1 <= 32);
        assert!(combined.1 .0 >= 1024);
        assert!(combined.1 .0 <= combined.1 .1);
        let ranges = generated(&selected);
        assert_eq!(ranges.len(), 1);
        assert!(ranges[0].start.0 <= ranges[0].end.0);
        assert!(ranges[0].start.1 >= 1024 && ranges[0].start.1 <= ranges[0].end.1);
        assert!(selected.generate_ranges().unwrap().can_compile());
    }
}

#[test]
fn xdp_modes_have_their_flags() {
    assert_eq!(XdpMode::Copy.to_flags().bits(), 2);
    assert_eq!(XdpMode::ZeroCopy.to_flags().bits(), 4);
    assert_eq!(XdpMode::Fallback.to_flags().bits(), 0);
    assert_eq!(XdpAttachMode::Skb.to_flags(), 2);
    assert_eq!(XdpAttachMode::Driver.to_flags(), 4);
    assert_eq!(XdpAttachMode::Hardware.to_flags(), 8);
}

#[test]
fn collection_is_the_first_for_the_kind() {
    let collections = vec![
        CollectionConfig { parser: ParserKind::Slp, collection: String::from("first") },
        CollectionConfig { parser: ParserKind::Slp, collection: String::from("second") },
    ];
    assert_eq!(collection_for(&collections, ParserKind::Slp), Some(0));
    assert_eq!(collection_for(&Vec::new(), ParserKind::Slp), None);
}

#[test]
fn scanling_keeps_what_it_is_given() {
    let record: Scanling<SLPParser<Vec<u8>, fn(&[u8]) -> Option<Vec<u8>>>> =
        Scanling::new(1_700_000_000_000, addr(1, 2, 3, 4), 25565, b"{}".to_vec());
    assert_eq!(record.timestamp, 1_700_000_000_000);
    assert_eq!(record.ip, addr(1, 2, 3, 4));
    assert_eq!(record.port, 25565);
    assert_eq!(record.response, b"{}".to_vec());
}

#[test]
fn queues_request_and_count() {
    let request = Queues::request();
    assert_eq!(request.cmd, 0x3c);
    assert_eq!(request.max, Queue::default());
    let queues = Queues {
        cmd: 0x3c,
        max: Queue { rx: 0, tx: 0, other: 1, combined: 8 },
        current: Queue { rx: 0, tx: 0, other: 1, combined: 4 },
    };
    assert_eq!(queues.queue_count(), 4);
    assert!(queues.below_max());
    assert!(!Queues::default().below_max());
}

#[test]
fn printer_waits_for_its_time() {
    let mut printer = Printer::new(1_000_000_000);
    assert_eq!(printer.tick(999_999_999, 500), None);
    assert_eq!(printer.tick(1_000_000_000, 500), Some(Throughput::Pps(500)));
    assert_eq!(printer.tick(0, 900), None);
    assert_eq!(printer.tick(2_000_000_000, 900), Some(Throughput::Pps(200)));
}

#[test]
fn printer_picks_the_unit_by_the_rate() {
    let second = 1_000_000_000;
    let mut printer = Printer::new(0);
    assert_eq!(printer.tick(second, 10_000), Some(Throughput::Pps(10_000)));
    assert_eq!(printer.tick(second, 20_001), Some(Throughput::Kpps(10)));
    assert_eq!(printer.tick(second, 20_001 + 1_500_000), Some(Throughput::Kpps(1500)));
    let mut printer = Printer::new(0);
    assert_eq!(printer.tick(second, 10_000_000), Some(Throughput::Kpps(10_000)));
    assert_eq!(printer.tick(second, 20_000_001), Some(Throughput::Mpps(10)));
    assert_eq!(printer.tick(second, 20_000_001 + 14_500_000), Some(Throughput::Mpps(15)));
    assert_eq!(printer.tick(second, 20_000_001 + 14_500_000 + 14_499_999), Some(Throughput::Mpps(14)));
}

#[test]
fn printer_rounds_to_the_nearest() {
    let mut printer = Printer::new(0);
    assert_eq!(printer.tick(2_000_000_000, 3), Some(Throughput::Pps(2)));
    assert_eq!(printer.tick(3_000_000_000, 4), Some(Throughput::Pps(0)));
    assert_eq!(printer.tick(3_000_000_000, 6), Some(Throughput::Pps(1)));
    assert_eq!(printer.tick(500_000_000, 6), Some(Throughput::Pps(0)));
    assert_eq!(printer.tick(500_000_000, 5), Some(Throughput::Pps(0)));
}

#[test]
fn printer_in_no_time() {
    let mut printer = Printer::new(0);
    assert_eq!(printer.tick(0, 0), Some(Throughput::Pps(0)));
    assert_eq!(printer.tick(0, 1), Some(Throughput::Mpps(u64::MAX)));
}

fn tcp_frame(dest_port: u16) -> Vec<u8> {
    let mut f = vec![0u8; 54];
    f[12] = 0x08;
    f[14] = 0x45;
    f[23] = 6;
    f[36] = (dest_port >> 8) as u8;
    f[37] = (dest_port & 0xff) as u8;
    f
}

#[test]
fn xdp_filter_gating() {
    assert_eq!(classify(&tcp_frame(61234), 3, 61000, 61999), XdpAction::Redirect(3));
    assert_eq!(classify(&tcp_frame(61000), 0, 61000, 61999), XdpAction::Redirect(0));
    assert_eq!(classify(&tcp_frame(61999), 7, 61000, 61999), XdpAction::Redirect(7));
    assert_eq!(classify(&tcp_frame(60999), 3, 61000, 61999), XdpAction::Pass);
    assert_eq!(classify(&tcp_frame(62000), 3, 61000, 61999), XdpAction::Pass);
    let mut udp = tcp_frame(61234);
    udp[23] = 17;
    assert_eq!(classify(&udp, 3, 61000, 61999), XdpAction::Pass);
    let mut ipv6 = tcp_frame(61234);
    ipv6[12] = 0x86;
    ipv6[13] = 0xdd;
    assert_eq!(classify(&ipv6, 3, 61000, 61999), XdpAction::Pass);
}

#[test]
fn xdp_filter_compares_port_numbers_not_their_bytes() {
    assert_eq!(classify(&tcp_frame(0x0100), 1, 0x00ff, 0x0101), XdpAction::Redirect(1));
    assert_eq!(classify(&tcp_frame(0x0001), 1, 0x00ff, 0x0101), XdpAction::Pass);
}

#[test]
fn xdp_filter_aborts_on_short_frames_and_unset_ports() {
    assert_eq!(classify(&tcp_frame(61234), 3, 0, 61999), XdpAction::Aborted);
    assert_eq!(classify(&tcp_frame(61234), 3, 61000, 0), XdpAction::Aborted);
    let f = tcp_frame(61234);
    assert_eq!(classify(&f[..13], 3, 61000, 61999), XdpAction::Aborted);
    assert_eq!(classify(&f[..33], 3, 61000, 61999), XdpAction::Aborted);
    assert_eq!(classify(&f[..53], 3, 61000, 61999), XdpAction::Aborted);
    assert_eq!(classify(&[], 3, 61000, 61999), XdpAction::Aborted);
    let mut arp = f[..14].to_vec();
    arp[13] = 0x06;
    assert_eq!(classify(&arp, 3, 61000, 61999), XdpAction::Pass);
}

#[test]
fn xdp_filter_follows_the_ip_header_length() {
    let mut f = tcp_frame(1);
    f[14] = 0x46;
    f.splice(34..34, [0u8; 4]);
    f[40] = 0xee;
    f[41] = 0x48;
    assert_eq!(classify(&f, 2, 61000, 61999), XdpAction::Redirect(2));
    assert_eq!(classify(&f[..57], 2, 61000, 61999), XdpAction::Aborted);
}

#[test]
fn combined_strategy_asks_the_first_before_the_second() {
    let both_bad = SlashN::new(0, 40).combine_with(SlashN::new(0, 50));
    assert!(matches!(both_bad.generate_ranges(), Err(StrategyError::CidrOutOfRange)));
    let second_bad = SlashN::new(0, 8).combine_with(SlashN::new(0, 50));
    assert!(matches!(second_bad.generate_ranges(), Err(StrategyError::CidrOutOfRange)));
    let good = SlashN::new(addr(10, 0, 0, 0), 8).combine_with(SlashN::new(addr(20, 0, 0, 0), 8));
    assert_eq!(
        generated(&good),
        vec![(addr(10, 0, 0, 0), addr(20, 0, 0, 0))..(addr(10, 255, 255, 255), addr(20, 255, 255, 255))]
    );
}
