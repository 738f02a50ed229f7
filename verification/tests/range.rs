use farsight::net::range::{AddressRanges, Ipv4Ranges, PortRanges, Ranges};
use farsight::net::tcp::from_octets;
use std::collections::HashSet;
use std::ops::Range;

fn ip(a: u8, b: u8, c: u8, d: u8) -> u32 {
    from_octets(&[a, b, c, d])
}

fn rect(start: u32, end: u32, first_port: u16, last_port: u16) -> Range<(u32, u16)> {
    (start, first_port)..(end, last_port)
}

fn rects(ranges: AddressRanges) -> Vec<Range<(u32, u16)>> {
    ranges.into_inner().into_iter().map(|(r, _)| r).collect()
}

fn excluded(scan: Vec<Range<(u32, u16)>>, exclude: Vec<Range<u32>>) -> Vec<Range<(u32, u16)>> {
    let mut ranges = AddressRanges::from_vec(scan);
    ranges.exclude(&Ipv4Ranges::from_vec(exclude));
    rects(ranges)
}

#[test]
fn from_range_and_from_vec_keep_their_ranges() {
    let one = PortRanges::from_range(1024..65535);
    assert_eq!(one.into_inner(), vec![(1024..65535, ())]);
    let many = Ipv4Ranges::from_vec(vec![1..2, 5..9, 3..3]);
    assert_eq!(many.into_inner(), vec![(1..2, ()), (5..9, ()), (3..3, ())]);
    let none = Ipv4Ranges::from_vec(vec![]);
    assert!(none.into_inner().is_empty());
}

#[test]
fn range_indexing() {
    let ranges = AddressRanges::from_vec(vec![
        rect(ip(10, 0, 0, 0), ip(10, 0, 0, 3), 80, 81),
        rect(ip(192, 168, 1, 1), ip(192, 168, 1, 1), 22, 22),
    ]);
    assert!(ranges.can_compile());
    let compiled = ranges.compile();
    assert_eq!(compiled.count(), 9);
    assert_eq!(compiled.index(0), (ip(10, 0, 0, 0), 80));
    assert_eq!(compiled.index(1), (ip(10, 0, 0, 0), 81));
    assert_eq!(compiled.index(2), (ip(10, 0, 0, 1), 80));
    assert_eq!(compiled.index(7), (ip(10, 0, 0, 3), 81));
    assert_eq!(compiled.index(8), (ip(192, 168, 1, 1), 22));
}

#[test]
fn indexing_visits_each_target_once() {
    let scan = vec![
        rect(ip(10, 0, 0, 0), ip(10, 0, 0, 9), 1000, 1002),
        rect(ip(10, 0, 1, 0), ip(10, 0, 1, 0), 1, 7),
        rect(ip(172, 16, 0, 5), ip(172, 16, 0, 6), 65535, 65535),
    ];
    let mut expected: HashSet<(u32, u16)> = HashSet::new();
    for r in &scan {
        for address in r.start.0..=r.end.0 {
            for port in r.start.1..=r.end.1 {
                expected.insert((address, port));
            }
        }
    }
    let compiled = AddressRanges::from_vec(scan).compile();
    assert_eq!(compiled.count(), 30 + 7 + 2);
    let mut seen: HashSet<(u32, u16)> = HashSet::new();
    for k in 0..compiled.count() {
        assert!(seen.insert(compiled.index(k)));
    }
    assert_eq!(seen, expected);
}

#[test]
fn compile_of_nothing_is_empty() {
    let ranges = AddressRanges::from_vec(vec![]);
    assert!(ranges.can_compile());
    assert_eq!(ranges.compile().count(), 0);
}

#[test]
fn compile_counts_the_whole_address_space() {
    let ranges = AddressRanges::from_vec(vec![rect(0, u32::MAX, 0, 65535)]);
    assert!(ranges.can_compile());
    let compiled = ranges.compile();
    assert_eq!(compiled.count(), 1usize << 48);
    assert_eq!(compiled.index(0), (0, 0));
    assert_eq!(compiled.index(65536), (1, 0));
    assert_eq!(compiled.index((1usize << 48) - 1), (u32::MAX, 65535));
}

#[test]
fn ranges_that_run_backwards_cannot_be_compiled() {
    assert!(!AddressRanges::from_vec(vec![rect(5, 4, 1, 1)]).can_compile());
    assert!(!AddressRanges::from_vec(vec![rect(4, 5, 2, 1)]).can_compile());
    assert!(!AddressRanges::from_vec(vec![rect(1, 1, 1, 1), rect(9, 8, 1, 1)]).can_compile());
}

#[test]
fn ranges_too_many_to_count_cannot_be_compiled() {
    let whole = rect(0, u32::MAX, 0, 65535);
    let many: Vec<Range<(u32, u16)>> = (0..65536).map(|_| whole.clone()).collect();
    assert!(!AddressRanges::from_vec(many).can_compile());
    let most: Vec<Range<(u32, u16)>> = (0..65535).map(|_| whole.clone()).collect();
    assert!(AddressRanges::from_vec(most).can_compile());
}

#[test]
fn exclusion() {
    let left = excluded(
        vec![rect(0, u32::MAX, 0, 65535)],
        vec![ip(10, 0, 0, 0)..ip(10, 255, 255, 255), ip(192, 168, 0, 0)..ip(192, 168, 255, 255)],
    );
    assert_eq!(
        left,
        vec![
            rect(0, ip(9, 255, 255, 255), 0, 65535),
            rect(ip(11, 0, 0, 0), ip(192, 167, 255, 255), 0, 65535),
            rect(ip(192, 169, 0, 0), u32::MAX, 0, 65535),
        ]
    );
    let whole = AddressRanges::from_vec(vec![rect(0, u32::MAX, 0, 65535)]).compile().count();
    let compiled = AddressRanges::from_vec(left).compile();
    assert_eq!(whole - compiled.count(), ((1usize << 24) + (1usize << 16)) * 65536);
}

#[test]
fn exclusion_without_excludes_or_without_ranges_changes_nothing() {
    let scan = vec![rect(1, 5, 10, 20), rect(9, 9, 1, 1)];
    assert_eq!(excluded(scan.clone(), vec![]), scan);
    assert_eq!(excluded(vec![], vec![1..2]), vec![]);
}

#[test]
fn exclusion_keeps_ranges_before_and_after() {
    assert_eq!(excluded(vec![rect(1, 5, 10, 20)], vec![6..9]), vec![rect(1, 5, 10, 20)]);
    assert_eq!(excluded(vec![rect(10, 15, 10, 20)], vec![6..9]), vec![rect(10, 15, 10, 20)]);
    assert_eq!(
        excluded(vec![rect(1, 2, 1, 1), rect(20, 30, 2, 2)], vec![5..9, 40..50]),
        vec![rect(1, 2, 1, 1), rect(20, 30, 2, 2)]
    );
}

#[test]
fn exclusion_cuts_a_range_in_two() {
    assert_eq!(
        excluded(vec![rect(1, 20, 10, 20)], vec![6..9]),
        vec![rect(1, 5, 10, 20), rect(10, 20, 10, 20)]
    );
    assert_eq!(
        excluded(vec![rect(1, 20, 10, 20)], vec![3..4, 6..9, 15..15]),
        vec![rect(1, 2, 10, 20), rect(5, 5, 10, 20), rect(10, 14, 10, 20), rect(16, 20, 10, 20)]
    );
}

#[test]
fn exclusion_clips_either_end() {
    assert_eq!(excluded(vec![rect(5, 20, 1, 2)], vec![1..9]), vec![rect(10, 20, 1, 2)]);
    assert_eq!(excluded(vec![rect(5, 20, 1, 2)], vec![5..9]), vec![rect(10, 20, 1, 2)]);
    assert_eq!(excluded(vec![rect(5, 20, 1, 2)], vec![15..30]), vec![rect(5, 14, 1, 2)]);
    assert_eq!(excluded(vec![rect(5, 20, 1, 2)], vec![15..20]), vec![rect(5, 14, 1, 2)]);
}

#[test]
fn exclusion_drops_what_is_covered() {
    assert_eq!(excluded(vec![rect(5, 20, 1, 2)], vec![5..20]), vec![]);
    assert_eq!(excluded(vec![rect(5, 20, 1, 2)], vec![0..u32::MAX]), vec![]);
    assert_eq!(
        excluded(vec![rect(5, 6, 1, 2), rect(8, 9, 3, 4), rect(30, 31, 5, 6)], vec![1..20]),
        vec![rect(30, 31, 5, 6)]
    );
}

#[test]
fn exclusion_reaches_the_ends_of_the_address_space() {
    assert_eq!(excluded(vec![rect(0, u32::MAX, 1, 1)], vec![0..0]), vec![rect(1, u32::MAX, 1, 1)]);
    assert_eq!(
        excluded(vec![rect(0, u32::MAX, 1, 1)], vec![u32::MAX..u32::MAX]),
        vec![rect(0, u32::MAX - 1, 1, 1)]
    );
}

#[test]
fn exclusion_leaves_exactly_what_is_not_excluded() {
    let scan = vec![rect(3, 12, 1, 2), rect(15, 15, 7, 7), rect(20, 40, 5, 5)];
    let exclude = vec![0..4, 8..9, 12..22, 39..39];
    let left = excluded(scan.clone(), exclude.clone());
    let mut image: HashSet<(u32, u16)> = HashSet::new();
    for r in &left {
        for address in r.start.0..=r.end.0 {
            for port in r.start.1..=r.end.1 {
                assert!(image.insert((address, port)));
            }
        }
    }
    let mut expected: HashSet<(u32, u16)> = HashSet::new();
    for r in &scan {
        for address in r.start.0..=r.end.0 {
            if exclude.iter().any(|e| e.start <= address && address <= e.end) {
                continue;
            }
            for port in r.start.1..=r.end.1 {
                expected.insert((address, port));
            }
        }
    }
    assert_eq!(image, expected);
}

#[test]
fn into_inner_hands_out_the_entries() {
    let ranges: Ranges<u16> = Ranges::from_vec(vec![1..2]);
    assert_eq!(ranges.into_inner(), vec![(1..2, ())]);
}
