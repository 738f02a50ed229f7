use farsight::controller::xsk::{socket_plan, SocketPlan};
use farsight::net::gateway::{get_ipv4, get_mac, GatewayError};
use farsight::net::mac::{MacAddr, MacError};
use farsight::net::tcp::from_octets;

const ROUTES: &str = "Iface\tDestination\tGateway \tFlags\tRefCnt\tUse\tMetric\tMask\t\tMTU\tWindow\tIRTT\n\
eth0\t00000000\t0100A8C0\t0003\t0\t0\t100\t00000000\t0\t0\t0\n\
eth0\t0000A8C0\t00000000\t0001\t0\t0\t100\t00FFFFFF\t0\t0\t0\n\
wlan0\t00000000\tFE01000A\t0003\t0\t0\t600\t00000000\t0\t0\t0\n";

const NEIGHBOURS: &str = "IP address       HW type     Flags       HW address            Mask     Device\n\
192.168.0.1      0x1         0x2         00:1a:2b:3c:4d:5e     *        eth0\n\
192.168.0.7      0x1         0x2         aa:bb:cc:dd:ee:ff     *        eth0\n\
10.0.1.254       0x1         0x2         0:1:2:3:4:5:xxxxx     *        wlan0\n";

#[test]
fn gateway_of_an_interface() {
    assert_eq!(get_ipv4(ROUTES, "eth0"), Ok(from_octets(&[192, 168, 0, 1])));
    assert_eq!(get_ipv4(ROUTES, "wlan0"), Ok(from_octets(&[10, 0, 1, 254])));
}

#[test]
fn gateway_of_an_unknown_interface() {
    assert_eq!(get_ipv4(ROUTES, "eth1"), Err(GatewayError::NotFound));
    assert_eq!(get_ipv4(ROUTES, "eth"), Err(GatewayError::NotFound));
    assert_eq!(get_ipv4(ROUTES, ""), Err(GatewayError::NotFound));
    assert_eq!(get_ipv4("", "eth0"), Err(GatewayError::NotFound));
    assert_eq!(get_ipv4("\n\n", "eth0"), Err(GatewayError::NotFound));
    assert_eq!(get_ipv4("eth0\t00000000", "eth0"), Err(GatewayError::NotFound));
    assert_eq!(get_ipv4("eth0\t0\t00000000\n", "eth0"), Err(GatewayError::NotFound));
}

#[test]
fn gateway_that_is_no_address() {
    assert_eq!(get_ipv4("eth0\t0\tnonsense\n", "eth0"), Err(GatewayError::BadAddress));
    assert_eq!(get_ipv4("eth0\t0\t0100A8C\n", "eth0"), Err(GatewayError::BadAddress));
    assert_eq!(get_ipv4("eth0\t0\t\nlo\t0\t0", "eth0"), Err(GatewayError::BadAddress));
    assert_eq!(get_ipv4("eth0\t0\t\n", "eth0"), Err(GatewayError::NotFound));
    assert_eq!(
        get_ipv4("eth0\t0\tbad\neth0\t0\t0100A8C0\n", "eth0"),
        Err(GatewayError::BadAddress)
    );
}

#[test]
fn gateway_table_may_have_space_around_it() {
    assert_eq!(
        get_ipv4("\n  eth0\t0\t0100A8C0\t1  \n\n", "eth0"),
        Ok(from_octets(&[192, 168, 0, 1]))
    );
    assert_eq!(get_ipv4("x\t0\t0100A8C0\neth0\t0\t0200A8C0", "eth0"), Ok(from_octets(&[192, 168, 0, 2])));
}

#[test]
fn hardware_address_of_a_neighbour() {
    assert_eq!(
        get_mac(NEIGHBOURS, from_octets(&[192, 168, 0, 1])),
        Ok(MacAddr::from_octets([0x00, 0x1a, 0x2b, 0x3c, 0x4d, 0x5e]))
    );
    assert_eq!(
        get_mac(NEIGHBOURS, from_octets(&[192, 168, 0, 7])),
        Ok(MacAddr::from_octets([0xaa, 0xbb, 0xcc, 0xdd, 0xee, 0xff]))
    );
}

#[test]
fn hardware_address_of_a_stranger() {
    assert_eq!(get_mac(NEIGHBOURS, from_octets(&[192, 168, 0, 2])), Err(GatewayError::NotFound));
    assert_eq!(get_mac("", 1), Err(GatewayError::NotFound));
    assert_eq!(get_mac("1.2.3.4 0x1 0x2 00:1a:2b:3c:4d:5e *", from_octets(&[1, 2, 3, 4])), Err(GatewayError::NotFound));
    assert_eq!(
        get_mac("1.2.3.4 0x1 0x2 00:1a:2b:3c:4d:5e * eth0", from_octets(&[1, 2, 3, 4])),
        Ok(MacAddr::from_octets([0x00, 0x1a, 0x2b, 0x3c, 0x4d, 0x5e]))
    );
}

#[test]
fn hardware_address_that_is_none() {
    assert_eq!(
        get_mac(NEIGHBOURS, from_octets(&[10, 0, 1, 254])),
        Err(GatewayError::BadMac(MacError::SegmentCount))
    );
    assert_eq!(
        get_mac("1.2.3.4 a b incomplete c d", from_octets(&[1, 2, 3, 4])),
        Err(GatewayError::BadMac(MacError::Length(10)))
    );
}

#[test]
fn a_session_has_two_sockets_per_queue_but_the_first() {
    assert_eq!(socket_plan(0, 2048), None);
    assert_eq!(socket_plan(1 << 20, 1 << 12), None);
    assert_eq!(
        socket_plan(1, 2048),
        Some(vec![SocketPlan { queue_id: 0, shared: false, sender_frame: 0, receiver_frame: Some(2048) }])
    );
    assert_eq!(
        socket_plan(3, 8),
        Some(vec![
            SocketPlan { queue_id: 0, shared: false, sender_frame: 0, receiver_frame: Some(8) },
            SocketPlan { queue_id: 1, shared: true, sender_frame: 16, receiver_frame: Some(24) },
            SocketPlan { queue_id: 1, shared: true, sender_frame: 32, receiver_frame: None },
            SocketPlan { queue_id: 2, shared: true, sender_frame: 32, receiver_frame: Some(40) },
            SocketPlan { queue_id: 2, shared: true, sender_frame: 40, receiver_frame: None },
        ])
    );
}
