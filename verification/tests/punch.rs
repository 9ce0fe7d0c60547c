use araponto::addr::{ip_into_v4, try_into_v4, Endpoint, Ip, MAPPED};
use araponto::punch::{
    decode_v6, may_forward, punch_extra_limiter, punch_extras, punch_extras_at, test_nat_allow,
    test_nat_allow_at, valid_v6, TestNat,
};
use araponto::stats::{snapshot, Counters};
use araponto::switches::{
    is_y, punch_ipv6, punch_udp, switch_on, ws_register_enabled, Switches,
};
use araponto::time::SECOND;

const OFF: Switches = Switches { punch_udp: false, punch_ipv6: false, ws_register: false };
const ON: Switches = Switches { punch_udp: true, punch_ipv6: true, ws_register: true };

fn v6(segments: [u16; 8], port: u16) -> Vec<u8> {
    let mut b = Vec::new();
    for s in segments {
        b.extend_from_slice(&s.to_be_bytes());
    }
    b.extend_from_slice(&port.to_le_bytes());
    b
}

// the form that an IPv4 address has in a message: at most 16 bytes
fn v4_form(octets: [u8; 4], port: u16) -> Vec<u8> {
    let tm: u128 = 0x1234_5678;
    let ip = u32::from_le_bytes(octets) as u128;
    let v = ((ip + tm) << 49) | (tm << 17) | (port as u128 + (tm & 0xffff));
    v.to_le_bytes().to_vec()
}

fn v4(octets: [u8; 4], port: u16) -> Endpoint {
    Endpoint::V4 { ip: u32::from_be_bytes(octets), port }
}

#[test]
fn valid_v6_accepts_only_global_unicast_with_port() {
    assert!(!valid_v6(&v6([0x2804, 0x14c, 0, 0, 0, 0, 0, 1], 5000)).is_empty());
    assert!(valid_v6(&v6([0x2804, 0x14c, 0, 0, 0, 0, 0, 1], 0)).is_empty());
    assert!(valid_v6(&v6([0xfe80, 0, 0, 0, 0, 0, 0, 1], 5000)).is_empty());
    assert!(valid_v6(&v6([0xfd00, 0, 0, 0, 0, 0, 0, 1], 5000)).is_empty());
    assert!(valid_v6(&v6([0, 0, 0, 0, 0, 0, 0, 1], 5000)).is_empty());
    // v4-mapped is written as IPv4 and must never pass as v6
    assert!(valid_v6(&v4_form([201, 0, 179, 232], 5000)).is_empty());
    // nor does it pass in the form of an IPv6 address
    assert!(valid_v6(&v6([0, 0, 0, 0, 0, 0xffff, 0xc900, 0xb3e8], 5000)).is_empty());
    assert!(valid_v6(&[0u8; 17]).is_empty());
    assert!(valid_v6(&[]).is_empty());
}

#[test]
fn valid_v6_hands_on_the_bytes_as_they_are() {
    for first in [0x2000u16, 0x2804, 0x3fff] {
        let b = v6([first, 1, 2, 3, 4, 5, 6, 7], 0x0100);
        assert_eq!(&valid_v6(&b)[..], &b[..]);
    }
    assert!(valid_v6(&v6([0x1fff, 1, 2, 3, 4, 5, 6, 7], 1)).is_empty());
    assert!(valid_v6(&v6([0x4000, 1, 2, 3, 4, 5, 6, 7], 1)).is_empty());
    let mut longer = v6([0x2804, 1, 2, 3, 4, 5, 6, 7], 1);
    longer.push(0);
    assert!(valid_v6(&longer).is_empty());
}

#[test]
fn decode_reads_octets_then_port() {
    let b = v6([0x2804, 0x14c, 0, 0, 0, 0, 0, 1], 5000);
    let a = Endpoint::V6 {
        ip: 0x2804_014c_0000_0000_0000_0000_0000_0001,
        port: 5000,
        flowinfo: 0,
        scope_id: 0,
    };
    assert_eq!(decode_v6(&b), Some(a));
    assert_eq!(decode_v6(&b[..17]), None);
    assert!(may_forward(a));
    assert!(!may_forward(v4([8, 8, 8, 8], 53)));
}

#[test]
fn addresses_have_one_form() {
    let plain = v4([10, 0, 0, 1], 40000);
    let mapped = Endpoint::V6 { ip: MAPPED + 0x0a00_0001, port: 40000, flowinfo: 0, scope_id: 3 };
    assert_eq!(try_into_v4(plain), plain);
    assert_eq!(try_into_v4(mapped), plain);
    let loopback = Endpoint::V6 { ip: 1, port: 40000, flowinfo: 0, scope_id: 0 };
    assert_eq!(try_into_v4(loopback), loopback);
    let global = Endpoint::V6 { ip: 0x2804 << 112, port: 1, flowinfo: 5, scope_id: 6 };
    assert_eq!(try_into_v4(global), global);
    assert_eq!(ip_into_v4(Ip::V6(MAPPED + 7)), Ip::V4(7));
    assert_eq!(ip_into_v4(Ip::V6(MAPPED + (1 << 32))), Ip::V6(MAPPED + (1 << 32)));
}

#[test]
fn punch_extras_off_by_default_and_relay_only() {
    let mut limiter = punch_extra_limiter();
    let mut counters = Counters::new();
    let udp_port = 40000;
    let socket_addr_v6 = v6([0x2804, 0x14c, 0, 0, 0, 0, 0, 1], 5000);
    let a = v4([10, 0, 0, 2], 1);
    // switches are off unless set
    let off = Switches::off();
    let (u, s) = punch_extras(
        &off, &mut limiter, &mut counters, udp_port, &socket_addr_v6, a, "111111111", false,
    );
    assert_eq!(u, 0);
    assert!(s.is_empty());
    let (u, s) = punch_extras(
        &ON, &mut limiter, &mut counters, udp_port, &socket_addr_v6, a, "111111111", true,
    );
    assert_eq!(u, 0);
    assert!(s.is_empty());
    let (u, s) = punch_extras(
        &ON, &mut limiter, &mut counters, udp_port, &socket_addr_v6, a, "111111111", false,
    );
    assert_eq!(u, 40000);
    assert!(!s.is_empty());
    // over the per-pair limit: degrade to TCP punching
    for _ in 0..10 {
        punch_extras(
            &ON, &mut limiter, &mut counters, udp_port, &socket_addr_v6, a, "222222222", false,
        );
    }
    let (u, s) = punch_extras(
        &ON, &mut limiter, &mut counters, udp_port, &socket_addr_v6, a, "222222222", false,
    );
    assert_eq!(u, 0);
    assert!(s.is_empty());
}

#[test]
fn punch_extras_eight_in_half_a_minute() {
    let mut limiter = punch_extra_limiter();
    let mut counters = Counters::new();
    let addr = v6([0x2804, 0x14c, 0, 0, 0, 0, 0, 1], 5000);
    let a = v4([10, 0, 0, 2], 1);
    // the same controller behind another port, and in its mapped form
    let b = Endpoint::V6 { ip: MAPPED + 0x0a00_0002, port: 9, flowinfo: 0, scope_id: 0 };
    for i in 0..8u128 {
        let from = if i % 2 == 0 { a } else { b };
        let (u, s) = punch_extras_at(
            &ON, &mut limiter, &mut counters, 40000, &addr, from, "1", false, i * SECOND,
        );
        assert_eq!(u, 40000);
        assert_eq!(&s[..], &addr[..]);
    }
    let (u, s) =
        punch_extras_at(&ON, &mut limiter, &mut counters, 40000, &addr, a, "1", false, 29 * SECOND);
    assert_eq!(u, 0);
    assert!(s.is_empty());
    assert_eq!(snapshot(&counters)[4], 1);
    // another peer is another pair, and the window of this one closes
    let (u, _) =
        punch_extras_at(&ON, &mut limiter, &mut counters, 40000, &addr, a, "2", false, 29 * SECOND);
    assert_eq!(u, 40000);
    let (u, _) =
        punch_extras_at(&ON, &mut limiter, &mut counters, 40000, &addr, a, "1", false, 30 * SECOND);
    assert_eq!(u, 40000);
}

#[test]
fn what_offers_nothing_is_not_counted() {
    let mut limiter = punch_extra_limiter();
    let mut counters = Counters::new();
    let a = v4([10, 0, 0, 2], 1);
    for _ in 0..20 {
        for port in [0, -1, 65536, i32::MIN] {
            let (u, s) =
                punch_extras_at(&ON, &mut limiter, &mut counters, port, &[], a, "1", false, 0);
            assert_eq!(u, 0);
            assert!(s.is_empty());
        }
        let (u, _) = punch_extras_at(&OFF, &mut limiter, &mut counters, 1, &[], a, "1", false, 0);
        assert_eq!(u, 0);
    }
    let (u, s) = punch_extras_at(&ON, &mut limiter, &mut counters, 65535, &[], a, "1", false, 0);
    assert_eq!(u, 65535);
    assert!(s.is_empty());
    assert_eq!(snapshot(&counters)[4], 0);
}

#[test]
fn each_switch_forwards_its_own() {
    let mut limiter = punch_extra_limiter();
    let mut counters = Counters::new();
    let addr = v6([0x2804, 0x14c, 0, 0, 0, 0, 0, 1], 5000);
    let a = v4([10, 0, 0, 2], 1);
    let udp = Switches { punch_udp: true, ..OFF };
    let ipv6 = Switches { punch_ipv6: true, ..OFF };
    let (u, s) = punch_extras_at(&udp, &mut limiter, &mut counters, 5, &addr, a, "1", false, 0);
    assert_eq!(u, 5);
    assert!(s.is_empty());
    let (u, s) = punch_extras_at(&ipv6, &mut limiter, &mut counters, 5, &addr, a, "1", false, 0);
    assert_eq!(u, 0);
    assert_eq!(&s[..], &addr[..]);
}

#[test]
fn nat_tests_twenty_per_second_and_ip() {
    let mut limits = TestNat::new();
    let mut counters = Counters::new();
    let a = v4([1, 2, 3, 4], 5);
    for _ in 0..20 {
        assert!(test_nat_allow_at(&mut limits, &mut counters, a, 0, 0));
    }
    assert!(!test_nat_allow_at(&mut limits, &mut counters, a, 0, 0));
    assert!(test_nat_allow_at(&mut limits, &mut counters, v4([1, 2, 3, 5], 5), 0, 0));
    assert!(test_nat_allow_at(&mut limits, &mut counters, a, SECOND, SECOND));
    let c = snapshot(&counters);
    assert_eq!(c[0], 22);
    assert_eq!(c[1], 1);
}

#[test]
fn nat_tests_two_thousand_per_second_in_all() {
    let mut limits = TestNat::new();
    let mut counters = Counters::new();
    for i in 0..2_000u32 {
        let a = Endpoint::V4 { ip: i, port: 1 };
        assert!(test_nat_allow_at(&mut limits, &mut counters, a, 0, 0));
    }
    let a = Endpoint::V4 { ip: 5_000, port: 1 };
    assert!(!test_nat_allow_at(&mut limits, &mut counters, a, 0, 0));
    // the refused one left its own limit alone
    for _ in 0..20 {
        assert!(test_nat_allow_at(&mut limits, &mut counters, a, SECOND, 0));
    }
    assert!(!test_nat_allow_at(&mut limits, &mut counters, a, SECOND, 0));
}

#[test]
fn nat_test_by_the_clock() {
    let mut limits = TestNat::new();
    let mut counters = Counters::new();
    assert!(test_nat_allow(&mut limits, &mut counters, v4([1, 2, 3, 4], 5)));
    assert_eq!(snapshot(&counters)[0], 1);
}

#[test]
fn switches_are_off_unless_y() {
    let s = Switches::read("Y", "y", "");
    assert!(punch_udp(&s));
    assert!(punch_ipv6(&s));
    assert!(!ws_register_enabled(&s));
    for value in ["", "N", "n", "yes", "YES", "YY", " Y", "1", "true", "\u{e9}", "\u{1e99}"] {
        assert!(!switch_on(value));
    }
    assert!(switch_on("Y"));
    assert!(switch_on("y"));
    assert!(is_y(&"Y".to_string()));
    assert!(!is_y(&"y".to_string()));
    let s = Switches::off();
    assert!(!punch_udp(&s) && !punch_ipv6(&s) && !ws_register_enabled(&s));
}
