use araponto::addr::{Endpoint, Ip, MAPPED};
use araponto::pending::{
    pending_insert, pending_insert_at, pending_take, pending_take_at, PendingTable, PENDING_CAP,
};
use araponto::stats::{snapshot, Counters, Stat};
use araponto::time::SECOND;

fn v4(octets: [u8; 4], port: u16) -> Endpoint {
    Endpoint::V4 { ip: u32::from_be_bytes(octets), port }
}

fn mapped(octets: [u8; 4], port: u16) -> Endpoint {
    Endpoint::V6 {
        ip: MAPPED + u32::from_be_bytes(octets) as u128,
        port,
        flowinfo: 0,
        scope_id: 0,
    }
}

#[test]
fn pending_matches_id_and_ip_and_is_consumed() {
    let mut pending = PendingTable::new();
    let mut counters = Counters::new();
    let a = mapped([10, 0, 0, 1], 40000);
    let b_ip = Ip::V4(u32::from_be_bytes([200, 1, 2, 3]));
    assert!(pending_insert(&mut pending, &mut counters, a, "123456789", b_ip));
    let b_src = mapped([200, 1, 2, 3], 5555);
    let other = v4([9, 9, 9, 9], 5555);
    // wrong id / wrong ip do not consume
    assert!(matches!(
        pending_take(&mut pending, v4([10, 0, 0, 1], 40000), "999999999", b_src),
        Err(Stat::HoleSentUdpMismatch)
    ));
    assert!(matches!(
        pending_take(&mut pending, v4([10, 0, 0, 1], 40000), "123456789", other),
        Err(Stat::HoleSentUdpMismatch)
    ));
    // v4 and v4-mapped forms of A are the same key
    assert!(pending_take(&mut pending, v4([10, 0, 0, 1], 40000), "123456789", b_src).is_ok());
    // consumed: the copies B sends afterwards are duplicates
    assert!(matches!(
        pending_take(&mut pending, a, "123456789", b_src),
        Err(Stat::HoleSentUdpDuplicate)
    ));
}

#[test]
fn unknown_controller_has_no_pending_punch() {
    let mut pending = PendingTable::new();
    let mut counters = Counters::new();
    let b = v4([2, 2, 2, 2], 1);
    assert_eq!(
        pending_take_at(&mut pending, v4([1, 1, 1, 1], 7), "1", b, 0),
        Err(Stat::HoleSentUdpNoPending)
    );
    assert!(pending_insert_at(
        &mut pending, &mut counters, v4([1, 1, 1, 1], 7), "1", Ip::V4(0x0202_0202), 0
    ));
    // the port of the controller counts
    assert_eq!(
        pending_take_at(&mut pending, v4([1, 1, 1, 1], 8), "1", b, 0),
        Err(Stat::HoleSentUdpNoPending)
    );
    // the port of the peer does not
    assert_eq!(
        pending_take_at(&mut pending, v4([1, 1, 1, 1], 7), "1", v4([2, 2, 2, 2], 999), 0),
        Ok(())
    );
}

#[test]
fn punch_expires_after_twenty_seconds() {
    let mut pending = PendingTable::new();
    let mut counters = Counters::new();
    let a = v4([1, 1, 1, 1], 7);
    let b = v4([2, 2, 2, 2], 1);
    let ip = Ip::V4(0x0202_0202);
    assert!(pending_insert_at(&mut pending, &mut counters, a, "1", ip, 100));
    assert_eq!(pending_take_at(&mut pending, a, "1", b, 100 + 20 * SECOND - 1), Ok(()));
    assert!(pending_insert_at(&mut pending, &mut counters, a, "1", ip, 200));
    assert_eq!(pending.len(), 1);
    assert_eq!(
        pending_take_at(&mut pending, a, "1", b, 200 + 20 * SECOND),
        Err(Stat::HoleSentUdpNoPending)
    );
    // the expired punch is gone, even for an earlier time
    assert_eq!(pending.len(), 0);
    assert_eq!(pending_take_at(&mut pending, a, "1", b, 201), Err(Stat::HoleSentUdpNoPending));
}

#[test]
fn new_request_replaces_the_punch() {
    let mut pending = PendingTable::new();
    let mut counters = Counters::new();
    let a = v4([1, 1, 1, 1], 7);
    let b = v4([2, 2, 2, 2], 1);
    let ip = Ip::V6(MAPPED + 0x0202_0202);
    assert!(pending_insert_at(&mut pending, &mut counters, a, "1", ip, 0));
    assert_eq!(pending_take_at(&mut pending, a, "1", b, 1), Ok(()));
    assert_eq!(pending_take_at(&mut pending, a, "1", b, 2), Err(Stat::HoleSentUdpDuplicate));
    assert!(pending_insert_at(&mut pending, &mut counters, a, "1", ip, 3));
    assert_eq!(pending_take_at(&mut pending, a, "1", b, 4), Ok(()));
    assert!(pending_insert_at(&mut pending, &mut counters, a, "2", ip, 5));
    assert_eq!(pending_take_at(&mut pending, a, "1", b, 6), Err(Stat::HoleSentUdpMismatch));
    assert_eq!(pending_take_at(&mut pending, a, "2", b, 7), Ok(()));
    assert_eq!(pending.len(), 1);
}

#[test]
fn scopes_of_ipv6_controllers_are_told_apart() {
    let mut pending = PendingTable::new();
    let mut counters = Counters::new();
    let ip = 0x2804u128 << 112;
    let b = v4([2, 2, 2, 2], 1);
    let one = Endpoint::V6 { ip, port: 7, flowinfo: 0, scope_id: 1 };
    let two = Endpoint::V6 { ip, port: 7, flowinfo: 0, scope_id: 2 };
    let flow = Endpoint::V6 { ip, port: 7, flowinfo: 1, scope_id: 1 };
    assert!(pending_insert_at(&mut pending, &mut counters, one, "1", Ip::V4(0x0202_0202), 0));
    assert_eq!(pending_take_at(&mut pending, two, "1", b, 0), Err(Stat::HoleSentUdpNoPending));
    assert_eq!(pending_take_at(&mut pending, flow, "1", b, 0), Err(Stat::HoleSentUdpNoPending));
    assert_eq!(pending_take_at(&mut pending, one, "1", b, 0), Ok(()));
}

#[test]
fn expired_punches_make_room() {
    let mut pending = PendingTable::new();
    let mut counters = Counters::new();
    let ip = Ip::V4(1);
    for i in 0..100u32 {
        let a = Endpoint::V4 { ip: i, port: 1 };
        assert!(pending_insert_at(&mut pending, &mut counters, a, "x", ip, i as u128));
    }
    assert_eq!(pending.len(), 100);
    // at 20 s and 49 ns the punches of the first fifty have expired
    let a = v4([9, 9, 9, 9], 1);
    assert!(pending_insert_at(&mut pending, &mut counters, a, "x", ip, 20 * SECOND + 49));
    assert_eq!(pending.len(), 51);
}

#[test]
fn full_table_refuses_until_punches_expire() {
    let mut pending = PendingTable::new();
    let mut counters = Counters::new();
    let ip = Ip::V4(1);
    assert_eq!(PENDING_CAP, 10_000);
    for i in 0..10_000u32 {
        let a = Endpoint::V4 { ip: i, port: 1 };
        assert!(pending_insert_at(&mut pending, &mut counters, a, "x", ip, i as u128));
    }
    let a = v4([9, 9, 9, 9], 1);
    assert!(!pending_insert_at(&mut pending, &mut counters, a, "x", ip, 10_000));
    // even a controller that has one pending is refused
    let known = Endpoint::V4 { ip: 5, port: 1 };
    assert!(!pending_insert_at(&mut pending, &mut counters, known, "x", ip, 10_000));
    assert_eq!(pending.len(), 10_000);
    assert_eq!(snapshot(&counters)[5], 2);
    assert!(pending_insert_at(&mut pending, &mut counters, a, "x", ip, 20 * SECOND));
    assert_eq!(pending.len(), 10_000);
}

#[test]
fn other_controllers_and_forged_packets_leave_a_punch() {
    let mut pending = PendingTable::new();
    let mut counters = Counters::new();
    let a = v4([10, 0, 0, 1], 40000);
    let b = v4([200, 1, 2, 3], 5555);
    assert!(pending_insert_at(&mut pending, &mut counters, a, "1", b.ip(), 0));
    for i in 1..10u32 {
        let now = i as u128 * SECOND;
        let other = Endpoint::V4 { ip: i, port: 1 };
        assert!(pending_insert_at(&mut pending, &mut counters, other, "1", b.ip(), now));
        let forged = pending_take_at(&mut pending, a, "2", b, now);
        assert_eq!(forged, Err(Stat::HoleSentUdpMismatch));
        assert_eq!(pending_take_at(&mut pending, other, "1", b, now), Ok(()));
    }
    // the first real answer, then copies of it from other ports, then too late
    assert_eq!(pending_take_at(&mut pending, a, "1", b, 10 * SECOND), Ok(()));
    for t in [10u128, 15, 19] {
        let other = Endpoint::V4 { ip: 100, port: t as u16 };
        assert!(pending_insert_at(&mut pending, &mut counters, other, "1", b.ip(), t * SECOND));
        let copy = v4([200, 1, 2, 3], t as u16);
        let r = pending_take_at(&mut pending, a, "1", copy, t * SECOND);
        assert_eq!(r, Err(Stat::HoleSentUdpDuplicate));
    }
    for t in [20u128, 21] {
        let r = pending_take_at(&mut pending, a, "1", b, t * SECOND);
        assert_eq!(r, Err(Stat::HoleSentUdpNoPending));
    }
}
