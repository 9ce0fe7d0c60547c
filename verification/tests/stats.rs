use araponto::stats::{inc, snapshot, stats_delta, stats_text, Counters, Stat};
use araponto::text::{decimal_text, hex_text};

const ALL: [Stat; 17] = [
    Stat::TestNatUdp,
    Stat::TestNatUdpLimited,
    Stat::PunchFwdUdp,
    Stat::PunchFwdV6,
    Stat::PunchExtraLimited,
    Stat::PendingFull,
    Stat::HoleSentUdpAccepted,
    Stat::HoleSentUdpNoPending,
    Stat::HoleSentUdpMismatch,
    Stat::HoleSentUdpDuplicate,
    Stat::WsRegister,
    Stat::WsRegisterRejected,
    Stat::WsOffline,
    Stat::WsRouted,
    Stat::WsRouteLost,
    Stat::ApiHeartbeat,
    Stat::ApiFallbackPushed,
];

#[test]
fn each_event_has_its_own_count() {
    let mut c = Counters::new();
    for (i, s) in ALL.iter().enumerate() {
        for _ in 0..=i {
            inc(&mut c, *s);
        }
    }
    let mut expected = [0u64; 17];
    for i in 0..17 {
        expected[i] = i as u64 + 1;
    }
    assert_eq!(snapshot(&c), expected);
}

#[test]
fn console_text_shows_counters_and_tables() {
    let mut c = Counters::new();
    inc(&mut c, Stat::PunchFwdV6);
    for _ in 0..123 {
        inc(&mut c, Stat::ApiFallbackPushed);
    }
    let expected = "test_nat_udp: 0\n\
        test_nat_udp_limited: 0\n\
        punch_fwd_udp: 0\n\
        punch_fwd_v6: 1\n\
        punch_extra_limited: 0\n\
        pending_full: 0\n\
        hole_sent_udp_accepted: 0\n\
        hole_sent_udp_no_pending: 0\n\
        hole_sent_udp_mismatch: 0\n\
        hole_sent_udp_duplicate: 0\n\
        ws_register: 0\n\
        ws_register_rejected: 0\n\
        ws_offline: 0\n\
        ws_routed: 0\n\
        ws_route_lost: 0\n\
        api_heartbeat: 0\n\
        api_fallback_pushed: 123\n\
        pending_udp_punch: 4\n\
        ws_peers: 50\n\
        heartbeat_ids: 600\n";
    assert_eq!(stats_text(&mut c, 4, 50, 600, false), expected);
    // without a reset the counters stay; a reset shows them once more
    assert_eq!(stats_text(&mut c, 4, 50, 600, true), expected);
    assert_eq!(snapshot(&c), [0u64; 17]);
}

#[test]
fn log_shows_what_went_up() {
    let last = [5u64; 17];
    let mut now = last;
    assert_eq!(stats_delta(&last, &now), None);
    now[2] = 6;
    assert_eq!(stats_delta(&last, &now), Some("punch_fwd_udp=+1".to_string()));
    now[0] = 105;
    now[1] = 0;
    now[16] = 7;
    assert_eq!(
        stats_delta(&last, &now),
        Some("test_nat_udp=+100 punch_fwd_udp=+1 api_fallback_pushed=+2".to_string())
    );
    // after a reset everything fell
    assert_eq!(stats_delta(&last, &[0u64; 17]), None);
}

#[test]
fn numbers_as_text() {
    for n in [0u64, 1, 9, 10, 99, 100, 65535, u64::MAX] {
        assert_eq!(decimal_text(n), n.to_string());
    }
    assert_eq!(hex_text(0xbeef, 4), "beef");
    assert_eq!(hex_text(0xbeef, 6), "00beef");
    assert_eq!(hex_text(0xbeef, 2), "ef");
    assert_eq!(hex_text(u128::MAX, 32), "f".repeat(32));
    assert_eq!(hex_text(5, 0), "");
    assert_eq!(hex_text(5, 40), format!("{}5", "0".repeat(39)));
    assert_eq!(hex_text(0, 20_000).len(), 20_000);
}
